//! Onset detection: an onset fires where the flux exceeds a threshold that
//! follows the median of the recent flux, and not again for a while.

use crate::history;
use crate::history::History;
use crate::level::Level;
use crate::order;
use vstd::prelude::*;

verus! {

/// The recent flux and the time until the next onset may fire.
pub struct OnsetDetector {
    history: History<Level>,
    refractory_frames: u32,
    refractory_left: u32,
}

/// An onset fires: none has just fired, and the flux exceeds the threshold.
pub open spec fn fires(left: nat, flux: Level, threshold: Level) -> bool {
    left == 0 && threshold.less(flux)
}

/// The frames for which no onset may fire, after the next frame.
pub open spec fn next_left(left: nat, frames: nat, fired: bool) -> nat {
    if left > 0 {
        (left - 1) as nat
    } else if fired {
        frames
    } else {
        0
    }
}

impl OnsetDetector {
    /// The recent flux, from the oldest to the newest.
    pub closed spec fn spec_history(&self) -> Seq<Level> {
        self.history@
    }

    /// How much flux is remembered.
    pub closed spec fn spec_capacity(&self) -> nat {
        self.history.spec_capacity()
    }

    /// The frames for which no onset may fire after one.
    pub closed spec fn spec_frames(&self) -> nat {
        self.refractory_frames as nat
    }

    /// The frames for which no onset may fire yet.
    pub closed spec fn spec_left(&self) -> nat {
        self.refractory_left as nat
    }

    /// The detector's history is in order.
    pub closed spec fn wf(&self) -> bool {
        self.history.wf()
    }

    /// A detector that remembers the flux of at least one frame.
    pub fn new(hist_len: usize, refractory_frames: u32) -> (out: Self)
        ensures
            out.wf(),
            out.spec_history() == Seq::<Level>::empty(),
            out.spec_capacity() == (if hist_len == 0 {
                1
            } else {
                hist_len as nat
            }),
            out.spec_frames() == refractory_frames,
            out.spec_left() == 0,
    {
        OnsetDetector { history: History::new(hist_len), refractory_frames, refractory_left: 0 }
    }

    /// The median of the recent flux.
    pub fn median(&self) -> (out: Level)
        requires
            self.wf(),
        ensures
            order::is_median(self.spec_history(), out),
    {
        let values = self.history.in_order();
        order::median(values.as_slice())
    }

    /// Takes the flux of one frame, judged against a threshold that was made
    /// from the frames before it, and says whether an onset fires.
    pub fn process(&mut self, flux: Level, threshold: Level) -> (fired: bool)
        requires
            old(self).wf(),
        ensures
            final(self).wf(),
            final(self).spec_capacity() == old(self).spec_capacity(),
            final(self).spec_frames() == old(self).spec_frames(),
            final(self).spec_history() == history::recorded(
                old(self).spec_history(),
                flux,
                old(self).spec_capacity(),
            ),
            fired == fires(old(self).spec_left(), flux, threshold),
            fired ==> threshold.less(flux),
            old(self).spec_left() == 0 && threshold.less(flux) ==> fired,
            old(self).spec_left() > 0 ==> !fired && final(self).spec_left() + 1
                == old(self).spec_left(),
            fired ==> final(self).spec_left() == old(self).spec_frames(),
            old(self).spec_left() == 0 && !fired ==> final(self).spec_left() == 0,
            final(self).spec_left() == next_left(
                old(self).spec_left(),
                old(self).spec_frames(),
                fired,
            ),
    {
        self.history.push(flux);
        if self.refractory_left > 0 {
            self.refractory_left = self.refractory_left - 1;
            return false;
        }
        if threshold.is_less(flux) {
            self.refractory_left = self.refractory_frames;
            return true;
        }
        false
    }
}

// ---------------------------------------------------------------------------
// Laws
// ---------------------------------------------------------------------------
/// The frames for which no onset may fire, after the frames with the given flux
/// and thresholds.
pub open spec fn left_after(left: nat, frames: nat, inputs: Seq<(Level, Level)>) -> nat
    decreases inputs.len(),
{
    if inputs.len() == 0 {
        left
    } else {
        let before = left_after(left, frames, inputs.drop_last());
        next_left(before, frames, fires(before, inputs.last().0, inputs.last().1))
    }
}

/// One hit does not fire twice: after an onset, none fires for the set number of
/// frames, whatever their flux.
pub proof fn law_no_onset_while_refractory(
    frames: nat,
    inputs: Seq<(Level, Level)>,
    flux: Level,
    threshold: Level,
)
    requires
        inputs.len() < frames,
    ensures
        left_after(frames, frames, inputs) == frames - inputs.len(),
        !fires(left_after(frames, frames, inputs), flux, threshold),
    decreases inputs.len(),
{
    if inputs.len() > 0 {
        law_no_onset_while_refractory(frames, inputs.drop_last(), flux, threshold);
    }
}

/// A frame's own flux has no part in the median that its threshold is made
/// from, and the median is the upper middle of the recent flux whatever the
/// order in which it came.
pub proof fn law_median_ignores_order(s: Seq<Level>, t: Seq<Level>, x: Level)
    requires
        order::rearranged(s, t),
        order::is_median(s, x),
    ensures
        order::is_median(t, x),
{
    if s.len() > 0 {
        order::law_nth_ignores_order(s, t, s.len() as int / 2, x);
    }
}

/// No onset fires unless the flux exceeds the threshold, both being numbers, and
/// outside the time after an onset one fires whenever it does.
pub proof fn law_onset_fires_exactly_above_the_threshold(left: nat, flux: Level, threshold: Level)
    ensures
        fires(left, flux, threshold) ==> left == 0 && !flux.spec_is_nan()
            && !threshold.spec_is_nan() && threshold.ordinal() < flux.ordinal(),
        left == 0 && !flux.spec_is_nan() && !threshold.spec_is_nan() && threshold.ordinal()
            < flux.ordinal() ==> fires(left, flux, threshold),
{
}

/// After an onset none fires for exactly the set number of frames: the wait begins
/// with an onset alone, lasts that long, and ends one frame at a time.
pub proof fn law_wait_is_set_by_an_onset_alone(left: nat, frames: nat, fired: bool)
    ensures
        left > 0 ==> next_left(left, frames, fired) + 1 == left,
        left == 0 && fired ==> next_left(left, frames, fired) == frames,
        left == 0 && !fired ==> next_left(left, frames, fired) == 0,
{
}

/// Once the wait is over, the next frame whose flux exceeds its threshold fires:
/// after an onset and as many frames as were set, whatever their flux.
pub proof fn law_onset_fires_again_after_the_wait(
    frames: nat,
    inputs: Seq<(Level, Level)>,
    flux: Level,
    threshold: Level,
)
    requires
        inputs.len() == frames,
        threshold.less(flux),
    ensures
        fires(left_after(frames, frames, inputs), flux, threshold),
{
    if frames > 0 {
        law_no_onset_while_refractory(frames, inputs.drop_last(), flux, threshold);
    }
}

} // verus!
