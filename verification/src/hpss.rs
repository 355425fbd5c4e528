//! The median filters of the harmonic and percussive separation: along time,
//! over the recent magnitude frames, and along frequency, within one frame.

use crate::history;
use crate::history::History;
use crate::level;
use crate::level::{finite_non_negative, Level};
use crate::order;
use vstd::prelude::*;

verus! {

/// Half the width of the separator's filter along frequency.
pub const FREQ_MEDIAN_RADIUS: usize = 5;

/// Half the width of the dual bus's filter along frequency, at most.
pub const BUS_FREQ_MEDIAN_RADIUS: usize = 8;

/// A magnitude frame as the filters take it.
pub open spec fn cleaned(mag: Seq<Level>) -> Seq<Level> {
    mag.map_values(|x: Level| level::non_negative(x))
}

/// A magnitude frame as the filters take it.
fn clean(mag: &[Level]) -> (out: Vec<Level>)
    ensures
        out@ == cleaned(mag@),
{
    let mut out: Vec<Level> = Vec::new();
    let mut i: usize = 0;
    while i < mag.len()
        invariant
            i <= mag@.len(),
            out@ == cleaned(mag@).take(i as int),
        decreases mag@.len() - i,
    {
        out.push(finite_non_negative(mag[i]));
        i += 1;
        assert(out@ =~= cleaned(mag@).take(i as int));
    }
    assert(cleaned(mag@).take(i as int) =~= cleaned(mag@));
    out
}

// ---------------------------------------------------------------------------
// Along time
// ---------------------------------------------------------------------------
/// The number of frames that a filter along time covers, given the rounded
/// number that its duration asks for: at least three, and odd.
pub open spec fn window_frames(rounded: int) -> int {
    let n = if rounded < 3 {
        3
    } else {
        rounded
    };
    if n % 2 == 0 {
        n + 1
    } else {
        n
    }
}

/// The levels of one bin in a number of frames.
pub open spec fn column(frames: Seq<Seq<Level>>, bin: int) -> Seq<Level> {
    frames.map_values(|f: Seq<Level>| f[bin])
}

/// The recent magnitude frames, and the median of each bin over them.
pub struct HpssHistory {
    n_bins: usize,
    frames: History<Vec<Level>>,
    harm_ref: Vec<Level>,
}

impl HpssHistory {
    /// The number of bins of a frame.
    pub closed spec fn spec_bins(&self) -> nat {
        self.n_bins as nat
    }

    /// The number of frames that the filter covers.
    pub closed spec fn spec_window(&self) -> nat {
        self.frames.spec_capacity()
    }

    /// The recent frames, from the oldest to the newest.
    pub closed spec fn spec_frames(&self) -> Seq<Seq<Level>> {
        self.frames@.map_values(|f: Vec<Level>| f@)
    }

    /// The median of each bin.
    pub closed spec fn spec_harm_ref(&self) -> Seq<Level> {
        self.harm_ref@
    }

    /// The frames and the medians have a level for each bin.
    pub closed spec fn wf(&self) -> bool {
        &&& self.n_bins > 0
        &&& self.frames.wf()
        &&& self.harm_ref@.len() == self.n_bins
        &&& forall|i: int| 0 <= i < self.frames@.len() ==> (#[trigger] self.frames@[i])@.len()
            == self.n_bins
    }

    /// A history for frames of at least one bin, over the number of frames that
    /// the rounded number asks for.
    pub fn new(n_bins: usize, rounded_frames: usize) -> (out: Self)
        requires
            rounded_frames < usize::MAX,
        ensures
            out.wf(),
            out.spec_bins() == (if n_bins == 0 {
                1
            } else {
                n_bins as nat
            }),
            out.spec_window() == window_frames(rounded_frames as int),
            out.spec_frames() == Seq::<Seq<Level>>::empty(),
            out.spec_harm_ref() == Seq::new(out.spec_bins(), |i: int| Level::spec_zero()),
    {
        let n_bins: usize = if n_bins == 0 {
            1
        } else {
            n_bins
        };
        let mut window: usize = if rounded_frames < 3 {
            3
        } else {
            rounded_frames
        };
        if window % 2 == 0 {
            window = window + 1;
        }
        let mut harm_ref: Vec<Level> = Vec::new();
        while harm_ref.len() < n_bins
            invariant
                harm_ref@.len() <= n_bins,
                forall|i: int|
                    0 <= i < harm_ref@.len() ==> #[trigger] harm_ref@[i] == Level::spec_zero(),
            decreases n_bins - harm_ref@.len(),
        {
            harm_ref.push(Level::zero());
        }
        let out = HpssHistory { n_bins, frames: History::new(window), harm_ref };
        assert(out.spec_frames() =~= Seq::<Seq<Level>>::empty());
        assert(out.spec_harm_ref() =~= Seq::new(out.spec_bins(), |i: int| Level::spec_zero()));
        out
    }

    /// The number of frames that the filter covers.
    pub fn time_window_frames(&self) -> (n: usize)
        ensures
            n == self.spec_window(),
    {
        self.frames.capacity()
    }

    /// Takes the next magnitude frame and makes the median of each bin anew,
    /// over the frames that came so far.
    pub fn advance(&mut self, mag: &[Level])
        requires
            old(self).wf(),
            mag@.len() == old(self).spec_bins(),
        ensures
            final(self).wf(),
            final(self).spec_bins() == old(self).spec_bins(),
            final(self).spec_window() == old(self).spec_window(),
            final(self).spec_frames() == history::recorded(
                old(self).spec_frames(),
                cleaned(mag@),
                old(self).spec_window(),
            ),
            final(self).spec_harm_ref().len() == old(self).spec_bins(),
            forall|bin: int|
                0 <= bin < final(self).spec_bins() ==> order::is_median(
                    column(final(self).spec_frames(), bin),
                    #[trigger] final(self).spec_harm_ref()[bin],
                ),
    {
        let ghost before = self.spec_frames();
        let ghost cap = self.spec_window();
        let ghost held = self.frames@;
        let frame = clean(mag);
        let ghost added = frame@;
        self.frames.push(frame);
        proof {
            assert(self.spec_frames() =~= history::recorded(before, added, cap));
            assert forall|i: int| 0 <= i < self.frames@.len() implies (
            #[trigger] self.frames@[i])@.len() == self.n_bins by {
                let f = self.spec_frames();
                assert(f[i] == self.frames@[i]@);
                let all = held.push(frame);
                assert(self.frames@[i] == frame || (exists|k: int|
                    0 <= k < held.len() && self.frames@[i] == #[trigger] held[k])) by {
                    if held.len() < cap {
                        if i < held.len() {
                            assert(self.frames@[i] == held[i]);
                        }
                    } else {
                        let off = held.len() + 1 - cap;
                        assert(self.frames@[i] == all[off + i]);
                        if off + i < held.len() {
                            assert(self.frames@[i] == held[off + i]);
                        }
                    }
                }
            }
        }
        let count: usize = self.frames.len();
        let mut bin: usize = 0;
        let mut medians: Vec<Level> = Vec::new();
        while bin < self.n_bins
            invariant
                self.n_bins == mag@.len(),
                self.frames.wf(),
                count == self.frames@.len(),
                forall|i: int| 0 <= i < self.frames@.len() ==> (#[trigger] self.frames@[i])@.len()
                    == self.n_bins,
                bin <= self.n_bins,
                medians@.len() == bin,
                forall|b: int|
                    0 <= b < bin ==> order::is_median(
                        column(self.spec_frames(), b),
                        #[trigger] medians@[b],
                    ),
            decreases self.n_bins - bin,
        {
            let mut values: Vec<Level> = Vec::new();
            let ghost col = column(self.spec_frames(), bin as int);
            let mut i: usize = 0;
            while i < count
                invariant
                    self.frames.wf(),
                    count == self.frames@.len(),
                    forall|k: int|
                        0 <= k < self.frames@.len() ==> (#[trigger] self.frames@[k])@.len()
                            == self.n_bins,
                    bin < self.n_bins,
                    col == column(self.spec_frames(), bin as int),
                    i <= count,
                    values@ == col.take(i as int),
                decreases count - i,
            {
                let f = self.frames.newest(count - 1 - i);
                assert(*f == self.frames@[i as int]);
                assert(col[i as int] == f@[bin as int]);
                values.push(f[bin]);
                i += 1;
                assert(values@ =~= col.take(i as int));
            }
            assert(values@ =~= col);
            medians.push(order::median(values.as_slice()));
            bin += 1;
        }
        self.harm_ref = medians;
    }

    /// The median of each bin.
    pub fn harm_ref(&self) -> (out: &[Level])
        ensures
            out@ == self.spec_harm_ref(),
    {
        self.harm_ref.as_slice()
    }
}

// ---------------------------------------------------------------------------
// Along frequency
// ---------------------------------------------------------------------------
/// The first index of the neighbourhood of `at`, `radius` to each side.
pub open spec fn neighbours_from(at: int, radius: int) -> int {
    if at < radius {
        0
    } else {
        at - radius
    }
}

/// The index behind the neighbourhood of `at`, `radius` to each side, of `len`
/// things.
pub open spec fn neighbours_to(at: int, radius: int, len: int) -> int {
    if at + radius + 1 < len {
        at + radius + 1
    } else {
        len
    }
}

/// The neighbourhood of `at`, `radius` to each side, of `len` things.
pub fn neighbourhood(at: usize, radius: usize, len: usize) -> (out: (usize, usize))
    requires
        at < len,
    ensures
        out.0 == neighbours_from(at as int, radius as int),
        out.1 == neighbours_to(at as int, radius as int, len as int),
        out.0 <= at < out.1 <= len,
        at - radius <= out.0,
        out.0 > 0 ==> out.0 == at - radius,
        out.1 - 1 <= at + radius,
        out.1 < len ==> out.1 - 1 == at + radius,
{
    let lo: usize = if at < radius {
        0
    } else {
        at - radius
    };
    let hi: usize = if radius < len - at {
        at + radius + 1
    } else {
        len
    };
    (lo, hi)
}

/// The radius of the dual bus's filter for frames of `n_bins` bins: at least
/// one, and no more than the frame allows.
pub fn bus_radius(n_bins: usize) -> (r: usize)
    ensures
        r == (if n_bins <= 2 {
            1
        } else if n_bins - 1 < BUS_FREQ_MEDIAN_RADIUS {
            n_bins - 1
        } else {
            BUS_FREQ_MEDIAN_RADIUS as int
        }),
        1 <= r <= 8,
        n_bins > 2 ==> r < n_bins,
        n_bins > 8 ==> r == 8,
        2 < n_bins <= 8 ==> r + 1 == n_bins,
{
    if n_bins <= 2 {
        1
    } else if n_bins - 1 < BUS_FREQ_MEDIAN_RADIUS {
        n_bins - 1
    } else {
        BUS_FREQ_MEDIAN_RADIUS
    }
}

/// The median of a frame over the neighbourhood of `bin`.
pub fn frequency_median(mag: &[Level], bin: usize, radius: usize) -> (out: Level)
    requires
        bin < mag@.len(),
    ensures
        order::is_median(
            cleaned(mag@).subrange(
                neighbours_from(bin as int, radius as int),
                neighbours_to(bin as int, radius as int, mag@.len() as int),
            ),
            out,
        ),
{
    let (lo, hi) = neighbourhood(bin, radius, mag.len());
    let window = clean(vstd::slice::slice_subrange(mag, lo, hi));
    assert(window@ =~= cleaned(mag@).subrange(lo as int, hi as int));
    order::median(window.as_slice())
}

// ---------------------------------------------------------------------------
// Laws
// ---------------------------------------------------------------------------
/// The filter along time always has a middle frame: its length is odd and at
/// least three, and it differs from what was asked by no more than one where
/// that is at least three.
pub proof fn law_window_has_a_middle(rounded: int)
    ensures
        window_frames(rounded) % 2 == 1,
        window_frames(rounded) >= 3,
        rounded >= 3 ==> rounded <= window_frames(rounded) <= rounded + 1,
{
}

/// A neighbourhood holds its own place and no more than `radius` to each side.
pub proof fn law_neighbourhood_is_around(at: int, radius: int, len: int)
    requires
        0 <= at < len,
        0 <= radius,
    ensures
        0 <= neighbours_from(at, radius) <= at < neighbours_to(at, radius, len) <= len,
        at - neighbours_from(at, radius) <= radius,
        neighbours_to(at, radius, len) - 1 - at <= radius,
{
}

/// The neighbourhood of a place is everything within the radius and nothing else:
/// a place lies in it exactly where it is there at all and no farther away than
/// the radius.
pub proof fn law_neighbourhood_is_all_within_the_radius(at: int, radius: int, len: int, k: int)
    requires
        0 <= at < len,
        0 <= radius,
    ensures
        neighbours_from(at, radius) <= k < neighbours_to(at, radius, len) <==> 0 <= k < len && at
            - radius <= k <= at + radius,
{
}

/// The filter along time covers the least odd number of frames that is neither
/// below three nor below what was asked.
pub proof fn law_window_is_the_least_odd_one(rounded: int, n: int)
    requires
        n % 2 == 1,
        n >= 3,
        n >= rounded,
    ensures
        window_frames(rounded) <= n,
        window_frames(rounded) >= 3,
        window_frames(rounded) >= rounded,
        window_frames(rounded) % 2 == 1,
{
}

/// The filters take every magnitude at its place: what is a finite number above
/// zero as it is, and everything else as zero.
pub proof fn law_cleaned_magnitudes(mag: Seq<Level>, i: int)
    requires
        0 <= i < mag.len(),
    ensures
        cleaned(mag).len() == mag.len(),
        (mag[i].spec_is_finite() && Level::spec_zero().less(mag[i])) ==> cleaned(mag)[i] == mag[i],
        !(mag[i].spec_is_finite() && Level::spec_zero().less(mag[i])) ==> cleaned(mag)[i].bits == 0,
{
}

/// A bin's levels over the frames are the levels that the frames have at that
/// bin, frame by frame.
pub proof fn law_column_is_one_bin_of_every_frame(frames: Seq<Seq<Level>>, bin: int, k: int)
    requires
        0 <= k < frames.len(),
    ensures
        column(frames, bin).len() == frames.len(),
        column(frames, bin)[k] == frames[k][bin],
{
}

/// A neighbourhood is everything within the radius and nothing else.
pub proof fn law_neighbourhood(at: usize, radius: usize, len: usize, out: (usize, usize), k: int)
    requires
        at < len,
        call_ensures(neighbourhood, (at, radius, len), out),
    ensures
        out.0 <= k < out.1 <==> 0 <= k < len && at - radius <= k <= at + radius,
{
}

/// The dual bus's radius is eight, or less where a frame has no more than eight bins:
/// then the whole frame but its first bin, and at least one.
pub proof fn law_radius_of_the_dual_bus(n_bins: usize, r: usize)
    requires
        call_ensures(bus_radius, (n_bins,), r),
    ensures
        n_bins > 8 ==> r == 8,
        2 <= n_bins <= 8 ==> r + 1 == n_bins,
        n_bins < 2 ==> r == 1,
{
}

/// A bin's median along frequency is the median of the magnitudes of all bins within
/// the radius and of no others.
pub proof fn law_median_along_frequency(
    mag: &[Level],
    bin: usize,
    radius: usize,
    out: Level,
    lo: int,
    hi: int,
)
    requires
        bin < mag@.len(),
        call_ensures(frequency_median, (mag, bin, radius), out),
        0 <= lo <= bin < hi <= mag@.len(),
        lo == 0 || lo == bin - radius,
        bin - lo <= radius,
        hi == mag@.len() || hi - 1 == bin + radius,
        hi - 1 - bin <= radius,
    ensures
        order::is_median(cleaned(mag@).subrange(lo, hi), out),
{
}

} // verus!
