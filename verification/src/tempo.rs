//! Tempo and metre: when the tempo is estimated anew, which lag of the onset
//! curve is the beat, and where in the bar a beat falls.

use crate::level::Level;
use crate::select;
use vstd::prelude::*;

verus! {

/// Beats in a bar.
pub const BEATS_PER_BAR: u32 = 4;

// ---------------------------------------------------------------------------
// The estimate
// ---------------------------------------------------------------------------
/// Counts hops until the next estimate of the tempo.
pub struct EstimateClock {
    hops: u32,
    period: u32,
}

impl EstimateClock {
    /// The hops since the last estimate.
    pub closed spec fn spec_hops(&self) -> nat {
        self.hops as nat
    }

    /// The hops between two estimates.
    pub closed spec fn spec_period(&self) -> nat {
        self.period as nat
    }

    /// A clock for an estimate every `period` hops, at least every hop.
    pub fn new(period: u32) -> (out: Self)
        ensures
            out.spec_hops() == 0,
            out.spec_period() == (if period == 0 {
                1
            } else {
                period as nat
            }),
    {
        EstimateClock {
            hops: 0,
            period: if period == 0 {
                1
            } else {
                period
            },
        }
    }

    /// The hops since the last estimate.
    pub fn hops(&self) -> (n: u32)
        ensures
            n == self.spec_hops(),
    {
        self.hops
    }

    /// Counts one hop, and says whether the tempo is to be estimated: the period
    /// is over, and at least half of the onset curve is there.
    pub fn tick(&mut self, filled: usize, capacity: usize) -> (due: bool)
        requires
            old(self).spec_hops() < u32::MAX,
        ensures
            final(self).spec_period() == old(self).spec_period(),
            due == (old(self).spec_hops() + 1 >= old(self).spec_period() && filled >= capacity as int
                / 2),
            final(self).spec_hops() == (if due {
                0
            } else {
                old(self).spec_hops() + 1
            }),
            due ==> final(self).spec_hops() == 0 && old(self).spec_hops() + 1
                >= old(self).spec_period() && 2 * filled + 1 >= capacity,
            !due ==> final(self).spec_hops() < old(self).spec_period() || 2 * filled + 1 < capacity,
    {
        self.hops = self.hops + 1;
        if self.hops >= self.period && filled >= capacity / 2 {
            self.hops = 0;
            true
        } else {
            false
        }
    }
}

/// The lags to search, from the rounded lags of the fastest and the slowest
/// tempo, on a curve of `n` points: at least one, within half the curve where
/// that leaves two lags to compare.
pub fn lag_bounds(fastest: usize, slowest: usize, n: usize) -> (out: (usize, usize))
    requires
        fastest < usize::MAX,
    ensures
        out.0 == (if fastest < 1 {
            1
        } else {
            fastest as int
        }),
        ({
            let half = n as int / 2;
            let upper = if slowest < half {
                slowest as int
            } else {
                half
            };
            out.1 == (if upper < out.0 + 1 {
                out.0 + 1
            } else {
                upper
            })
        }),
        1 <= out.0 < out.1,
        fastest <= out.0,
        fastest >= 1 ==> out.0 == fastest,
        out.1 > out.0 + 1 ==> out.1 <= slowest && 2 * out.1 <= n && (out.1 == slowest || n < 2 * (
        out.1 + 1)),
{
    let lo: usize = if fastest < 1 {
        1
    } else {
        fastest
    };
    let half: usize = n / 2;
    let upper: usize = if slowest < half {
        slowest
    } else {
        half
    };
    let hi: usize = if upper < lo + 1 {
        lo + 1
    } else {
        upper
    };
    (lo, hi)
}

/// The lag with the highest positive score, the first of several; `scores`
/// holds those of the lags from `min_lag` on.
pub fn best_lag(scores: &[Level], min_lag: usize) -> (out: Option<usize>)
    requires
        min_lag + scores@.len() <= usize::MAX,
    ensures
        match out {
            Some(lag) => min_lag <= lag && select::is_best(
                scores@,
                Level::spec_zero(),
                lag - min_lag,
            ),
            None => select::none_beats(scores@, Level::spec_zero()),
        },
{
    match select::first_best(scores, Level::zero()) {
        Some(i) => Some(min_lag + i),
        None => None,
    }
}

/// The lags of a tempo, its double and its half.
pub fn octave_lags(lag: usize, max_lag: usize) -> (out: (usize, usize, usize))
    ensures
        out.0 == lag,
        out.1 == lag as int / 2,
        out.2 == (if lag * 2 <= max_lag {
            lag * 2
        } else {
            max_lag as int
        }),
        2 * out.1 <= lag < 2 * out.1 + 2,
        out.2 <= max_lag,
        out.2 < max_lag ==> out.2 == 2 * lag,
{
    let half_tempo: usize = if lag <= max_lag / 2 {
        lag * 2
    } else {
        max_lag
    };
    (lag, lag / 2, half_tempo)
}

/// Whether the onset before the current one is a peak that the beat can lock
/// to: it rises above the one before, does not fall short of the current one,
/// and lies above `floor`.
pub fn is_onset_peak(before: Level, peak: Level, current: Level, floor: Level) -> (yes: bool)
    ensures
        yes == (before.less(peak) && current.at_most(peak) && floor.less(peak)),
        yes ==> before.less(peak) && !peak.less(current) && floor.less(peak),
        before.less(peak) && current.at_most(peak) && floor.less(peak) ==> yes,
{
    before.is_less(peak) && current.is_at_most(peak) && floor.is_less(peak)
}

// ---------------------------------------------------------------------------
// The bar
// ---------------------------------------------------------------------------
/// Where the next beat falls in the bar.
pub fn next_beat(position: u32) -> (out: u32)
    ensures
        out == (position as int + 1) % 4,
        out < BEATS_PER_BAR,
        out < 4,
        (position as int + 1 - out) % 4 == 0,
{
    ((position as u64 + 1) % 4) as u32
}

/// Position `i` leads: none is more likely, no earlier one is as likely, and the
/// first position gives way only to one that is more likely than it.
pub open spec fn leads(likelihoods: Seq<Level>, i: int) -> bool {
    &&& 0 <= i < likelihoods.len()
    &&& i == 0 || likelihoods[0].less(likelihoods[i])
    &&& forall|j: int| 0 <= j < i ==> !likelihoods[i].at_most(#[trigger] likelihoods[j])
    &&& forall|j: int|
        0 <= j < likelihoods.len() ==> !likelihoods[i].less(#[trigger] likelihoods[j])
}

/// The most likely position in the bar of the beat that just ended, and the
/// runner-up's likelihood: zero or more where the first position leads, and that
/// of the first position or more where another one does.
pub fn best_position(likelihoods: &[Level]) -> (out: (usize, Level))
    requires
        likelihoods@.len() == BEATS_PER_BAR,
    ensures
        leads(likelihoods@, out.0 as int),
        select::is_runner_up(
            likelihoods@,
            (if out.0 == 0 {
                Level::spec_zero()
            } else {
                likelihoods@[0]
            }),
            Some(out.0),
            out.1,
        ),
{
    let mut best: usize = 0;
    let mut second: Level = Level::zero();
    let ghost mut at: int = 0;
    let mut i: usize = 1;
    while i < likelihoods.len()
        invariant
            likelihoods@.len() == BEATS_PER_BAR,
            1 <= i <= likelihoods@.len(),
            best < i,
            leads(likelihoods@.take(i as int), best as int),
            ({
                let floor = if best == 0 {
                    Level::spec_zero()
                } else {
                    likelihoods@[0]
                };
                &&& second == floor || floor.less(second)
                &&& second == floor || (0 <= at < i && at != best && likelihoods@[at] == second)
            }),
            best > 0 ==> !likelihoods@[best as int].less(second),
            forall|j: int|
                0 <= j < i && j != best ==> !second.less(#[trigger] likelihoods@[j]),
        decreases likelihoods@.len() - i,
    {
        let x = likelihoods[i];
        let top = likelihoods[best];
        let ghost seen = likelihoods@.take(i as int);
        let ghost next = likelihoods@.take(i + 1);
        assert(forall|j: int| 0 <= j < i ==> seen[j] == likelihoods@[j] && next[j] == seen[j]);
        assert(next[i as int] == x);
        if top.is_less(x) {
            proof {
                at = best as int;
                assert forall|j: int| 0 <= j < i implies !top.less(
                    #[trigger] likelihoods@[j],
                ) by {
                    assert(seen[j] == likelihoods@[j]);
                }
            }
            second = top;
            best = i;
        } else if second.is_less(x) {
            proof {
                at = i as int;
            }
            second = x;
        }
        i += 1;
    }
    assert(likelihoods@.take(i as int) =~= likelihoods@);
    (best, second)
}

/// The position that the model of the bar predicts to be the one before `pos`.
pub fn position_before(pos: usize) -> (out: usize)
    requires
        pos < 4,
    ensures
        out == (pos as int + 3) % 4,
        out < 4,
        (out + 1) % 4 == pos,
{
    (pos + 3) % 4
}

/// Where in the bar the current beat falls: as the model of the bar says where
/// it is locked on, and else as the count of beats says.
pub fn metrical_position(locked: bool, bar_pos: u32, beat_count: u32) -> (out: u32)
    ensures
        out == (if locked {
            bar_pos as int
        } else {
            beat_count as int % 4
        }),
        locked ==> out == bar_pos,
        !locked ==> out < 4 && (beat_count - out) % 4 == 0,
{
    if locked {
        bar_pos
    } else {
        beat_count % 4
    }
}

// ---------------------------------------------------------------------------
// Laws
// ---------------------------------------------------------------------------
/// The model of the bar rotates: the position before the next one is the
/// position itself.
pub proof fn law_bar_rotates(pos: int)
    requires
        0 <= pos < 4,
    ensures
        ((pos + 1) % 4 + 3) % 4 == pos,
        (((pos + 1) % 4 + 1) % 4 + 2) % 4 == pos,
{
}

/// The bar comes round after four beats.
pub proof fn law_bar_has_four_beats(pos: int)
    requires
        0 <= pos < 4,
    ensures
        ((((pos + 1) % 4 + 1) % 4 + 1) % 4 + 1) % 4 == pos,
{
}

/// The position that leads is as likely as any, more likely than all before it, and
/// another than the first only where it is more likely than the first.
pub proof fn law_leading_position(likelihoods: Seq<Level>, i: int, j: int)
    requires
        leads(likelihoods, i),
        0 <= j < likelihoods.len(),
        !likelihoods[i].spec_is_nan(),
        !likelihoods[j].spec_is_nan(),
    ensures
        0 <= i < likelihoods.len(),
        likelihoods[j].at_most(likelihoods[i]),
        j < i ==> likelihoods[j].less(likelihoods[i]),
{
    assert(!likelihoods[i].less(likelihoods[j]));
    if j < i {
        assert(!likelihoods[i].at_most(likelihoods[j]));
    }
}

/// No two positions lead.
pub proof fn law_one_position_leads(likelihoods: Seq<Level>, i: int, j: int)
    requires
        leads(likelihoods, i),
        leads(likelihoods, j),
    ensures
        i == j,
{
    if i < j {
        assert(!likelihoods[j].at_most(likelihoods[i]));
        assert(!likelihoods[i].less(likelihoods[j]));
        if i == 0 {
            assert(likelihoods[0].less(likelihoods[j]));
        } else {
            assert(likelihoods[0].less(likelihoods[i]));
            assert(likelihoods[0].less(likelihoods[j]));
        }
    } else if j < i {
        assert(!likelihoods[i].at_most(likelihoods[j]));
        assert(!likelihoods[j].less(likelihoods[i]));
        if j == 0 {
            assert(likelihoods[0].less(likelihoods[i]));
        } else {
            assert(likelihoods[0].less(likelihoods[i]));
            assert(likelihoods[0].less(likelihoods[j]));
        }
    }
}

/// Whatever the likelihoods are, none exceeds that of the leading position, none
/// before it is at least as much, and one other than the first leads only where it
/// exceeds the first.
pub proof fn law_leading_position_of_any_likelihoods(likelihoods: Seq<Level>, i: int, j: int)
    requires
        0 <= i < likelihoods.len(),
        0 <= j < likelihoods.len(),
    ensures
        leads(likelihoods, i) ==> !likelihoods[i].less(likelihoods[j]) && (j < i
            ==> !likelihoods[i].at_most(likelihoods[j])) && (i > 0 ==> likelihoods[0].less(
            likelihoods[i],
        )),
{
}

/// The position before the next beat is the position of the beat itself, whatever
/// bar it is counted from.
pub proof fn law_next_beat_comes_behind(position: u32, next: u32, before: usize)
    requires
        call_ensures(next_beat, (position,), next),
        call_ensures(position_before, (next as usize,), before),
    ensures
        next < 4,
        before < 4,
        before == position as int % 4,
{
}

/// The searched lags begin with that of the fastest tempo, or one, and end with the
/// largest lag that neither exceeds that of the slowest tempo nor half of the curve;
/// where that leaves less than two lags to compare, with the next one.
pub proof fn law_searched_lags(fastest: usize, slowest: usize, n: usize, out: (usize, usize))
    requires
        fastest < usize::MAX,
        call_ensures(lag_bounds, (fastest, slowest, n), out),
    ensures
        out.0 == (if fastest == 0 {
            1
        } else {
            fastest as int
        }),
        slowest > out.0 && n > 2 * out.0 + 1 ==> out.0 < out.1 <= slowest && 2 * out.1 <= n && (
        out.1 == slowest || 2 * (out.1 + 1) > n),
        slowest <= out.0 || n <= 2 * out.0 + 1 ==> out.1 == out.0 + 1,
{
}

/// The lag of the double tempo is half the lag, and that of the half tempo twice the
/// lag as far as the lags reach.
pub proof fn law_octaves_of_a_lag(lag: usize, max_lag: usize, out: (usize, usize, usize))
    requires
        call_ensures(octave_lags, (lag, max_lag), out),
    ensures
        out.0 == lag,
        lag == 2 * out.1 || lag == 2 * out.1 + 1,
        2 * lag <= max_lag ==> out.2 == 2 * lag,
        2 * lag > max_lag ==> out.2 == max_lag,
{
}

/// An onset is a peak exactly where it exceeds the one before and the floor, and is
/// not exceeded by the one behind.
pub proof fn law_onset_peak(before: Level, peak: Level, current: Level, floor: Level, yes: bool)
    requires
        call_ensures(is_onset_peak, (before, peak, current, floor), yes),
    ensures
        yes <==> before.less(peak) && floor.less(peak) && current.at_most(peak),
{
}

/// A beat's place in the bar is the model's where that is locked on, and else the
/// count's, which comes round after four.
pub proof fn law_place_in_the_bar(locked: bool, bar_pos: u32, beat_count: u32, out: u32, later: u32)
    requires
        beat_count <= u32::MAX - 4,
        call_ensures(metrical_position, (locked, bar_pos, beat_count), out),
        call_ensures(metrical_position, (locked, bar_pos, (beat_count + 4) as u32), later),
    ensures
        locked ==> out == bar_pos,
        !locked ==> out < 4 && out == later,
        !locked && beat_count < 4 ==> out == beat_count,
{
}

/// The best lag is the lag of the first of the highest scores above zero; there is
/// none only where no score is above zero.
pub proof fn law_best_lag(scores: &[Level], min_lag: usize, out: Option<usize>, j: int)
    requires
        min_lag + scores@.len() <= usize::MAX,
        call_ensures(best_lag, (scores, min_lag), out),
        0 <= j < scores@.len(),
    ensures
        out is None ==> !Level::with_bits(0).less(scores@[j]),
        out matches Some(lag) ==> {
            &&& min_lag <= lag < min_lag + scores@.len()
            &&& Level::with_bits(0).less(scores@[lag - min_lag])
            &&& !scores@[lag - min_lag].less(scores@[j])
            &&& (scores@[lag - min_lag].at_most(scores@[j]) ==> lag <= min_lag + j)
        },
{
    match out {
        Some(lag) => {
            select::law_best_is_the_first_of_the_highest(
                scores@,
                Level::spec_zero(),
                lag - min_lag,
                j,
            );
        },
        None => {
            select::law_none_is_best_below_the_floor(scores@, Level::spec_zero(), j);
        },
    }
}

} // verus!
