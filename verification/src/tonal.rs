//! Keys and pitches: which of the scored keys wins, how far two keys lie apart,
//! and which peak of a pitch curve is the fundamental.

use crate::level::Level;
use crate::select;
use vstd::prelude::*;

verus! {

/// The number of pitch classes.
pub const CHROMA_BINS: usize = 12;

/// The number of keys: a major and a minor one on each pitch class.
pub const KEY_STATE_COUNT: usize = 24;

/// The pattern of negative infinity.
pub const NEG_INFINITY_BITS: u32 = 0xff80_0000;

// ---------------------------------------------------------------------------
// Keys
// ---------------------------------------------------------------------------
/// The winning key with its score and the runner-up's.
pub struct KeyChoice {
    /// The winner's number among the scored keys; none where no key has a score.
    pub state: Option<usize>,
    /// The root's pitch class.
    pub root: usize,
    /// Whether the key is minor.
    pub is_minor: bool,
    /// The winner's score.
    pub best: Level,
    /// The runner-up's score.
    pub second: Level,
}

/// Negative infinity, below which no score lies.
pub open spec fn lowest() -> Level {
    Level::with_bits(NEG_INFINITY_BITS)
}

impl KeyChoice {
    /// The winner's number, or that of the first key where no key has a score.
    pub open spec fn number(self) -> int {
        match self.state {
            Some(i) => i as int,
            None => 0,
        }
    }

    /// The choice is the best of the scored keys.
    pub open spec fn is_best_of(self, scores: Seq<Level>) -> bool {
        &&& match self.state {
            Some(i) => select::is_best(scores, lowest(), i as int) && self.best == scores[i as int],
            None => select::none_beats(scores, lowest()) && self.best == lowest(),
        }
        &&& select::is_runner_up(scores, lowest(), self.state, self.second)
    }
}

/// The winner of the keys scored in the order: all major keys by their root,
/// then all minor ones.
pub fn estimate_from_state_scores(scores: &[Level]) -> (out: KeyChoice)
    ensures
        out.is_best_of(scores@),
        out.root == out.number() % 12,
        out.is_minor == (out.number() >= 12),
{
    let floor = Level::from_bits(NEG_INFINITY_BITS);
    let (best, second) = select::best_two(scores, floor);
    let (state, top): (usize, Level) = match best {
        Some(i) => (i, scores[i]),
        None => (0, floor),
    };
    KeyChoice {
        state: best,
        root: state % CHROMA_BINS,
        is_minor: state >= CHROMA_BINS,
        best: top,
        second,
    }
}

/// The winner of the keys scored in the order: on each root its major and then
/// its minor key.
pub fn estimate_from_profiles(scores: &[Level]) -> (out: KeyChoice)
    ensures
        out.is_best_of(scores@),
        out.root == out.number() / 2,
        out.is_minor == (out.number() % 2 == 1),
{
    let floor = Level::from_bits(NEG_INFINITY_BITS);
    let (best, second) = select::best_two(scores, floor);
    let (state, top): (usize, Level) = match best {
        Some(i) => (i, scores[i]),
        None => (0, floor),
    };
    KeyChoice { state: best, root: state / 2, is_minor: state % 2 == 1, best: top, second }
}

/// How many semitones lie between two pitch classes on the shorter way round.
pub open spec fn root_distance(a: int, b: int) -> int {
    let d = if a <= b {
        b - a
    } else {
        a - b
    };
    if d <= 12 - d {
        d
    } else {
        12 - d
    }
}

/// How far two keys lie apart: the steps between their roots, and whether the
/// mode changes.
pub fn transition_steps(from: usize, to: usize) -> (out: (usize, bool))
    ensures
        out.0 == root_distance(from as int % 12, to as int % 12),
        out.1 == ((from >= CHROMA_BINS) != (to >= CHROMA_BINS)),
        out.0 <= 6,
        (from as int % 12 + out.0) % 12 == to as int % 12 || (to as int % 12 + out.0) % 12
            == from as int % 12,
        out.1 <==> (from < 12 <= to || to < 12 <= from),
{
    let a: usize = from % CHROMA_BINS;
    let b: usize = to % CHROMA_BINS;
    let d: usize = if a <= b {
        b - a
    } else {
        a - b
    };
    let steps: usize = if d <= CHROMA_BINS - d {
        d
    } else {
        CHROMA_BINS - d
    };
    proof {
        law_root_distance(a as int, b as int);
        law_root_distance_leads_from_one_to_the_other(a as int, b as int, steps as int);
    }
    (steps, (from >= CHROMA_BINS) != (to >= CHROMA_BINS))
}

/// The pitch class of a note number.
pub fn pitch_class(note: i32) -> (pc: usize)
    ensures
        pc == note as int % 12,
        pc < CHROMA_BINS,
{
    if note >= 0 {
        (note % 12) as usize
    } else {
        let m: i64 = -(note as i64);
        let r: i64 = m % 12;
        proof {
            let q = m / 12;
            assert(m == 12 * q + r);
            assert(note as int == 12 * (-q) - r);
        }
        if r == 0 {
            0
        } else {
            (12 - r) as usize
        }
    }
}

// ---------------------------------------------------------------------------
// Pitch
// ---------------------------------------------------------------------------
/// The shortest window that is searched for a pitch.
pub const MIN_PITCH_WINDOW: usize = 32;

/// Where the window that is searched for a pitch begins: it holds the newest
/// samples, at most `max_window` of them; none where there are too few.
pub fn pitch_window(len: usize, max_window: usize) -> (out: Option<usize>)
    ensures
        ({
            let n = if len < max_window {
                len
            } else {
                max_window
            };
            out == (if n < MIN_PITCH_WINDOW {
                None
            } else {
                Some((len - n) as usize)
            })
        }),
        out is Some <==> len >= 32 && max_window >= 32,
        out matches Some(start) ==> start <= len && len - start <= max_window && (start > 0 ==> len
            - start == max_window),
{
    let n: usize = if len < max_window {
        len
    } else {
        max_window
    };
    if n < MIN_PITCH_WINDOW {
        None
    } else {
        Some(len - n)
    }
}

/// The lags to search in a window of `n` samples, from the rounded lags of the
/// highest and the lowest pitch: from two samples up, within half the window;
/// none where too few lie between.
pub fn pitch_lags(highest: usize, lowest: usize, n: usize) -> (out: Option<(usize, usize)>)
    ensures
        ({
            let min_tau = if highest < 2 {
                2
            } else {
                highest as int
            };
            let max_tau = if lowest < n as int / 2 {
                lowest as int
            } else {
                n as int / 2
            };
            out == (if min_tau + 2 >= max_tau {
                None
            } else {
                Some((min_tau as usize, max_tau as usize))
            })
        }),
        out matches Some((a, b)) ==> 2 <= a && a + 2 < b && b <= n as int / 2,
        out matches Some((a, b)) ==> highest <= a && b <= lowest && (a == 2 || a == highest) && (b
            == lowest || b == n as int / 2),
        out is None ==> lowest <= highest + 2 || lowest <= 4 || n as int / 2 <= highest + 2 || n
            as int / 2 <= 4,
{
    let min_tau: usize = if highest < 2 {
        2
    } else {
        highest
    };
    let max_tau: usize = if lowest < n / 2 {
        lowest
    } else {
        n / 2
    };
    if min_tau >= max_tau || max_tau - min_tau <= 2 {
        None
    } else {
        Some((min_tau, max_tau))
    }
}

/// The curve has a positive peak at lag `t`: it rises to it and does not rise
/// behind it.
pub open spec fn is_peak(curve: Seq<Level>, t: int) -> bool {
    &&& curve[t - 1].less(curve[t])
    &&& curve[t + 1].at_most(curve[t])
    &&& Level::spec_zero().less(curve[t])
}

/// The peaks of interest of a pitch curve: the highest one, the first of
/// several, and the first strong one; a lag of zero stands for none.
pub struct PeakScan {
    pub best_tau: usize,
    pub best_peak: Level,
    pub first_strong_tau: usize,
    pub first_strong_peak: Level,
}

/// `scan` names the highest peak at the lags from `lo` up to `hi`.
pub open spec fn is_highest_peak(curve: Seq<Level>, lo: int, hi: int, scan: PeakScan) -> bool {
    if scan.best_tau == 0 {
        scan.best_peak == Level::spec_zero() && forall|t: int|
            lo <= t < hi ==> !#[trigger] is_peak(curve, t)
    } else {
        &&& lo <= scan.best_tau < hi
        &&& is_peak(curve, scan.best_tau as int)
        &&& scan.best_peak == curve[scan.best_tau as int]
        &&& forall|t: int|
            lo <= t < hi && #[trigger] is_peak(curve, t) ==> curve[t].at_most(
                curve[scan.best_tau as int],
            ) && (t < scan.best_tau ==> curve[t].less(curve[scan.best_tau as int]))
    }
}

/// `scan` names the first peak, at the lags from `lo` up to `hi`, that is at
/// least `strong`.
pub open spec fn is_first_strong_peak(
    curve: Seq<Level>,
    lo: int,
    hi: int,
    strong: Level,
    scan: PeakScan,
) -> bool {
    if scan.first_strong_tau == 0 {
        scan.first_strong_peak == Level::spec_zero() && forall|t: int|
            lo <= t < hi && #[trigger] is_peak(curve, t) ==> !strong.at_most(curve[t])
    } else {
        &&& lo <= scan.first_strong_tau < hi
        &&& is_peak(curve, scan.first_strong_tau as int)
        &&& strong.at_most(curve[scan.first_strong_tau as int])
        &&& scan.first_strong_peak == curve[scan.first_strong_tau as int]
        &&& forall|t: int|
            lo <= t < scan.first_strong_tau && #[trigger] is_peak(curve, t) ==> !strong.at_most(
                curve[t],
            )
    }
}

/// Scans a pitch curve for its peaks at the lags from `min_tau` up to
/// `max_tau`.
pub fn nsdf_peak_pick(
    nsdf: &[Level],
    min_tau: usize,
    max_tau: usize,
    strong: Level,
) -> (out: PeakScan)
    requires
        1 <= min_tau <= max_tau < nsdf@.len(),
    ensures
        is_highest_peak(nsdf@, min_tau as int, max_tau as int, out),
        is_first_strong_peak(nsdf@, min_tau as int, max_tau as int, strong, out),
{
    let zero = Level::zero();
    let mut scan = PeakScan {
        best_tau: 0,
        best_peak: zero,
        first_strong_tau: 0,
        first_strong_peak: zero,
    };
    let mut t: usize = min_tau;
    while t < max_tau
        invariant
            1 <= min_tau <= t <= max_tau < nsdf@.len(),
            zero == Level::spec_zero(),
            is_highest_peak(nsdf@, min_tau as int, t as int, scan),
            is_first_strong_peak(nsdf@, min_tau as int, t as int, strong, scan),
        decreases max_tau - t,
    {
        let here = nsdf[t];
        if nsdf[t - 1].is_less(here) && nsdf[t + 1].is_at_most(here) && zero.is_less(here) {
            assert(is_peak(nsdf@, t as int));
            if scan.best_peak.is_less(here) {
                scan.best_peak = here;
                scan.best_tau = t;
            }
            if scan.first_strong_tau == 0 && strong.is_at_most(here) {
                scan.first_strong_tau = t;
                scan.first_strong_peak = here;
            }
        } else {
            assert(!is_peak(nsdf@, t as int));
        }
        t += 1;
    }
    scan
}

/// The lag of the fundamental: the first strong peak where there is one and it
/// is `close` enough to the highest one, and else the highest one.
pub fn chosen_tau(scan: &PeakScan, close: bool) -> (tau: usize)
    ensures
        tau == (if scan.first_strong_tau != 0 && close {
            scan.first_strong_tau
        } else {
            scan.best_tau
        }),
{
    if scan.first_strong_tau != 0 && close {
        scan.first_strong_tau
    } else {
        scan.best_tau
    }
}

// ---------------------------------------------------------------------------
// Laws
// ---------------------------------------------------------------------------
/// The distance of roots is a distance on the circle of twelve: never more than
/// six steps, none only between equal roots, and the same both ways.
pub proof fn law_root_distance(a: int, b: int)
    requires
        0 <= a < 12,
        0 <= b < 12,
    ensures
        0 <= root_distance(a, b) <= 6,
        root_distance(a, b) == 0 <==> a == b,
        root_distance(a, b) == root_distance(b, a),
{
}

/// No way round over a third root is shorter.
pub proof fn law_root_distance_triangle(a: int, b: int, c: int)
    requires
        0 <= a < 12,
        0 <= b < 12,
        0 <= c < 12,
    ensures
        root_distance(a, c) <= root_distance(a, b) + root_distance(b, c),
{
}

/// Where there is a strong peak, the first strong one stands no later than the
/// highest one: preferring it never doubles the period.
pub proof fn law_first_strong_peak_comes_first(
    curve: Seq<Level>,
    lo: int,
    hi: int,
    strong: Level,
    scan: PeakScan,
)
    requires
        1 <= lo <= hi,
        is_highest_peak(curve, lo, hi, scan),
        is_first_strong_peak(curve, lo, hi, strong, scan),
        scan.first_strong_tau != 0,
    ensures
        scan.best_tau != 0,
        scan.first_strong_tau <= scan.best_tau,
{
    let f = scan.first_strong_tau as int;
    assert(is_peak(curve, f));
    if scan.best_tau < f {
        assert(is_peak(curve, scan.best_tau as int));
        assert(curve[f].at_most(curve[scan.best_tau as int]));
    }
}

/// The distance of roots is the number of steps up or down that lead from the one
/// to the other round the circle of twelve, whichever is fewer.
pub proof fn law_root_distance_leads_from_one_to_the_other(a: int, b: int, steps: int)
    requires
        0 <= a < 12,
        0 <= b < 12,
        0 <= steps <= 6,
    ensures
        root_distance(a, b) == steps <==> (a + steps) % 12 == b || (b + steps) % 12 == a,
{
}

/// The winning key is the first of those with the highest score, with that score;
/// where no key has a score above the lowest, which is negative infinity, there is
/// no winner and the first key stands for it.
pub proof fn law_winning_key(c: KeyChoice, scores: Seq<Level>, j: int)
    requires
        c.is_best_of(scores),
        0 <= j < scores.len(),
    ensures
        c.state matches Some(i) ==> {
            &&& i < scores.len()
            &&& c.number() == i
            &&& c.best == scores[i as int]
            &&& Level::with_bits(0xff80_0000).less(c.best)
            &&& (Level::with_bits(0xff80_0000).less(scores[j]) ==> scores[j].at_most(c.best))
            &&& (c.best.at_most(scores[j]) ==> i <= j)
        },
        c.state is None ==> c.number() == 0 && c.best.bits == 0xff80_0000 && !Level::with_bits(
            0xff80_0000,
        ).less(scores[j]),
{
    match c.state {
        Some(i) => {
            select::law_best_is_the_first_of_the_highest(scores, lowest(), i as int, j);
        },
        None => {},
    }
}

/// No key but the winner exceeds the runner-up's score, which is that of such a key
/// where one has a score, and else negative infinity.
pub proof fn law_second_key(c: KeyChoice, scores: Seq<Level>, j: int)
    requires
        c.is_best_of(scores),
        0 <= j < scores.len(),
        j <= usize::MAX,
        c.state != Some(j as usize),
    ensures
        Level::with_bits(0xff80_0000).less(scores[j]) ==> scores[j].at_most(c.second) && exists|
            k: int,
        |
            0 <= k < scores.len() && c.state != Some(k as usize) && #[trigger] scores[k]
                == c.second,
        c.second.bits == 0xff80_0000 || Level::with_bits(0xff80_0000).less(c.second),
{
    if Level::with_bits(0xff80_0000).less(scores[j]) {
        select::law_runner_up_comes_second(scores, lowest(), c.state, c.second, j);
    }
}

/// A peak lies above the lag before it and above zero, and not below the lag behind
/// it.
pub proof fn law_peak_rises_and_does_not_go_on_rising(curve: Seq<Level>, t: int)
    ensures
        is_peak(curve, t) <==> curve[t - 1].less(curve[t]) && curve[t + 1].at_most(curve[t])
            && Level::with_bits(0).less(curve[t]),
{
}

/// The highest peak is a peak of the searched lags, no other is higher, and none
/// before it as high; where there is no peak, its lag is zero.
pub proof fn law_highest_peak(curve: Seq<Level>, lo: int, hi: int, scan: PeakScan, t: int)
    requires
        1 <= lo,
        is_highest_peak(curve, lo, hi, scan),
        lo <= t < hi,
        is_peak(curve, t),
    ensures
        lo <= scan.best_tau < hi,
        is_peak(curve, scan.best_tau as int),
        scan.best_peak == curve[scan.best_tau as int],
        curve[t].at_most(scan.best_peak),
        scan.best_peak.at_most(curve[t]) ==> scan.best_tau <= t,
{
}

/// The first strong peak is a peak of the searched lags that is strong enough, and
/// none before it is; where there is none, its lag is zero.
pub proof fn law_first_strong_peak(
    curve: Seq<Level>,
    lo: int,
    hi: int,
    strong: Level,
    scan: PeakScan,
    t: int,
)
    requires
        1 <= lo,
        is_first_strong_peak(curve, lo, hi, strong, scan),
        lo <= t < hi,
        is_peak(curve, t),
        strong.at_most(curve[t]),
    ensures
        lo <= scan.first_strong_tau <= t,
        is_peak(curve, scan.first_strong_tau as int),
        scan.first_strong_peak == curve[scan.first_strong_tau as int],
        strong.at_most(scan.first_strong_peak),
{
}

/// Without a peak that qualifies, nothing is named: the lag and the height are zero.
pub proof fn law_no_peak_is_named_without_one(
    curve: Seq<Level>,
    lo: int,
    hi: int,
    strong: Level,
    scan: PeakScan,
)
    requires
        1 <= lo,
        is_highest_peak(curve, lo, hi, scan),
        is_first_strong_peak(curve, lo, hi, strong, scan),
    ensures
        (forall|t: int| lo <= t < hi ==> !#[trigger] is_peak(curve, t)) ==> scan.best_tau == 0
            && scan.best_peak.bits == 0,
        (forall|t: int| lo <= t < hi && #[trigger] is_peak(curve, t) ==> !strong.at_most(curve[t]))
            ==> scan.first_strong_tau == 0 && scan.first_strong_peak.bits == 0,
{
}

/// The number of the winning key tells its root and its mode: keys scored mode by mode
/// are numbered by root and then from twelve on for the minor ones, and keys scored
/// root by root have their major and their minor number next to each other.
pub proof fn law_key_of_a_number(by_mode: &[Level], by_root: &[Level], a: KeyChoice, b: KeyChoice)
    requires
        by_mode@.len() == 24,
        by_root@.len() == 24,
        call_ensures(estimate_from_state_scores, (by_mode,), a),
        call_ensures(estimate_from_profiles, (by_root,), b),
    ensures
        a.root < 12,
        b.root < 12,
        a.state matches Some(i) ==> i == a.root + (if a.is_minor {
            12int
        } else {
            0
        }),
        b.state matches Some(i) ==> i == 2 * b.root + (if b.is_minor {
            1int
        } else {
            0
        }),
        a.state is None ==> a.root == 0 && !a.is_minor,
        b.state is None ==> b.root == 0 && !b.is_minor,
        a.is_best_of(by_mode@),
        b.is_best_of(by_root@),
{
}

/// Two keys lie as far apart one way as the other, and the mode changes exactly where
/// one is major and the other minor.
pub proof fn law_steps_between_keys(
    from: usize,
    to: usize,
    there: (usize, bool),
    back: (usize, bool),
)
    requires
        from < 24,
        to < 24,
        call_ensures(transition_steps, (from, to), there),
        call_ensures(transition_steps, (to, from), back),
    ensures
        there == back,
        there.0 <= 6,
        there.0 == 0 <==> from == to || from == to + 12 || to == from + 12,
        there.1 <==> (from < 12) != (to < 12),
{
}

/// A note's pitch class comes round after twelve notes and rises with the note in
/// between; the classes are counted from note zero.
pub proof fn law_pitch_classes_come_round(note: i32, a: usize, b: usize, c: usize)
    requires
        note <= i32::MAX - 12,
        call_ensures(pitch_class, (note,), a),
        call_ensures(pitch_class, ((note + 1) as i32,), b),
        call_ensures(pitch_class, ((note + 12) as i32,), c),
    ensures
        a < 12,
        a == c,
        a < 11 ==> b == a + 1,
        a == 11 ==> b == 0,
        0 <= note < 12 ==> a == note,
{
}

/// The searched window is as long as allowed and as there are samples, ends with the
/// newest sample, and is not searched where it is shorter than 32 samples.
pub proof fn law_searched_window(len: usize, max_window: usize, out: Option<usize>)
    requires
        call_ensures(pitch_window, (len, max_window), out),
    ensures
        len < 32 || max_window < 32 ==> out is None,
        32 <= len <= max_window ==> out == Some(0usize),
        32 <= max_window < len ==> (out matches Some(start) && start + max_window == len),
{
}

/// The searched lags reach from that of the highest pitch, or two, to that of the
/// lowest pitch or half of the window, whichever is less; they are searched only where
/// more than two lie between.
pub proof fn law_searched_pitch_lags(
    highest: usize,
    lowest: usize,
    n: usize,
    out: Option<(usize, usize)>,
)
    requires
        call_ensures(pitch_lags, (highest, lowest, n), out),
    ensures
        out matches Some((a, b)) ==> {
            &&& (highest >= 2 ==> a == highest)
            &&& (highest < 2 ==> a == 2)
            &&& b <= lowest && 2 * b <= n && (b == lowest || n < 2 * (b + 1))
            &&& b > a + 2
        },
        out is None <==> {
            ||| lowest <= highest + 2
            ||| lowest <= 4
            ||| n < 2 * (highest + 3)
            ||| n < 10
        },
{
}

/// The fundamental is the first strong peak where there is one that is close, and the
/// highest one otherwise.
pub proof fn law_fundamental(scan: &PeakScan, close: bool, tau: usize)
    requires
        call_ensures(chosen_tau, (scan, close), tau),
    ensures
        tau == scan.first_strong_tau || tau == scan.best_tau,
        scan.first_strong_tau > 0 && close ==> tau == scan.first_strong_tau,
        scan.first_strong_tau == 0 || !close ==> tau == scan.best_tau,
{
}

} // verus!
