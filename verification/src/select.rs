//! Picking the best of several scored candidates.

use crate::level::Level;
use vstd::prelude::*;

verus! {

/// Candidate `i` is the best of those that score above `floor`: none scores
/// higher, and none before it scores as high. A score that is NaN is passed
/// over.
pub open spec fn is_best(scores: Seq<Level>, floor: Level, i: int) -> bool {
    &&& 0 <= i < scores.len()
    &&& floor.less(scores[i])
    &&& forall|j: int| 0 <= j < scores.len() ==> !scores[i].less(#[trigger] scores[j])
    &&& forall|j: int|
        0 <= j < i ==> !floor.less(#[trigger] scores[j]) || scores[j].less(scores[i])
}

/// No candidate scores above `floor`.
pub open spec fn none_beats(scores: Seq<Level>, floor: Level) -> bool {
    forall|j: int| 0 <= j < scores.len() ==> !floor.less(#[trigger] scores[j])
}

/// The best of the candidates that score above `floor`.
pub fn first_best(scores: &[Level], floor: Level) -> (out: Option<usize>)
    ensures
        match out {
            Some(i) => is_best(scores@, floor, i as int),
            None => none_beats(scores@, floor),
        },
{
    best_two(scores, floor).0
}

/// `second` is what the runner-up scores: `floor`, or the highest score of a
/// candidate other than the best, whichever is higher.
pub open spec fn is_runner_up(
    scores: Seq<Level>,
    floor: Level,
    best: Option<usize>,
    second: Level,
) -> bool {
    &&& second == floor || floor.less(second)
    &&& second == floor || exists|j: int|
        0 <= j < scores.len() && best != Some(j as usize) && #[trigger] scores[j] == second
    &&& forall|j: int|
        0 <= j < scores.len() && best != Some(j as usize) ==> !second.less(#[trigger] scores[j])
}

/// The best of the candidates that score above `floor`, and what the runner-up
/// scores.
pub fn best_two(scores: &[Level], floor: Level) -> (out: (Option<usize>, Level))
    ensures
        match out.0 {
            Some(i) => is_best(scores@, floor, i as int),
            None => none_beats(scores@, floor),
        },
        is_runner_up(scores@, floor, out.0, out.1),
{
    let mut best: Option<usize> = None;
    let mut top: Level = floor;
    let mut second: Level = floor;
    let ghost mut at: int = -1;
    let mut i: usize = 0;
    while i < scores.len()
        invariant
            i <= scores@.len(),
            top == (match best {
                Some(b) => scores@[b as int],
                None => floor,
            }),
            match best {
                Some(b) => is_best(scores@.take(i as int), floor, b as int),
                None => none_beats(scores@.take(i as int), floor),
            },
            second == floor || floor.less(second),
            top == floor || floor.less(top),
            !top.less(second),
            second == floor || (0 <= at < i && best != Some(at as usize) && scores@[at] == second),
            forall|j: int|
                0 <= j < i && best != Some(j as usize) ==> !second.less(#[trigger] scores@[j]),
        decreases scores@.len() - i,
    {
        let score = scores[i];
        let ghost seen = scores@.take(i as int);
        let ghost next = scores@.take(i + 1);
        assert(forall|j: int| 0 <= j < i ==> seen[j] == scores@[j] && next[j] == scores@[j]);
        assert(next[i as int] == score);
        if top.is_less(score) {
            proof {
                match best {
                    Some(b) => {
                        at = b as int;
                    },
                    None => {
                        at = -1;
                    },
                }
                assert forall|j: int| 0 <= j < i implies !top.less(#[trigger] scores@[j]) by {
                    assert(seen[j] == scores@[j]);
                }
            }
            second = top;
            top = score;
            best = Some(i);
            assert(is_best(next, floor, i as int)) by {
                assert forall|j: int| 0 <= j < next.len() implies !next[i as int].less(
                    #[trigger] next[j],
                ) by {
                    if j < i {
                        assert(seen[j] == next[j]);
                    }
                }
                assert forall|j: int| 0 <= j < i implies !floor.less(#[trigger] next[j])
                    || next[j].less(next[i as int]) by {
                    assert(seen[j] == next[j]);
                }
            }
        } else {
            if second.is_less(score) {
                proof {
                    at = i as int;
                }
                second = score;
            }
            proof {
                match best {
                    Some(b) => {
                        assert forall|j: int| 0 <= j < next.len() implies !next[b as int].less(
                            #[trigger] next[j],
                        ) by {
                            if j < i {
                                assert(seen[j] == next[j]);
                            }
                        }
                        assert forall|j: int| 0 <= j < b implies !floor.less(#[trigger] next[j])
                            || next[j].less(next[b as int]) by {
                            assert(seen[j] == next[j]);
                        }
                        assert(is_best(next, floor, b as int));
                    },
                    None => {
                        assert forall|j: int| 0 <= j < next.len() implies !floor.less(
                            #[trigger] next[j],
                        ) by {
                            if j < i {
                                assert(seen[j] == next[j]);
                            }
                        }
                    },
                }
            }
        }
        i += 1;
    }
    assert(scores@.take(i as int) =~= scores@);
    assert(second == floor || (0 <= at < scores@.len() && best != Some(at as usize) && scores@[at]
        == second));
    (best, second)
}

// ---------------------------------------------------------------------------
// Gates
// ---------------------------------------------------------------------------
/// The levels of `s` that are at least `gate`, in their order.
pub open spec fn at_least(s: Seq<Level>, gate: Level) -> Seq<Level> {
    s.filter(|x: Level| gate.at_most(x))
}

/// The levels of `s` that are above `gate`, in their order.
pub open spec fn above(s: Seq<Level>, gate: Level) -> Seq<Level> {
    s.filter(|x: Level| gate.less(x))
}

/// The levels that are at least `gate`, in their order.
pub fn keep_at_least(levels: &[Level], gate: Level) -> (out: Vec<Level>)
    ensures
        out@ == at_least(levels@, gate),
{
    let mut out: Vec<Level> = Vec::new();
    let mut i: usize = 0;
    while i < levels.len()
        invariant
            i <= levels@.len(),
            out@ == at_least(levels@.take(i as int), gate),
        decreases levels@.len() - i,
    {
        let x = levels[i];
        assert(levels@.take(i + 1).drop_last() =~= levels@.take(i as int));
        reveal(Seq::filter);
        if gate.is_at_most(x) {
            out.push(x);
        }
        i += 1;
    }
    assert(levels@.take(i as int) =~= levels@);
    out
}

/// The levels that are above `gate`, in their order.
pub fn keep_above(levels: &[Level], gate: Level) -> (out: Vec<Level>)
    ensures
        out@ == above(levels@, gate),
{
    let mut out: Vec<Level> = Vec::new();
    let mut i: usize = 0;
    while i < levels.len()
        invariant
            i <= levels@.len(),
            out@ == above(levels@.take(i as int), gate),
        decreases levels@.len() - i,
    {
        let x = levels[i];
        assert(levels@.take(i + 1).drop_last() =~= levels@.take(i as int));
        reveal(Seq::filter);
        if gate.is_less(x) {
            out.push(x);
        }
        i += 1;
    }
    assert(levels@.take(i as int) =~= levels@);
    out
}

/// How many of the first levels of `s` are below `limit`.
pub open spec fn leading_below(s: Seq<Level>, limit: Level) -> nat
    decreases s.len(),
{
    if s.len() > 0 && s[0].less(limit) {
        1 + leading_below(s.skip(1), limit)
    } else {
        0
    }
}

/// How many of the first levels are below `limit`.
pub fn count_leading_below(levels: &[Level], limit: Level) -> (n: usize)
    ensures
        n == leading_below(levels@, limit),
        n <= levels@.len(),
{
    let mut i: usize = 0;
    assert(levels@.skip(0) =~= levels@);
    while i < levels.len() && levels[i].is_less(limit)
        invariant
            i <= levels@.len(),
            leading_below(levels@, limit) == i + leading_below(levels@.skip(i as int), limit),
        decreases levels@.len() - i,
    {
        assert(levels@.skip(i as int).skip(1) =~= levels@.skip(i + 1));
        i += 1;
    }
    i
}

// ---------------------------------------------------------------------------
// Laws
// ---------------------------------------------------------------------------
/// There is only one best candidate.
pub proof fn law_best_is_unique(scores: Seq<Level>, floor: Level, a: int, b: int)
    requires
        is_best(scores, floor, a),
        is_best(scores, floor, b),
    ensures
        a == b,
{
    if a < b {
        assert(!floor.less(scores[a]) || scores[a].less(scores[b]));
        assert(!scores[a].less(scores[b]));
    } else if b < a {
        assert(!floor.less(scores[b]) || scores[b].less(scores[a]));
        assert(!scores[b].less(scores[a]));
    }
}

/// The best candidate scores above the floor, none scores higher, and of those that
/// score as high it is the first.
pub proof fn law_best_is_the_first_of_the_highest(
    scores: Seq<Level>,
    floor: Level,
    i: int,
    j: int,
)
    requires
        is_best(scores, floor, i),
        0 <= j < scores.len(),
    ensures
        0 <= i < scores.len(),
        floor.less(scores[i]),
        floor.less(scores[j]) ==> scores[j].at_most(scores[i]),
        floor.less(scores[j]) && scores[i].at_most(scores[j]) ==> i <= j,
{
    assert(!scores[i].less(scores[j]));
    if j < i {
        assert(!floor.less(scores[j]) || scores[j].less(scores[i]));
    }
}

/// A candidate that scores above the floor, as high as any and before all that score
/// as high, is the best; where one scores above the floor, there is a best one, and
/// only where none does there is none.
pub proof fn law_the_first_of_the_highest_is_best(scores: Seq<Level>, floor: Level, i: int)
    requires
        0 <= i < scores.len(),
        floor.less(scores[i]),
        forall|j: int|
            0 <= j < scores.len() && floor.less(#[trigger] scores[j]) ==> scores[j].at_most(
                scores[i],
            ),
        forall|j: int| 0 <= j < i && floor.less(#[trigger] scores[j]) ==> scores[j].less(scores[i]),
    ensures
        is_best(scores, floor, i),
        !none_beats(scores, floor),
{
    assert forall|j: int| 0 <= j < scores.len() implies !scores[i].less(#[trigger] scores[j]) by {
        if scores[i].less(scores[j]) {
            assert(floor.less(scores[j]));
        }
    }
}

/// Where no candidate scores above the floor, none is the best.
pub proof fn law_none_is_best_below_the_floor(scores: Seq<Level>, floor: Level, i: int)
    requires
        none_beats(scores, floor),
        0 <= i < scores.len(),
    ensures
        !floor.less(scores[i]),
        !is_best(scores, floor, i),
{
}

/// The runner-up's score is the floor or the score of another candidate than the
/// best, and no other candidate but the best exceeds it.
pub proof fn law_runner_up_comes_second(
    scores: Seq<Level>,
    floor: Level,
    best: Option<usize>,
    second: Level,
    j: int,
)
    requires
        is_runner_up(scores, floor, best, second),
        0 <= j < scores.len(),
        j <= usize::MAX,
        best != Some(j as usize),
        floor.less(scores[j]),
    ensures
        scores[j].at_most(second),
        floor.less(second),
        exists|k: int|
            0 <= k < scores.len() && best != Some(k as usize) && #[trigger] scores[k] == second,
{
    assert(!second.less(scores[j]));
}

/// Only the floor is left for the runner-up where no other candidate than the best
/// scores above it.
pub proof fn law_runner_up_of_none(
    scores: Seq<Level>,
    floor: Level,
    best: Option<usize>,
    second: Level,
)
    requires
        is_runner_up(scores, floor, best, second),
        forall|j: int|
            0 <= j < scores.len() && best != Some(j as usize) ==> !floor.less(#[trigger] scores[j]),
    ensures
        second == floor,
{
}

/// Levels are kept one by one and in order: each exactly where it is at least the
/// limit, or exactly where it is above it.
pub proof fn law_levels_are_kept_in_order(s: Seq<Level>, x: Level, gate: Level)
    ensures
        at_least(s.push(x), gate) == (if gate.at_most(x) {
            at_least(s, gate).push(x)
        } else {
            at_least(s, gate)
        }),
        above(s.push(x), gate) == (if gate.less(x) {
            above(s, gate).push(x)
        } else {
            above(s, gate)
        }),
        at_least(Seq::empty(), gate).len() == 0,
        above(Seq::empty(), gate).len() == 0,
{
    reveal(Seq::filter);
    assert(s.push(x).drop_last() =~= s);
    assert(s.push(x).last() == x);
}

/// The leading levels below a limit are counted up to the first that is not below
/// it.
pub proof fn law_leading_levels_are_below(s: Seq<Level>, limit: Level)
    ensures
        leading_below(s, limit) <= s.len(),
        forall|i: int| 0 <= i < leading_below(s, limit) ==> (#[trigger] s[i]).less(limit),
        leading_below(s, limit) < s.len() ==> !s[leading_below(s, limit) as int].less(limit),
    decreases s.len(),
{
    if s.len() > 0 && s[0].less(limit) {
        let t = s.skip(1);
        law_leading_levels_are_below(t, limit);
        let n = leading_below(t, limit);
        assert forall|i: int| 0 <= i < n + 1 implies (#[trigger] s[i]).less(limit) by {
            if i > 0 {
                assert(s[i] == t[i - 1]);
            }
        }
        if n < t.len() {
            assert(t[n as int] == s[n as int + 1]);
        }
    }
}

} // verus!
