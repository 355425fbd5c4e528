//! Which recent frames the detectors of section changes and of build-ups look
//! at.

use crate::history::History;
use vstd::prelude::*;

verus! {

/// How many frames the detector of section changes remembers.
pub const HISTORY: usize = 48;

/// Half the number of frames that it compares.
pub const WINDOW: usize = 8;

/// The frames to compare: the last ones in order with the current one behind
/// them, twice `WINDOW` in all; none while too few are remembered.
pub fn checkerboard_frames<T: Copy>(history: &History<T>, current: T) -> (out: Option<Vec<T>>)
    requires
        history.wf(),
    ensures
        match out {
            Some(frames) => history@.len() + 1 >= WINDOW * 2 && frames@ == history@.skip(
                history@.len() - (WINDOW * 2 - 1),
            ).push(current),
            None => history@.len() + 1 < WINDOW * 2,
        },
        out is Some <==> history@.len() >= 15,
        out matches Some(frames) ==> frames@.len() == 16 && frames@[15] == current && forall|k: int|
            0 <= k < 15 ==> #[trigger] frames@[k] == history@[history@.len() - 15 + k],
{
    let held: usize = history.len();
    let needed: usize = WINDOW * 2 - 1;
    if held < needed {
        return None;
    }
    let mut frames: Vec<T> = Vec::new();
    let ghost last = history@.skip(history@.len() - needed);
    let mut i: usize = 0;
    while i < needed
        invariant
            history.wf(),
            held == history@.len(),
            needed <= held,
            last == history@.skip(history@.len() - needed),
            i <= needed,
            frames@ == last.take(i as int),
        decreases needed - i,
    {
        frames.push(*history.newest(needed - 1 - i));
        i += 1;
        assert(frames@ =~= last.take(i as int));
    }
    assert(last.take(i as int) =~= last);
    frames.push(current);
    Some(frames)
}

/// The newer and the older half of what is remembered, the newest first; none
/// while fewer than four frames are.
pub fn halves<T: Copy>(history: &History<T>) -> (out: Option<(Vec<T>, Vec<T>)>)
    requires
        history.wf(),
    ensures
        match out {
            Some((newer, older)) => {
                &&& history@.len() >= 4
                &&& newer@.len() == history@.len() / 2
                &&& older@.len() == history@.len() - history@.len() / 2
                &&& newer@ + older@ == history@.reverse()
            },
            None => history@.len() < 4,
        },
        out matches Some((newer, older)) ==> {
            &&& newer@.len() <= older@.len() <= newer@.len() + 1
            &&& newer@.len() + older@.len() == history@.len()
            &&& newer@[0] == history@.last()
            &&& older@.last() == history@[0]
            &&& forall|k: int|
                0 <= k < newer@.len() ==> #[trigger] newer@[k] == history@[history@.len() - 1 - k]
            &&& forall|k: int|
                0 <= k < older@.len() ==> #[trigger] older@[k] == history@[older@.len() - 1 - k]
        },
{
    let n: usize = history.len();
    if n < 4 {
        return None;
    }
    let half: usize = n / 2;
    let newer = history.recent(half);
    let mut older: Vec<T> = Vec::new();
    let mut i: usize = half;
    while i < n
        invariant
            history.wf(),
            n == history@.len(),
            half <= i <= n,
            older@.len() == i - half,
            forall|k: int|
                0 <= k < older@.len() ==> #[trigger] older@[k] == history@[n - 1 - (half + k)],
        decreases n - i,
    {
        older.push(*history.newest(i));
        i += 1;
    }
    assert(newer@ + older@ =~= history@.reverse());
    assert(newer@[0] == history@[n - 1]);
    assert(older@[older@.len() - 1] == history@[0]);
    Some((newer, older))
}

// ---------------------------------------------------------------------------
// Laws
// ---------------------------------------------------------------------------
/// Sixteen frames are compared, once that many are there: the current one, and before
/// it those that were recorded last, in their order.
pub proof fn law_compared_frames<T: Copy>(
    history: &History<T>,
    current: T,
    out: Option<Vec<T>>,
    back: int,
)
    requires
        history.wf(),
        call_ensures(checkerboard_frames::<T>, (history, current), out),
        1 <= back < 16,
    ensures
        out is Some <==> history@.len() >= 15,
        out matches Some(frames) ==> frames@.len() == 16 && frames@[15] == current && frames@[15
            - back] == history@[history@.len() - back],
{
}

/// What is remembered comes in two halves, the newest first, the older half the larger
/// one by no more than one, once four frames are there.
pub proof fn law_two_halves<T: Copy>(
    history: &History<T>,
    out: Option<(Vec<T>, Vec<T>)>,
    back: int,
)
    requires
        history.wf(),
        call_ensures(halves::<T>, (history,), out),
        0 <= back < history@.len(),
    ensures
        out is Some <==> history@.len() >= 4,
        out matches Some((newer, older)) ==> {
            &&& newer@.len() + older@.len() == history@.len()
            &&& newer@.len() <= older@.len() <= newer@.len() + 1
            &&& history@[history@.len() - 1 - back] == (if back < newer@.len() {
                newer@[back]
            } else {
                older@[back - newer@.len()]
            })
        },
{
}

} // verus!
