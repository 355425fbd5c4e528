//! Order statistics of levels: the value that a sorted slice would hold at a
//! given place, found by partial selection.

use crate::level::Level;
use vstd::prelude::*;

verus! {

/// How many levels of `s` satisfy `p`.
pub open spec fn tally(s: Seq<Level>, p: spec_fn(Level) -> bool) -> nat
    decreases s.len(),
{
    if s.len() == 0 {
        0
    } else {
        tally(s.drop_last(), p) + (if p(s.last()) {
            1nat
        } else {
            0
        })
    }
}

/// How many levels of `s` rank below `r`.
pub open spec fn below(s: Seq<Level>, r: int) -> nat {
    tally(s, |x: Level| x.rank() < r)
}

/// How many levels of `s` rank at `r` or below.
pub open spec fn not_above(s: Seq<Level>, r: int) -> nat {
    tally(s, |x: Level| x.rank() <= r)
}

/// `x` is what `s` holds at index `n` once it is sorted by rank.
pub open spec fn is_nth(s: Seq<Level>, n: int, x: Level) -> bool {
    s.contains(x) && below(s, x.rank()) <= n < not_above(s, x.rank())
}

/// A change of one level changes the tally by that level alone.
proof fn lemma_tally_update(s: Seq<Level>, i: int, x: Level, p: spec_fn(Level) -> bool)
    requires
        0 <= i < s.len(),
    ensures
        tally(s.update(i, x), p) + (if p(s[i]) {
            1nat
        } else {
            0
        }) == tally(s, p) + (if p(x) {
            1nat
        } else {
            0
        }),
    decreases s.len(),
{
    let t = s.update(i, x);
    if i == s.len() - 1 {
        assert(t.drop_last() =~= s.drop_last());
    } else {
        assert(t.drop_last() =~= s.drop_last().update(i, x));
        lemma_tally_update(s.drop_last(), i, x, p);
    }
}

/// `s` with two of its levels exchanged.
pub open spec fn swapped(s: Seq<Level>, i: int, j: int) -> Seq<Level> {
    s.update(i, s[j]).update(j, s[i])
}

/// An exchange changes no tally.
proof fn lemma_tally_swap(s: Seq<Level>, i: int, j: int, p: spec_fn(Level) -> bool)
    requires
        0 <= i < s.len(),
        0 <= j < s.len(),
    ensures
        tally(swapped(s, i, j), p) == tally(s, p),
{
    lemma_tally_update(s, i, s[j], p);
    lemma_tally_update(s.update(i, s[j]), j, s[i], p);
}

/// A tally counts no more than the levels of a prefix that holds all that
/// satisfy `p`, and no less than those of a prefix that satisfies `p`.
proof fn lemma_tally_prefix(s: Seq<Level>, n: int, p: spec_fn(Level) -> bool)
    requires
        0 <= n <= s.len(),
    ensures
        (forall|i: int| n <= i < s.len() ==> !p(#[trigger] s[i])) ==> tally(s, p) <= n,
        (forall|i: int| 0 <= i < n ==> p(#[trigger] s[i])) ==> tally(s, p) >= n,
    decreases s.len(),
{
    if s.len() > 0 {
        let t = s.drop_last();
        if n == s.len() {
            lemma_tally_prefix(t, n - 1, p);
            lemma_tally_len(t, p);
            if forall|i: int| 0 <= i < n ==> p(#[trigger] s[i]) {
                assert forall|i: int| 0 <= i < n - 1 implies p(#[trigger] t[i]) by {
                    assert(t[i] == s[i]);
                }
                assert(p(s[n - 1]));
            }
        } else {
            lemma_tally_prefix(t, n, p);
            if forall|i: int| n <= i < s.len() ==> !p(#[trigger] s[i]) {
                assert forall|i: int| n <= i < t.len() implies !p(#[trigger] t[i]) by {
                    assert(t[i] == s[i]);
                }
                assert(!p(s[s.len() - 1]));
            }
            if forall|i: int| 0 <= i < n ==> p(#[trigger] s[i]) {
                assert forall|i: int| 0 <= i < n implies p(#[trigger] t[i]) by {
                    assert(t[i] == s[i]);
                }
            }
        }
    }
}

/// A tally counts no more levels than there are.
proof fn lemma_tally_len(s: Seq<Level>, p: spec_fn(Level) -> bool)
    ensures
        tally(s, p) <= s.len(),
    decreases s.len(),
{
    if s.len() > 0 {
        lemma_tally_len(s.drop_last(), p);
    }
}

/// `t` is a rearrangement of `s`: every tally agrees.
pub open spec fn rearranged(s: Seq<Level>, t: Seq<Level>) -> bool {
    s.len() == t.len() && forall|p: spec_fn(Level) -> bool| #[trigger] tally(t, p) == tally(s, p)
}

/// A level that stands at index `n` with none above it to its left and none
/// below it to its right is the `n`-th of every arrangement.
proof fn lemma_nth(s: Seq<Level>, t: Seq<Level>, n: int)
    requires
        rearranged(s, t),
        0 <= n < t.len(),
        forall|i: int| 0 <= i < n ==> (#[trigger] t[i]).rank() <= t[n].rank(),
        forall|i: int| n < i < t.len() ==> (#[trigger] t[i]).rank() >= t[n].rank(),
    ensures
        is_nth(s, n, t[n]),
{
    let r = t[n].rank();
    lemma_tally_prefix(t, n, |x: Level| x.rank() < r);
    lemma_tally_prefix(t, n + 1, |x: Level| x.rank() <= r);
    assert(tally(t, |x: Level| x.rank() < r) == tally(s, |x: Level| x.rank() < r));
    assert(tally(t, |x: Level| x.rank() <= r) == tally(s, |x: Level| x.rank() <= r));
    let same = |x: Level| x == t[n];
    assert(tally(t, same) == tally(s, same));
    lemma_tally_member(t, n, same);
    lemma_tally_witness(s, same);
}

/// A level that satisfies `p` is counted.
proof fn lemma_tally_member(s: Seq<Level>, i: int, p: spec_fn(Level) -> bool)
    requires
        0 <= i < s.len(),
        p(s[i]),
    ensures
        tally(s, p) > 0,
    decreases s.len(),
{
    if i < s.len() - 1 {
        assert(s.drop_last()[i] == s[i]);
        lemma_tally_member(s.drop_last(), i, p);
    }
}

/// What is counted is there.
proof fn lemma_tally_witness(s: Seq<Level>, p: spec_fn(Level) -> bool)
    requires
        tally(s, p) > 0,
    ensures
        exists|i: int| 0 <= i < s.len() && p(#[trigger] s[i]),
    decreases s.len(),
{
    if s.len() > 0 {
        if p(s.last()) {
            assert(p(s[s.len() - 1]));
        } else {
            lemma_tally_witness(s.drop_last(), p);
            let i = choose|i: int| 0 <= i < s.drop_last().len() && p(#[trigger] s.drop_last()[i]);
            assert(s[i] == s.drop_last()[i]);
        }
    }
}

/// No level of `s` from index `lo` up to `hi` ranks below `b`.
spec fn none_below(s: Seq<Level>, lo: int, hi: int, b: int) -> bool {
    forall|k: int| lo <= k < hi ==> b <= (#[trigger] s[k]).rank()
}

/// No level of `s` from index `lo` up to `hi` ranks above `b`.
spec fn none_above(s: Seq<Level>, lo: int, hi: int, b: int) -> bool {
    forall|k: int| lo <= k < hi ==> (#[trigger] s[k]).rank() <= b
}

fn exchange(v: &mut Vec<Level>, i: usize, j: usize)
    requires
        i < old(v)@.len(),
        j < old(v)@.len(),
    ensures
        final(v)@ == swapped(old(v)@, i as int, j as int),
        rearranged(old(v)@, final(v)@),
{
    let ghost s = v@;
    let a = v[i];
    let b = v[j];
    v.set(i, b);
    v.set(j, a);
    proof {
        assert(v@ =~= swapped(s, i as int, j as int));
        assert forall|p: spec_fn(Level) -> bool| #[trigger] tally(v@, p) == tally(s, p) by {
            lemma_tally_swap(s, i as int, j as int, p);
        }
    }
}

/// Rearranges `v[lo..hi]` around its last level: the returned index holds that
/// level, with none above it before and none below it behind.
fn partition(v: &mut Vec<Level>, lo: usize, hi: usize) -> (mid: usize)
    requires
        lo < hi <= old(v)@.len(),
    ensures
        rearranged(old(v)@, final(v)@),
        lo <= mid < hi,
        forall|k: int| 0 <= k < lo ==> #[trigger] final(v)@[k] == old(v)@[k],
        forall|k: int| hi <= k < old(v)@.len() ==> #[trigger] final(v)@[k] == old(v)@[k],
        forall|k: int| lo <= k < mid ==> (#[trigger] final(v)@[k]).rank() <= final(v)@[mid as int].rank(),
        forall|k: int| mid < k < hi ==> (#[trigger] final(v)@[k]).rank() >= final(v)@[mid as int].rank(),
        forall|b: int| #[trigger]
            none_below(old(v)@, lo as int, hi as int, b) ==> none_below(
                final(v)@,
                lo as int,
                hi as int,
                b,
            ),
        forall|b: int| #[trigger]
            none_above(old(v)@, lo as int, hi as int, b) ==> none_above(
                final(v)@,
                lo as int,
                hi as int,
                b,
            ),
{
    let pivot = v[hi - 1];
    let pivot_rank: i64 = pivot.rank_number();
    let mut store: usize = lo;
    let mut i: usize = lo;
    let ghost s = v@;
    while i < hi - 1
        invariant
            rearranged(s, v@),
            lo <= store <= i <= hi - 1,
            hi <= s.len(),
            pivot_rank == pivot.rank(),
            v@[hi - 1] == pivot,
            forall|k: int| 0 <= k < lo ==> #[trigger] v@[k] == s[k],
            forall|k: int| hi <= k < s.len() ==> #[trigger] v@[k] == s[k],
            forall|k: int| lo <= k < store ==> (#[trigger] v@[k]).rank() < pivot.rank(),
            forall|k: int| store <= k < i ==> (#[trigger] v@[k]).rank() >= pivot.rank(),
            forall|b: int| #[trigger]
                none_below(s, lo as int, hi as int, b) ==> none_below(
                    v@,
                    lo as int,
                    hi as int,
                    b,
                ),
            forall|b: int| #[trigger]
                none_above(s, lo as int, hi as int, b) ==> none_above(
                    v@,
                    lo as int,
                    hi as int,
                    b,
                ),
        decreases hi - i,
    {
        if v[i].rank_number() < pivot_rank {
            exchange(v, i, store);
            store += 1;
        }
        i += 1;
    }
    exchange(v, store, hi - 1);
    store
}

/// The level that `values` would hold at index `n` if it were sorted by rank.
pub fn nth(values: &[Level], n: usize) -> (out: Level)
    requires
        n < values@.len(),
    ensures
        is_nth(values@, n as int, out),
{
    let mut v: Vec<Level> = vstd::slice::slice_to_vec(values);
    let mut lo: usize = 0;
    let mut hi: usize = v.len();
    while hi - lo > 1
        invariant
            rearranged(values@, v@),
            lo <= n < hi <= v@.len(),
            forall|a: int, b: int| 0 <= a < lo <= b < v@.len() ==> (#[trigger] v@[a]).rank() <= (
            #[trigger] v@[b]).rank(),
            forall|a: int, b: int| 0 <= a < hi <= b < v@.len() ==> (#[trigger] v@[a]).rank() <= (
            #[trigger] v@[b]).rank(),
        decreases hi - lo,
    {
        let ghost before = v@;
        let mid = partition(&mut v, lo, hi);
        proof {
            assert forall|a: int, b: int| 0 <= a < lo <= b < v@.len() implies (
            #[trigger] v@[a]).rank() <= (#[trigger] v@[b]).rank() by {
                assert(none_below(before, lo as int, hi as int, before[a].rank()));
                assert(none_below(v@, lo as int, hi as int, before[a].rank()));
            }
            assert forall|a: int, b: int| 0 <= a < hi <= b < v@.len() implies (
            #[trigger] v@[a]).rank() <= (#[trigger] v@[b]).rank() by {
                assert(none_above(before, lo as int, hi as int, before[b].rank()));
                assert(none_above(v@, lo as int, hi as int, before[b].rank()));
            }
        }
        if mid == n {
            proof {
                lemma_nth(values@, v@, n as int);
            }
            return v[n];
        }
        if mid < n {
            lo = mid + 1;
        } else {
            hi = mid;
        }
    }
    proof {
        lemma_nth(values@, v@, n as int);
    }
    v[n]
}

/// The middle level of `values`, the upper one of two, or zero where there is
/// none.
pub open spec fn is_median(s: Seq<Level>, x: Level) -> bool {
    if s.len() == 0 {
        x == Level::spec_zero()
    } else {
        is_nth(s, s.len() as int / 2, x)
    }
}

/// The middle level of `values`, the upper one of two, or zero where there is
/// none.
pub fn median(values: &[Level]) -> (out: Level)
    ensures
        is_median(values@, out),
{
    if values.len() == 0 {
        return Level::zero();
    }
    nth(values, values.len() / 2)
}

/// The two neighbouring order statistics that a percentile lies between: those
/// at the indices `lo` and `hi` of the sorted levels.
pub fn bracket(values: &[Level], lo: usize, hi: usize) -> (out: (Level, Level))
    requires
        lo < values@.len(),
        hi < values@.len(),
    ensures
        is_nth(values@, lo as int, out.0),
        is_nth(values@, hi as int, out.1),
{
    (nth(values, lo), nth(values, hi))
}

// ---------------------------------------------------------------------------
// Laws
// ---------------------------------------------------------------------------
/// A larger bound counts no less.
proof fn lemma_tally_monotone(
    s: Seq<Level>,
    p: spec_fn(Level) -> bool,
    q: spec_fn(Level) -> bool,
)
    requires
        forall|x: Level| #[trigger] p(x) ==> q(x),
    ensures
        tally(s, p) <= tally(s, q),
    decreases s.len(),
{
    if s.len() > 0 {
        lemma_tally_monotone(s.drop_last(), p, q);
    }
}

/// The level at a place of the sorted order is one and only one.
pub proof fn law_nth_is_unique(s: Seq<Level>, n: int, x: Level, y: Level)
    requires
        is_nth(s, n, x),
        is_nth(s, n, y),
    ensures
        x == y,
{
    if x.rank() < y.rank() {
        let a = |v: Level| v.rank() <= x.rank();
        let b = |v: Level| v.rank() < y.rank();
        lemma_tally_monotone(s, a, b);
    } else if y.rank() < x.rank() {
        let a = |v: Level| v.rank() <= y.rank();
        let b = |v: Level| v.rank() < x.rank();
        lemma_tally_monotone(s, a, b);
    } else {
        crate::level::law_rank_is_injective(x, y);
    }
}

/// The order of the levels makes no difference: rearranged levels have the same
/// level at each place of the sorted order.
pub proof fn law_nth_ignores_order(s: Seq<Level>, t: Seq<Level>, n: int, x: Level)
    requires
        rearranged(s, t),
        is_nth(s, n, x),
    ensures
        is_nth(t, n, x),
{
    let r = x.rank();
    assert(tally(t, |v: Level| v.rank() < r) == tally(s, |v: Level| v.rank() < r));
    assert(tally(t, |v: Level| v.rank() <= r) == tally(s, |v: Level| v.rank() <= r));
    let same = |v: Level| v == x;
    let i = choose|i: int| 0 <= i < s.len() && s[i] == x;
    lemma_tally_member(s, i, same);
    assert(tally(t, same) == tally(s, same));
    lemma_tally_witness(t, same);
}

/// In a slice that is sorted by rank, each place holds its own order statistic.
pub proof fn law_nth_of_sorted(s: Seq<Level>, n: int)
    requires
        0 <= n < s.len(),
        forall|i: int, j: int|
            0 <= i <= j < s.len() ==> (#[trigger] s[i]).rank() <= (#[trigger] s[j]).rank(),
    ensures
        is_nth(s, n, s[n]),
{
    lemma_nth(s, s, n);
}

/// What lies between two places of the sorted order is what sorting gives: the
/// levels found for the places `lo` and `hi` are those that any sorted
/// rearrangement holds there.
pub proof fn law_bracket_is_what_sorting_gives(
    s: Seq<Level>,
    sorted: Seq<Level>,
    lo: int,
    hi: int,
    a: Level,
    b: Level,
)
    requires
        rearranged(s, sorted),
        forall|i: int, j: int|
            0 <= i <= j < sorted.len() ==> (#[trigger] sorted[i]).rank() <= (
            #[trigger] sorted[j]).rank(),
        0 <= lo < sorted.len(),
        0 <= hi < sorted.len(),
        is_nth(s, lo, a),
        is_nth(s, hi, b),
    ensures
        a == sorted[lo],
        b == sorted[hi],
{
    law_nth_ignores_order(s, sorted, lo, a);
    law_nth_ignores_order(s, sorted, hi, b);
    law_nth_of_sorted(sorted, lo);
    law_nth_of_sorted(sorted, hi);
    law_nth_is_unique(sorted, lo, a, sorted[lo]);
    law_nth_is_unique(sorted, hi, b, sorted[hi]);
}

/// The level at a place of the sorted order is one of the levels, and the one that
/// every sorted rearrangement holds there.
pub proof fn law_nth_has_its_place(s: Seq<Level>, sorted: Seq<Level>, n: int, x: Level)
    requires
        rearranged(s, sorted),
        forall|i: int, j: int|
            0 <= i <= j < sorted.len() ==> (#[trigger] sorted[i]).rank() <= (
            #[trigger] sorted[j]).rank(),
        0 <= n < s.len(),
        is_nth(s, n, x),
    ensures
        s.contains(x),
        x == sorted[n],
{
    law_bracket_is_what_sorting_gives(s, sorted, n, n, x, x);
}

/// The median is what stands in the middle of the sorted levels, the upper one of
/// two where their number is even, and zero where there are none.
pub proof fn law_median_is_the_middle(s: Seq<Level>, sorted: Seq<Level>, x: Level)
    requires
        rearranged(s, sorted),
        forall|i: int, j: int|
            0 <= i <= j < sorted.len() ==> (#[trigger] sorted[i]).rank() <= (
            #[trigger] sorted[j]).rank(),
        is_median(s, x),
    ensures
        s.len() == 0 ==> x.bits == 0,
        s.len() % 2 == 1 ==> x == sorted[(s.len() - 1) / 2],
        s.len() > 0 && s.len() % 2 == 0 ==> x == sorted[s.len() as int / 2],
{
    if s.len() > 0 {
        law_nth_has_its_place(s, sorted, s.len() as int / 2, x);
    }
}

/// Every level of a rearrangement stands in it as often as before.
pub proof fn law_rearranged_levels_are_the_same(s: Seq<Level>, t: Seq<Level>)
    ensures
        s.to_multiset() == t.to_multiset() ==> rearranged(s, t),
        rearranged(s, t) ==> s.len() == t.len() && forall|x: Level|
            s.contains(x) ==> #[trigger] t.contains(x),
{
    if s.to_multiset() == t.to_multiset() {
        vstd::seq_lib::to_multiset_len(s);
        vstd::seq_lib::to_multiset_len(t);
        assert forall|p: spec_fn(Level) -> bool| #[trigger] tally(t, p) == tally(s, p) by {
            lemma_tally_of_multiset(s, t, p);
        }
    }
    if rearranged(s, t) {
        assert forall|x: Level| s.contains(x) implies #[trigger] t.contains(x) by {
            let same = |v: Level| v == x;
            let i = choose|i: int| 0 <= i < s.len() && s[i] == x;
            lemma_tally_member(s, i, same);
            assert(tally(t, same) == tally(s, same));
            lemma_tally_witness(t, same);
        }
    }
}

/// A level that is taken out counts for itself alone.
proof fn lemma_tally_remove(s: Seq<Level>, j: int, p: spec_fn(Level) -> bool)
    requires
        0 <= j < s.len(),
    ensures
        tally(s, p) == tally(s.remove(j), p) + (if p(s[j]) {
            1nat
        } else {
            0
        }),
    decreases s.len(),
{
    let t = s.remove(j);
    if j == s.len() - 1 {
        assert(t =~= s.drop_last());
    } else {
        lemma_tally_remove(s.drop_last(), j, p);
        assert(t.drop_last() =~= s.drop_last().remove(j));
        assert(t.last() == s.last());
    }
}

/// What is tallied does not depend on the order.
proof fn lemma_tally_of_multiset(s: Seq<Level>, t: Seq<Level>, p: spec_fn(Level) -> bool)
    requires
        s.to_multiset() == t.to_multiset(),
    ensures
        tally(t, p) == tally(s, p),
    decreases s.len(),
{
    vstd::seq_lib::to_multiset_len(s);
    vstd::seq_lib::to_multiset_len(t);
    if s.len() > 0 {
        let i = s.len() - 1;
        let x = s[i];
        vstd::seq_lib::to_multiset_contains(s, x);
        vstd::seq_lib::to_multiset_contains(t, x);
        assert(s.contains(x));
        assert(t.contains(x));
        let j = choose|j: int| 0 <= j < t.len() && t[j] == x;
        vstd::seq_lib::to_multiset_remove(s, i);
        vstd::seq_lib::to_multiset_remove(t, j);
        lemma_tally_of_multiset(s.remove(i), t.remove(j), p);
        lemma_tally_remove(s, i, p);
        lemma_tally_remove(t, j, p);
    }
}

} // verus!
