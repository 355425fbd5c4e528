//! Cutting a stream of frames into hops and sliding the analysis window over
//! it.

use crate::level::{sanitize_pcm_sample, Level};
use crate::level;
use vstd::prelude::*;

verus! {

/// The length of the analysis window, in frames.
pub const FFT_LEN: usize = 2048;

/// The number of frames between two analyses.
pub const HOP: usize = 512;

// ---------------------------------------------------------------------------
// Hops
// ---------------------------------------------------------------------------
/// The whole hops of `s`, in order.
pub open spec fn hops_of<T>(s: Seq<T>) -> Seq<Seq<T>>
    decreases s.len(),
{
    if s.len() < HOP {
        Seq::empty()
    } else {
        seq![s.take(HOP as int)] + hops_of(s.skip(HOP as int))
    }
}

/// What is left of `s` behind its whole hops.
pub open spec fn rest_of<T>(s: Seq<T>) -> Seq<T>
    decreases s.len(),
{
    if s.len() < HOP {
        s
    } else {
        rest_of(s.skip(HOP as int))
    }
}

/// The sequences that a vector of hops holds.
pub open spec fn views<T>(v: Seq<Vec<T>>) -> Seq<Seq<T>> {
    v.map_values(|x: Vec<T>| x@)
}

/// What a pass stages: the leftover of the pass before, unless frames were lost
/// in between, then what came in; of too long a backlog, only the newest part.
pub open spec fn staged<T>(pending: Seq<T>, incoming: Seq<T>, gap: bool) -> Seq<T> {
    let s = (if gap {
        Seq::empty()
    } else {
        pending
    }) + incoming;
    if s.len() > FFT_LEN * 8 {
        s.skip(s.len() - FFT_LEN * 4)
    } else {
        s
    }
}

/// Takes the first `n` things out of `v`.
fn take_front<T>(v: &mut Vec<T>, n: usize) -> (out: Vec<T>)
    requires
        n <= old(v)@.len(),
    ensures
        out@ == old(v)@.take(n as int),
        final(v)@ == old(v)@.skip(n as int),
{
    let ghost s = v@;
    let mut tail = v.split_off(n);
    std::mem::swap(v, &mut tail);
    assert(tail@ =~= s.take(n as int));
    assert(v@ =~= s.skip(n as int));
    tail
}

/// Folds the frames of one pass into `pending` and takes every whole hop out.
/// Where the count of lost frames has changed since the last pass, the leftover
/// lies before the gap and is dropped first, so that no hop reaches across it.
/// Gives the hops and the count to carry into the next pass.
pub fn drain_pass<T: Copy>(
    pending: &mut Vec<T>,
    incoming: &[T],
    last_overruns: u64,
    now_overruns: u64,
) -> (out: (Vec<Vec<T>>, u64))
    ensures
        ({
            let s = staged(old(pending)@, incoming@, now_overruns != last_overruns);
            views(out.0@) == hops_of(s) && final(pending)@ == rest_of(s)
        }),
        out.1 == now_overruns,
{
    let ghost leftover = pending@;
    if now_overruns != last_overruns {
        pending.clear();
    }
    let ghost kept = pending@;
    let mut i: usize = 0;
    while i < incoming.len()
        invariant
            i <= incoming@.len(),
            pending@ == kept + incoming@.take(i as int),
        decreases incoming@.len() - i,
    {
        pending.push(incoming[i]);
        i += 1;
        assert(pending@ =~= kept + incoming@.take(i as int));
    }
    assert(incoming@.take(i as int) =~= incoming@);
    if pending.len() > FFT_LEN * 8 {
        let excess: usize = pending.len() - FFT_LEN * 4;
        let _ = take_front(pending, excess);
    }
    let ghost s = pending@;
    assert(s =~= staged(leftover, incoming@, now_overruns != last_overruns));
    let mut hops: Vec<Vec<T>> = Vec::new();
    assert(views(hops@) + hops_of(pending@) =~= hops_of(s));
    while pending.len() >= HOP
        invariant
            views(hops@) + hops_of(pending@) == hops_of(s),
            rest_of(pending@) == rest_of(s),
        decreases pending@.len(),
    {
        let ghost done = hops@;
        let ghost before = pending@;
        let hop = take_front(pending, HOP);
        hops.push(hop);
        assert(views(hops@) =~= views(done).push(hop@));
        assert(views(hops@) + hops_of(pending@) =~= views(done) + hops_of(before));
    }
    assert(views(hops@) + hops_of(pending@) =~= views(hops@));
    (hops, now_overruns)
}

// ---------------------------------------------------------------------------
// The sliding window
// ---------------------------------------------------------------------------
/// Frames on their way into the analysis: those that wait for a whole hop, and
/// the window of the last analysis.
pub struct HopStager<T> {
    window: Vec<T>,
    pending: Vec<T>,
    hops_processed: u64,
}

/// `window` slid over `hop`.
pub open spec fn slid<T>(window: Seq<T>, hop: Seq<T>) -> Seq<T> {
    (window + hop).skip(hop.len() as int)
}

/// `window` slid over all of `hops`.
pub open spec fn window_after<T>(window: Seq<T>, hops: Seq<Seq<T>>) -> Seq<T>
    decreases hops.len(),
{
    if hops.len() == 0 {
        window
    } else {
        window_after(slid(window, hops[0]), hops.skip(1))
    }
}

/// What `window` shows behind each of `hops`.
pub open spec fn windows_of<T>(window: Seq<T>, hops: Seq<Seq<T>>) -> Seq<Seq<T>>
    decreases hops.len(),
{
    if hops.len() == 0 {
        Seq::empty()
    } else {
        seq![slid(window, hops[0])] + windows_of(slid(window, hops[0]), hops.skip(1))
    }
}

impl<T: Copy> HopStager<T> {
    /// The window of the last analysis.
    pub closed spec fn spec_window(&self) -> Seq<T> {
        self.window@
    }

    /// The frames that wait for a whole hop.
    pub closed spec fn spec_pending(&self) -> Seq<T> {
        self.pending@
    }

    /// How many hops went into the window so far.
    pub closed spec fn spec_hops(&self) -> nat {
        self.hops_processed as nat
    }

    /// The window has its length.
    pub open spec fn wf(&self) -> bool {
        self.spec_window().len() == FFT_LEN
    }

    /// A stager whose window is filled with `blank`.
    pub fn new(blank: T) -> (out: Self)
        ensures
            out.wf(),
            out.spec_window() == Seq::new(FFT_LEN as nat, |i: int| blank),
            out.spec_pending() == Seq::<T>::empty(),
            out.spec_hops() == 0,
    {
        let mut window: Vec<T> = Vec::new();
        while window.len() < FFT_LEN
            invariant
                window@.len() <= FFT_LEN,
                forall|i: int| 0 <= i < window@.len() ==> #[trigger] window@[i] == blank,
            decreases FFT_LEN - window@.len(),
        {
            window.push(blank);
        }
        let out = HopStager { window, pending: Vec::new(), hops_processed: 0 };
        assert(out.spec_window() =~= Seq::new(FFT_LEN as nat, |i: int| blank));
        out
    }

    /// Stages one frame. Says whether so many frames wait that the whole hops
    /// among them are to be taken before more is staged.
    pub fn push(&mut self, frame: T) -> (full: bool)
        requires
            old(self).wf(),
        ensures
            final(self).wf(),
            final(self).spec_window() == old(self).spec_window(),
            final(self).spec_pending() == old(self).spec_pending().push(frame),
            final(self).spec_hops() == old(self).spec_hops(),
            full == (final(self).spec_pending().len() >= FFT_LEN * 4),
            full <==> final(self).spec_pending().len() >= 8192,
    {
        self.pending.push(frame);
        self.pending.len() >= FFT_LEN * 4
    }

    /// Takes the next whole hop, if there is one, and slides the window over
    /// it.
    pub fn next_hop(&mut self) -> (out: Option<Vec<T>>)
        requires
            old(self).wf(),
            old(self).spec_hops() < u64::MAX,
        ensures
            final(self).wf(),
            match out {
                Some(hop) => {
                    &&& old(self).spec_pending().len() >= HOP
                    &&& hop@ == old(self).spec_pending().take(HOP as int)
                    &&& final(self).spec_pending() == old(self).spec_pending().skip(HOP as int)
                    &&& final(self).spec_window() == (old(self).spec_window() + hop@).skip(
                        HOP as int,
                    )
                    &&& final(self).spec_hops() == old(self).spec_hops() + 1
                    &&& hop@.len() == 512
                    &&& hop@ + final(self).spec_pending() == old(self).spec_pending()
                    &&& final(self).spec_window() == slid(old(self).spec_window(), hop@)
                },
                None => {
                    &&& old(self).spec_pending().len() < HOP
                    &&& *final(self) == *old(self)
                },
            },
    {
        if self.pending.len() < HOP {
            return None;
        }
        let ghost w0 = self.window@;
        let hop = take_front(&mut self.pending, HOP);
        let _ = take_front(&mut self.window, HOP);
        let mut i: usize = 0;
        let ghost kept = self.window@;
        while i < hop.len()
            invariant
                i <= hop@.len(),
                self.window@ == kept + hop@.take(i as int),
                self.pending@ == old(self).pending@.skip(HOP as int),
                self.hops_processed == old(self).hops_processed,
            decreases hop@.len() - i,
        {
            self.window.push(hop[i]);
            i += 1;
            assert(self.window@ =~= kept + hop@.take(i as int));
        }
        assert(hop@.take(i as int) =~= hop@);
        assert(self.window@ =~= (w0 + hop@).skip(HOP as int));
        assert(hop@ + self.pending@ =~= old(self).pending@);
        self.hops_processed += 1;
        Some(hop)
    }

    /// Stages a whole block and takes every whole hop out. Gives the window of
    /// each of these hops, which ends with the hop itself.
    pub fn push_block(&mut self, block: &[T]) -> (out: Vec<Vec<T>>)
        requires
            old(self).wf(),
            old(self).spec_hops() + (old(self).spec_pending().len() + block@.len()) / (HOP as nat)
                <= u64::MAX,
        ensures
            final(self).wf(),
            ({
                let s = old(self).spec_pending() + block@;
                let hops = hops_of(s);
                &&& views(out@) == windows_of(old(self).spec_window(), hops)
                &&& final(self).spec_window() == window_after(old(self).spec_window(), hops)
                &&& final(self).spec_pending() == rest_of(s)
                &&& final(self).spec_hops() == old(self).spec_hops() + hops.len()
            }),
    {
        let ghost w0 = self.window@;
        let ghost n0 = self.hops_processed as int;
        let ghost waiting = self.pending@;
        let mut i: usize = 0;
        assert(waiting + block@.take(0) =~= waiting);
        while i < block.len()
            invariant
                i <= block@.len(),
                self.window@ == w0,
                self.hops_processed == n0,
                self.pending@ == waiting + block@.take(i as int),
            decreases block@.len() - i,
        {
            self.pending.push(block[i]);
            i += 1;
            assert(self.pending@ =~= waiting + block@.take(i as int));
        }
        assert(block@.take(i as int) =~= block@);
        let ghost s = self.pending@;
        proof {
            law_hops_and_rest_are_the_stream(s);
        }
        let mut out: Vec<Vec<T>> = Vec::new();
        assert(views(out@) + windows_of(self.window@, hops_of(self.pending@)) =~= windows_of(
            w0,
            hops_of(s),
        ));
        while self.pending.len() >= HOP
            invariant
                self.wf(),
                n0 + hops_of(s).len() <= u64::MAX,
                self.hops_processed + hops_of(self.pending@).len() == n0 + hops_of(s).len(),
                views(out@) + windows_of(self.window@, hops_of(self.pending@)) == windows_of(
                    w0,
                    hops_of(s),
                ),
                window_after(self.window@, hops_of(self.pending@)) == window_after(w0, hops_of(s)),
                rest_of(self.pending@) == rest_of(s),
            decreases self.pending@.len(),
        {
            let ghost done = out@;
            let ghost before = self.pending@;
            let ghost slid = self.window@;
            let ghost hops = hops_of(before);
            if let Some(hop) = self.next_hop() {
                assert(hops.skip(1) =~= hops_of(self.pending@));
                assert(hops[0] == hop@);
                let window = vstd::slice::slice_to_vec(self.window.as_slice());
                out.push(window);
                assert(views(out@) =~= views(done).push(self.window@));
                assert(views(out@) + windows_of(self.window@, hops.skip(1)) =~= views(done)
                    + windows_of(slid, hops));
            }
        }
        assert(views(out@) + windows_of(self.window@, hops_of(self.pending@)) =~= views(out@));
        out
    }

    /// The window of the last analysis.
    pub fn window(&self) -> (out: &[T])
        ensures
            out@ == self.spec_window(),
    {
        self.window.as_slice()
    }

    /// The frames that wait for a whole hop.
    pub fn pending(&self) -> (out: &[T])
        ensures
            out@ == self.spec_pending(),
    {
        self.pending.as_slice()
    }

    /// How many hops went into the window so far.
    pub fn hops_processed(&self) -> (n: u64)
        ensures
            n == self.spec_hops(),
    {
        self.hops_processed
    }
}

// ---------------------------------------------------------------------------
// Blocks of samples
// ---------------------------------------------------------------------------
/// The repaired left and right samples of a planar block, as far as both
/// channels reach.
pub fn planar_pairs(left: &[Level], right: &[Level]) -> (out: Vec<(Level, Level)>)
    ensures
        out@.len() == (if left@.len() <= right@.len() {
            left@.len()
        } else {
            right@.len()
        }),
        forall|i: int|
            0 <= i < out@.len() ==> #[trigger] out@[i] == (
                level::sanitized(left@[i]),
                level::sanitized(right@[i]),
            ),
{
    let n: usize = if left.len() <= right.len() {
        left.len()
    } else {
        right.len()
    };
    let mut out: Vec<(Level, Level)> = Vec::new();
    let mut i: usize = 0;
    while i < n
        invariant
            i <= n,
            n <= left@.len(),
            n <= right@.len(),
            out@.len() == i,
            forall|j: int|
                0 <= j < i ==> #[trigger] out@[j] == (
                    level::sanitized(left@[j]),
                    level::sanitized(right@[j]),
                ),
        decreases n - i,
    {
        out.push((sanitize_pcm_sample(left[i]), sanitize_pcm_sample(right[i])));
        i += 1;
    }
    out
}

/// The repaired left and right samples of the whole frames of an interleaved
/// block: the first two channels, or the only one twice.
pub fn interleaved_pairs(samples: &[Level], channels: usize) -> (out: Vec<(Level, Level)>)
    ensures
        channels == 0 ==> out@.len() == 0,
        channels > 0 ==> out@.len() == samples@.len() / (channels as nat),
        channels > 0 ==> forall|i: int|
            0 <= i < out@.len() ==> #[trigger] out@[i] == (
                level::sanitized(samples@[i * channels]),
                level::sanitized(
                    samples@[if channels == 1 {
                        i * channels
                    } else {
                        i * channels + 1
                    }],
                ),
            ),
{
    let mut out: Vec<(Level, Level)> = Vec::new();
    if channels == 0 {
        return out;
    }
    let frames: usize = samples.len() / channels;
    proof {
        let n = samples@.len() as int;
        let c = channels as int;
        vstd::arithmetic::div_mod::lemma_fundamental_div_mod(n, c);
        vstd::arithmetic::div_mod::lemma_mod_bound(n, c);
        vstd::arithmetic::mul::lemma_mul_is_commutative(c, n / c);
        assert(frames == n / c);
        assert(frames * channels <= samples@.len());
    }
    let mut i: usize = 0;
    let mut at: usize = 0;
    assert(0 * channels == 0) by (nonlinear_arith);
    while i < frames
        invariant
            channels > 0,
            i <= frames,
            at == i * channels,
            frames * channels <= samples.len(),
            out@.len() == i,
            forall|j: int|
                0 <= j < i ==> #[trigger] out@[j] == (
                    level::sanitized(samples@[j * channels]),
                    level::sanitized(
                        samples@[if channels == 1 {
                            j * channels
                        } else {
                            j * channels + 1
                        }],
                    ),
                ),
        decreases frames - i,
    {
        assert((i + 1) * channels <= frames * channels) by (nonlinear_arith)
            requires
                i + 1 <= frames,
        ;
        assert((i + 1) * channels == i * channels + channels) by (nonlinear_arith);
        let left = sanitize_pcm_sample(samples[at]);
        let right = if channels > 1 {
            sanitize_pcm_sample(samples[at + 1])
        } else {
            left
        };
        out.push((left, right));
        i += 1;
        at += channels;
    }
    assert(frames == samples@.len() / (channels as nat));
    out
}

// ---------------------------------------------------------------------------
// Laws
// ---------------------------------------------------------------------------
/// The hops of `ss`, one behind the other.
pub open spec fn joined<T>(ss: Seq<Seq<T>>) -> Seq<T>
    decreases ss.len(),
{
    if ss.len() == 0 {
        Seq::empty()
    } else {
        ss[0] + joined(ss.skip(1))
    }
}

/// Cutting into hops loses nothing and moves nothing: the hops, one behind the
/// other, with the rest behind them, are the stream, and the rest is shorter
/// than a hop.
pub proof fn law_hops_and_rest_are_the_stream<T>(s: Seq<T>)
    ensures
        joined(hops_of(s)) + rest_of(s) == s,
        rest_of(s).len() < HOP,
        rest_of(s).len() == s.len() % (HOP as nat),
        hops_of(s).len() == s.len() / (HOP as nat),
        forall|i: int| 0 <= i < hops_of(s).len() ==> (#[trigger] hops_of(s)[i]).len() == HOP,
    decreases s.len(),
{
    if s.len() < HOP {
        assert(joined(hops_of(s)) + rest_of(s) =~= s);
    } else {
        let t = s.skip(HOP as int);
        law_hops_and_rest_are_the_stream(t);
        assert(hops_of(s).skip(1) =~= hops_of(t));
        assert(joined(hops_of(s)) + rest_of(s) =~= s.take(HOP as int) + (joined(hops_of(t))
            + rest_of(t)));
        assert(s.take(HOP as int) + t =~= s);
        assert forall|i: int| 0 <= i < hops_of(s).len() implies (
        #[trigger] hops_of(s)[i]).len() == HOP by {
            if i > 0 {
                assert(hops_of(s)[i] == hops_of(t)[i - 1]);
            }
        }
    }
}

/// How a stream is cut into blocks makes no difference to its hops: taking the
/// hops of a first part and then those of its rest with a second part behind it
/// gives the hops of both parts together, and the same rest.
pub proof fn law_block_size_makes_no_difference<T>(a: Seq<T>, b: Seq<T>)
    ensures
        hops_of(a + b) == hops_of(a) + hops_of(rest_of(a) + b),
        rest_of(a + b) == rest_of(rest_of(a) + b),
    decreases a.len(),
{
    if a.len() < HOP {
        assert(hops_of(a) + hops_of(a + b) =~= hops_of(a + b));
    } else {
        let t = a.skip(HOP as int);
        law_block_size_makes_no_difference(t, b);
        assert((a + b).take(HOP as int) =~= a.take(HOP as int));
        assert((a + b).skip(HOP as int) =~= t + b);
        assert(hops_of(a + b) =~= hops_of(a) + hops_of(rest_of(a) + b));
    }
}

/// Sliding over two runs of hops is sliding over the one and then the other.
proof fn lemma_windows_split<T>(window: Seq<T>, a: Seq<Seq<T>>, b: Seq<Seq<T>>)
    ensures
        windows_of(window, a + b) == windows_of(window, a) + windows_of(window_after(window, a), b),
        window_after(window, a + b) == window_after(window_after(window, a), b),
    decreases a.len(),
{
    if a.len() == 0 {
        assert(a + b =~= b);
        assert(windows_of(window, a) + windows_of(window, b) =~= windows_of(window, b));
    } else {
        let next = slid(window, a[0]);
        assert((a + b).skip(1) =~= a.skip(1) + b);
        lemma_windows_split(next, a.skip(1), b);
        assert(windows_of(window, a + b) =~= windows_of(window, a) + windows_of(
            window_after(window, a),
            b,
        ));
    }
}

/// The windows of `blocks`, pushed one after the other into a stager that shows
/// `window` and holds `pending`.
pub open spec fn pushed_windows<T>(
    window: Seq<T>,
    pending: Seq<T>,
    blocks: Seq<Seq<T>>,
) -> Seq<Seq<T>>
    decreases blocks.len(),
{
    if blocks.len() == 0 {
        Seq::empty()
    } else {
        let s = pending + blocks[0];
        windows_of(window, hops_of(s)) + pushed_windows(
            window_after(window, hops_of(s)),
            rest_of(s),
            blocks.skip(1),
        )
    }
}

/// What the stager then shows and holds.
pub open spec fn pushed_state<T>(window: Seq<T>, pending: Seq<T>, blocks: Seq<Seq<T>>) -> (
    Seq<T>,
    Seq<T>,
)
    decreases blocks.len(),
{
    if blocks.len() == 0 {
        (window, pending)
    } else {
        let s = pending + blocks[0];
        pushed_state(window_after(window, hops_of(s)), rest_of(s), blocks.skip(1))
    }
}

/// However a stream is cut into blocks, pushing them gives the windows that
/// pushing it whole gives, and leaves the same window and the same frames
/// waiting. A block is never trimmed: every whole hop of it gives a window, and
/// one that makes no hop whole gives none.
pub proof fn law_pushed_blocks_are_one_block<T>(
    window: Seq<T>,
    pending: Seq<T>,
    blocks: Seq<Seq<T>>,
)
    requires
        pending.len() < HOP,
    ensures
        ({
            let s = pending + joined(blocks);
            &&& pushed_windows(window, pending, blocks) == windows_of(window, hops_of(s))
            &&& pushed_state(window, pending, blocks) == (
                window_after(window, hops_of(s)),
                rest_of(s),
            )
            &&& pushed_windows(window, pending, blocks).len() == s.len() / (HOP as nat)
            &&& rest_of(s).len() == s.len() % (HOP as nat)
        }),
    decreases blocks.len(),
{
    let s = pending + joined(blocks);
    law_hops_and_rest_are_the_stream(s);
    lemma_windows_len(window, hops_of(s));
    if blocks.len() == 0 {
        assert(s =~= pending);
    } else {
        let first = pending + blocks[0];
        let others = joined(blocks.skip(1));
        assert(s =~= first + others);
        law_block_size_makes_no_difference(first, others);
        law_hops_and_rest_are_the_stream(first);
        lemma_windows_split(window, hops_of(first), hops_of(rest_of(first) + others));
        law_pushed_blocks_are_one_block(
            window_after(window, hops_of(first)),
            rest_of(first),
            blocks.skip(1),
        );
    }
}

/// There is one window for each hop.
proof fn lemma_windows_len<T>(window: Seq<T>, hops: Seq<Seq<T>>)
    ensures
        windows_of(window, hops).len() == hops.len(),
    decreases hops.len(),
{
    if hops.len() > 0 {
        lemma_windows_len(slid(window, hops[0]), hops.skip(1));
    }
}

/// No hop reaches across a gap: where frames were lost, what a pass gives does
/// not depend on what was left before the gap.
pub proof fn law_no_hop_reaches_across_a_gap<T>(before: Seq<T>, other: Seq<T>, incoming: Seq<T>)
    ensures
        staged(before, incoming, true) == staged(other, incoming, true),
        incoming.len() <= FFT_LEN * 8 ==> staged(before, incoming, true) == incoming,
{
    assert(Seq::<T>::empty() + incoming =~= incoming);
}

/// Without a gap and without a backlog nothing is lost: the hops of a pass and
/// its leftover are the old leftover with all that came in behind it.
pub proof fn law_steady_pass_loses_nothing<T>(pending: Seq<T>, incoming: Seq<T>)
    requires
        pending.len() + incoming.len() <= FFT_LEN * 8,
    ensures
        joined(hops_of(staged(pending, incoming, false))) + rest_of(
            staged(pending, incoming, false),
        ) == pending + incoming,
{
    law_hops_and_rest_are_the_stream(pending + incoming);
}

/// A backlog is cut down to its newest frames, never to others.
pub proof fn law_backlog_keeps_the_newest<T>(pending: Seq<T>, incoming: Seq<T>, gap: bool)
    ensures
        staged(pending, incoming, gap).len() <= FFT_LEN * 8,
        exists|k: int|
            0 <= k <= pending.len() + incoming.len() && staged(pending, incoming, gap) == (
            pending + incoming).skip(k),
{
    let s = pending + incoming;
    let cut = (if gap {
        Seq::empty()
    } else {
        pending
    }) + incoming;
    let k0 = if gap {
        pending.len() as int
    } else {
        0
    };
    assert(cut =~= s.skip(k0));
    let k = if cut.len() > FFT_LEN * 8 {
        k0 + cut.len() - FFT_LEN * 4
    } else {
        k0
    };
    assert(staged(pending, incoming, gap) =~= s.skip(k));
}

/// A hop is 512 frames long: hop number `i` of a stream is its `i`-th stretch of so
/// many frames, and what is left is what comes behind the last whole one.
pub proof fn law_hop_is_its_stretch<T>(s: Seq<T>, i: int)
    requires
        0 <= i < s.len() / 512,
    ensures
        hops_of(s).len() == s.len() / 512,
        hops_of(s)[i] == s.subrange(512 * i, 512 * i + 512),
        rest_of(s) == s.skip(512 * (s.len() as int / 512)),
    decreases s.len(),
{
    law_hops_and_rest_are_the_stream(s);
    let t = s.skip(512);
    if i > 0 {
        law_hop_is_its_stretch(t, i - 1);
        assert(hops_of(s)[i] == hops_of(t)[i - 1]);
        assert(t.subrange(512 * (i - 1), 512 * (i - 1) + 512) =~= s.subrange(512 * i, 512 * i + 512));
    } else {
        assert(s.take(512) =~= s.subrange(0, 512));
    }
    lemma_rest_is_the_end(s);
}

/// What is left comes behind the last whole hop.
proof fn lemma_rest_is_the_end<T>(s: Seq<T>)
    ensures
        rest_of(s) == s.skip(512 * (s.len() as int / 512)),
    decreases s.len(),
{
    if s.len() < 512 {
        assert(s.skip(0) =~= s);
    } else {
        let t = s.skip(512);
        lemma_rest_is_the_end(t);
        assert(t.skip(512 * (t.len() as int / 512)) =~= s.skip(512 * (s.len() as int / 512)));
    }
}

/// A pass stages the old leftover, unless frames were lost, and what came in behind
/// it: all of it up to 16384 frames, and of more the newest 8192.
pub proof fn law_pass_is_staged<T>(pending: Seq<T>, incoming: Seq<T>, gap: bool)
    ensures
        !gap && pending.len() + incoming.len() <= 16384 ==> staged(pending, incoming, gap)
            == pending + incoming,
        gap && incoming.len() <= 16384 ==> staged(pending, incoming, gap) == incoming,
        !gap && pending.len() + incoming.len() > 16384 ==> staged(pending, incoming, gap) == (
        pending + incoming).skip(pending.len() + incoming.len() - 8192),
        gap && incoming.len() > 16384 ==> staged(pending, incoming, gap) == incoming.skip(
            incoming.len() - 8192,
        ),
{
    assert(Seq::<T>::empty() + incoming =~= incoming);
}

/// A window that slides over a hop keeps its length, ends with the hop, and begins
/// with what it showed behind its own first frames.
pub proof fn law_window_slides<T>(window: Seq<T>, hop: Seq<T>, i: int)
    requires
        hop.len() <= window.len(),
        0 <= i < window.len(),
    ensures
        slid(window, hop).len() == window.len(),
        slid(window, hop)[i] == (if i < window.len() - hop.len() {
            window[i + hop.len()]
        } else {
            hop[i - (window.len() - hop.len())]
        }),
{
}

/// The window behind each hop shows the end of all that came in up to that hop.
pub proof fn law_window_shows_the_newest_frames<T>(window: Seq<T>, hops: Seq<Seq<T>>, i: int)
    requires
        0 <= i < hops.len(),
    ensures
        windows_of(window, hops).len() == hops.len(),
        windows_of(window, hops)[i] == (window + joined(hops.take(i + 1))).skip(
            joined(hops.take(i + 1)).len() as int,
        ),
        window_after(window, hops) == windows_of(window, hops).last(),
    decreases hops.len(),
{
    lemma_windows_len(window, hops);
    let next = slid(window, hops[0]);
    let rest = hops.skip(1);
    let upto = hops.take(i + 1);
    assert(upto.skip(1) =~= rest.take(i));
    assert(joined(upto) == hops[0] + joined(rest.take(i)));
    if i > 0 {
        law_window_shows_the_newest_frames(next, rest, i - 1);
        assert(windows_of(window, hops)[i] == windows_of(next, rest)[i - 1]);
        let tail = joined(rest.take(i));
        assert((next + tail).skip(tail.len() as int) =~= (window + (hops[0] + tail)).skip(
            (hops[0] + tail).len() as int,
        ));
    } else {
        assert(rest.take(0) =~= Seq::<Seq<T>>::empty());
        assert(joined(upto) =~= hops[0]);
    }
    if rest.len() > 0 {
        law_window_shows_the_newest_frames(next, rest, rest.len() - 1);
        lemma_windows_len(next, rest);
        assert(windows_of(window, hops).last() == windows_of(next, rest).last());
    } else {
        assert(window_after(next, rest) == next);
        assert(windows_of(next, rest).len() == 0);
    }
}

/// Joined hops are the hops, one behind the other.
pub proof fn law_joined_hops_follow_one_another<T>(ss: Seq<Seq<T>>, hop: Seq<T>)
    ensures
        joined(ss.push(hop)) == joined(ss) + hop,
        joined(Seq::<Seq<T>>::empty()) == Seq::<T>::empty(),
    decreases ss.len(),
{
    let both = ss.push(hop);
    if ss.len() == 0 {
        assert(both.skip(1) =~= Seq::<Seq<T>>::empty());
        assert(joined(both.skip(1)) =~= Seq::<T>::empty());
        assert(joined(both) =~= joined(ss) + hop);
    } else {
        law_joined_hops_follow_one_another(ss.skip(1), hop);
        assert(both.skip(1) =~= ss.skip(1).push(hop));
        assert(joined(both) =~= joined(ss) + hop);
    }
}

/// A vector of hops is seen hop by hop.
pub proof fn law_hops_as_they_are<T>(v: Seq<Vec<T>>, i: int)
    requires
        0 <= i < v.len(),
    ensures
        views(v).len() == v.len(),
        views(v)[i] == v[i]@,
{
}

/// Planar and interleaved blocks of the same samples give the same pairs, and the
/// sample of a single channel is both sides of its pair.
pub proof fn law_planar_and_interleaved_agree(
    left: &[Level],
    right: &[Level],
    samples: &[Level],
    channels: usize,
    planar: Vec<(Level, Level)>,
    interleaved: Vec<(Level, Level)>,
    i: int,
)
    requires
        channels > 0,
        call_ensures(planar_pairs, (left, right), planar),
        call_ensures(interleaved_pairs, (samples, channels), interleaved),
        left@.len() == right@.len(),
        samples@.len() == left@.len() * channels,
        forall|k: int|
            0 <= k < left@.len() ==> #[trigger] left@[k] == samples@[k * channels] && right@[k] == (
            if channels == 1 {
                left@[k]
            } else {
                samples@[k * channels + 1]
            }),
        0 <= i < left@.len(),
    ensures
        planar@.len() == left@.len(),
        interleaved@.len() == left@.len(),
        planar@[i] == interleaved@[i],
        planar@[i] == (level::sanitized(left@[i]), level::sanitized(right@[i])),
{
    vstd::arithmetic::div_mod::lemma_div_by_multiple(left@.len() as int, channels as int);
    assert(left@[i] == samples@[i * channels]);
}

/// Only whole frames give pairs, and no channels give none.
pub proof fn law_whole_frames_give_pairs(
    samples: &[Level],
    channels: usize,
    out: Vec<(Level, Level)>,
)
    requires
        call_ensures(interleaved_pairs, (samples, channels), out),
    ensures
        channels == 0 ==> out@.len() == 0,
        channels > 0 ==> out@.len() * channels <= samples@.len() < (out@.len() + 1) * channels,
{
    if channels > 0 {
        let n = samples@.len() as int;
        let c = channels as int;
        vstd::arithmetic::div_mod::lemma_fundamental_div_mod(n, c);
        vstd::arithmetic::div_mod::lemma_mod_bound(n, c);
        assert((n / c) * c <= n < (n / c + 1) * c) by (nonlinear_arith)
            requires
                n == c * (n / c) + n % c,
                0 <= n % c < c,
        ;
    }
}

} // verus!
