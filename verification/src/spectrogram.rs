//! A scrolling spectrogram: the last so many columns of levels, in a ring that
//! can be handed out whole.

use crate::history;
use vstd::prelude::*;

verus! {

/// The usual number of columns.
pub const DEFAULT_FRAMES: usize = 256;

/// The usual number of levels per column.
pub const DEFAULT_BINS: usize = 128;

/// A ring of columns, stored column after column, with the slot that the next
/// column goes to.
pub struct SpectrogramSnapshot<T> {
    frames: usize,
    bins: usize,
    write: usize,
    filled: usize,
    ring: Vec<T>,
}

/// A ring of columns that grows by one column at a time.
pub struct SpectrogramTrail<T> {
    inner: SpectrogramSnapshot<T>,
    blank: T,
}

/// The column in slot `k` of a ring with `bins` levels per column.
pub open spec fn slot<T>(ring: Seq<T>, bins: int, k: int) -> Seq<T> {
    ring.subrange(k * bins, k * bins + bins)
}

/// The slot that stands `back` slots before `at` in a ring of `frames` slots.
pub open spec fn slot_before(at: int, back: int, frames: int) -> int {
    if at >= back {
        at - back
    } else {
        at - back + frames
    }
}

/// The ring with `column` in slot `k`, and every other slot as it was.
pub open spec fn with_slot<T>(ring: Seq<T>, bins: int, k: int, column: Seq<T>) -> Seq<T> {
    ring.take(k * bins) + column + ring.skip(k * bins + bins)
}

/// A slot lies within the ring.
proof fn lemma_slot(k: int, frames: int, bins: int)
    requires
        0 <= k < frames,
        0 < bins,
    ensures
        0 <= k * bins,
        k * bins + bins <= frames * bins,
{
    assert(0 <= k * bins) by (nonlinear_arith)
        requires
            0 <= k,
            0 < bins,
    ;
    assert(k * bins + bins <= frames * bins) by (nonlinear_arith)
        requires
            k + 1 <= frames,
            0 < bins,
    ;
}

/// Two slots do not overlap.
proof fn lemma_slots_apart(j: int, k: int, bins: int)
    requires
        j < k,
        0 < bins,
    ensures
        j * bins + bins <= k * bins,
{
    assert(j * bins + bins <= k * bins) by (nonlinear_arith)
        requires
            j + 1 <= k,
            0 < bins,
    ;
}

impl<T> SpectrogramSnapshot<T> {
    /// How many columns the ring can hold.
    pub closed spec fn spec_frames(&self) -> int {
        self.frames as int
    }

    /// How many levels a column has.
    pub closed spec fn spec_bins(&self) -> int {
        self.bins as int
    }

    /// The slot that the next column goes to.
    pub closed spec fn spec_write(&self) -> int {
        self.write as int
    }

    /// How many columns the ring holds.
    pub closed spec fn spec_filled(&self) -> int {
        self.filled as int
    }

    /// The ring's levels, column after column.
    pub closed spec fn spec_ring(&self) -> Seq<T> {
        self.ring@
    }

    /// The ring has its size, and its marks lie within it.
    pub open spec fn wf(&self) -> bool {
        &&& 0 < self.spec_frames() <= usize::MAX
        &&& 0 < self.spec_bins() <= usize::MAX
        &&& 0 <= self.spec_write() < self.spec_frames()
        &&& 0 <= self.spec_filled() <= self.spec_frames()
        &&& self.spec_ring().len() == self.spec_frames() * self.spec_bins()
        &&& self.spec_frames() * self.spec_bins() <= usize::MAX
    }

    /// The columns that the ring holds, from the oldest to the newest.
    pub open spec fn columns(&self) -> Seq<Seq<T>> {
        Seq::new(
            self.spec_filled() as nat,
            |i: int|
                slot(
                    self.spec_ring(),
                    self.spec_bins(),
                    slot_before(
                        self.spec_write(),
                        self.spec_filled() - i,
                        self.spec_frames(),
                    ),
                ),
        )
    }

    /// How many columns the ring can hold.
    pub fn frames(&self) -> (n: usize)
        ensures
            n == self.spec_frames(),
    {
        self.frames
    }

    /// How many levels a column has.
    pub fn bins(&self) -> (n: usize)
        ensures
            n == self.spec_bins(),
    {
        self.bins
    }

    /// How many columns the ring holds.
    pub fn filled(&self) -> (n: usize)
        ensures
            n == self.spec_filled(),
    {
        self.filled
    }

    /// The ring's levels, column after column, and the slot that the next
    /// column goes to.
    pub fn raw_ring(&self) -> (out: (&[T], usize))
        ensures
            out.0@ == self.spec_ring(),
            out.1 == self.spec_write(),
    {
        (self.ring.as_slice(), self.write)
    }

    /// The column that was added `age` columns before the newest one.
    pub fn column(&self, age: usize) -> (out: Option<&[T]>)
        requires
            self.wf(),
        ensures
            match out {
                Some(c) => age < self.columns().len() && c@ == self.columns()[self.columns().len()
                    - 1 - age],
                None => age >= self.columns().len(),
            },
    {
        if age >= self.frames || age >= self.filled {
            return None;
        }
        let back: usize = age + 1;
        let at: usize = if self.write >= back {
            self.write - back
        } else {
            self.frames - (back - self.write)
        };
        proof {
            lemma_slot(at as int, self.frames as int, self.bins as int);
        }
        let offset: usize = at * self.bins;
        Some(vstd::slice::slice_subrange(self.ring.as_slice(), offset, offset + self.bins))
    }
}

impl<T: Copy> SpectrogramSnapshot<T> {
    /// A copy of the ring.
    pub fn duplicate(&self) -> (out: Self)
        requires
            self.wf(),
        ensures
            out.wf(),
            out.spec_frames() == self.spec_frames(),
            out.spec_bins() == self.spec_bins(),
            out.spec_write() == self.spec_write(),
            out.spec_filled() == self.spec_filled(),
            out.spec_ring() == self.spec_ring(),
    {
        SpectrogramSnapshot {
            frames: self.frames,
            bins: self.bins,
            write: self.write,
            filled: self.filled,
            ring: vstd::slice::slice_to_vec(self.ring.as_slice()),
        }
    }
}

impl<T: Copy> SpectrogramTrail<T> {
    /// The trail's ring.
    pub closed spec fn spec_inner(&self) -> SpectrogramSnapshot<T> {
        self.inner
    }

    /// The level of an empty column.
    pub closed spec fn spec_blank(&self) -> T {
        self.blank
    }

    /// The trail's ring is in order.
    pub open spec fn wf(&self) -> bool {
        self.spec_inner().wf()
    }

    /// The columns that the trail holds, from the oldest to the newest.
    pub open spec fn columns(&self) -> Seq<Seq<T>> {
        self.spec_inner().columns()
    }

    /// What goes into the trail for `column`: an empty column during silence.
    pub open spec fn added(&self, column: Seq<T>, is_silent: bool) -> Seq<T> {
        if is_silent {
            Seq::new(self.spec_inner().spec_bins() as nat, |i: int| self.spec_blank())
        } else {
            column
        }
    }

    /// An empty trail of at least one column of at least one level.
    pub fn with_size(frames: usize, bins: usize, blank: T) -> (out: Self)
        requires
            (if frames == 0 {
                1
            } else {
                frames as int
            }) * (if bins == 0 {
                1
            } else {
                bins as int
            }) <= usize::MAX,
        ensures
            out.wf(),
            out.spec_blank() == blank,
            out.spec_inner().spec_frames() == (if frames == 0 {
                1
            } else {
                frames as int
            }),
            out.spec_inner().spec_bins() == (if bins == 0 {
                1
            } else {
                bins as int
            }),
            out.spec_inner().spec_write() == 0,
            out.columns() == Seq::<Seq<T>>::empty(),
            forall|i: int|
                0 <= i < out.spec_inner().spec_ring().len()
                    ==> #[trigger] out.spec_inner().spec_ring()[i] == blank,
    {
        let frames: usize = if frames == 0 {
            1
        } else {
            frames
        };
        let bins: usize = if bins == 0 {
            1
        } else {
            bins
        };
        let size: usize = frames * bins;
        let mut ring: Vec<T> = Vec::new();
        while ring.len() < size
            invariant
                ring@.len() <= size,
                forall|i: int| 0 <= i < ring@.len() ==> #[trigger] ring@[i] == blank,
            decreases size - ring@.len(),
        {
            ring.push(blank);
        }
        let out = SpectrogramTrail {
            inner: SpectrogramSnapshot { frames, bins, write: 0, filled: 0, ring },
            blank,
        };
        assert(out.columns() =~= Seq::<Seq<T>>::empty());
        out
    }

    /// An empty trail of the usual size.
    pub fn new(blank: T) -> (out: Self)
        ensures
            out.wf(),
            out.spec_blank() == blank,
            out.spec_inner().spec_frames() == DEFAULT_FRAMES,
            out.spec_inner().spec_bins() == DEFAULT_BINS,
            out.spec_inner().spec_frames() == 256,
            out.spec_inner().spec_bins() == 128,
            out.spec_inner().spec_write() == 0,
            out.columns() == Seq::<Seq<T>>::empty(),
            forall|i: int|
                0 <= i < out.spec_inner().spec_ring().len()
                    ==> #[trigger] out.spec_inner().spec_ring()[i] == blank,
    {
        Self::with_size(DEFAULT_FRAMES, DEFAULT_BINS, blank)
    }

    /// How many columns the trail can hold.
    pub fn frames(&self) -> (n: usize)
        ensures
            n == self.spec_inner().spec_frames(),
    {
        self.inner.frames
    }

    /// How many levels a column has.
    pub fn bins(&self) -> (n: usize)
        ensures
            n == self.spec_inner().spec_bins(),
    {
        self.inner.bins
    }

    /// How many columns the trail holds.
    pub fn filled(&self) -> (n: usize)
        ensures
            n == self.columns().len(),
    {
        self.inner.filled
    }

    /// Adds `column`, or an empty column during silence; once the trail is
    /// full, the oldest column goes.
    pub fn push(&mut self, column: &[T], is_silent: bool)
        requires
            old(self).wf(),
            is_silent || column@.len() == old(self).spec_inner().spec_bins(),
        ensures
            final(self).wf(),
            final(self).spec_blank() == old(self).spec_blank(),
            final(self).spec_inner().spec_frames() == old(self).spec_inner().spec_frames(),
            final(self).spec_inner().spec_bins() == old(self).spec_inner().spec_bins(),
            final(self).columns() == history::recorded(
                old(self).columns(),
                old(self).added(column@, is_silent),
                old(self).spec_inner().spec_frames() as nat,
            ),
            final(self).spec_inner().spec_write() == (old(self).spec_inner().spec_write() + 1)
                % old(self).spec_inner().spec_frames(),
            final(self).spec_inner().spec_ring() == with_slot(
                old(self).spec_inner().spec_ring(),
                old(self).spec_inner().spec_bins(),
                old(self).spec_inner().spec_write(),
                old(self).added(column@, is_silent),
            ),
    {
        let ghost before = self.inner;
        let ghost added = if is_silent {
            Seq::new(before.bins as nat, |i: int| self.blank)
        } else {
            column@
        };
        let bins: usize = self.inner.bins;
        let frames: usize = self.inner.frames;
        let write: usize = self.inner.write;
        proof {
            lemma_slot(write as int, frames as int, bins as int);
        }
        let offset: usize = write * bins;
        let mut i: usize = 0;
        while i < bins
            invariant
                i <= bins,
                bins == before.bins,
                frames == before.frames,
                write == before.write,
                offset == write * bins,
                offset + bins <= self.inner.ring.len(),
                self.inner.ring@.len() == before.ring@.len(),
                self.inner.frames == before.frames,
                self.inner.bins == before.bins,
                self.inner.write == before.write,
                self.inner.filled == before.filled,
                self.blank == old(self).blank,
                is_silent || column@.len() == bins,
                added == (if is_silent {
                    Seq::new(before.bins as nat, |k: int| old(self).blank)
                } else {
                    column@
                }),
                forall|k: int| 0 <= k < i ==> #[trigger] self.inner.ring@[offset + k] == added[k],
                forall|k: int|
                    0 <= k < before.ring@.len() && (k < offset || offset + bins <= k)
                        ==> #[trigger] self.inner.ring@[k] == before.ring@[k],
            decreases bins - i,
        {
            let v = if is_silent {
                self.blank
            } else {
                column[i]
            };
            self.inner.ring.set(offset + i, v);
            i += 1;
        }
        self.inner.write = if write + 1 == frames {
            0
        } else {
            write + 1
        };
        if self.inner.filled < frames {
            self.inner.filled = self.inner.filled + 1;
        }
        proof {
            let after = self.inner;
            assert(slot(after.ring@, bins as int, write as int) =~= added) by {
                assert forall|k: int| 0 <= k < bins implies after.ring@[offset + k] == added[k] by {}
            }
            assert forall|j: int| 0 <= j < frames && j != write implies #[trigger] slot(
                after.ring@,
                bins as int,
                j,
            ) == slot(before.ring@, bins as int, j) by {
                lemma_slot(j, frames as int, bins as int);
                if j < write {
                    lemma_slots_apart(j, write as int, bins as int);
                } else {
                    lemma_slots_apart(write as int, j, bins as int);
                }
                assert(slot(after.ring@, bins as int, j) =~= slot(before.ring@, bins as int, j));
            }
            if write + 1 == frames {
                vstd::arithmetic::div_mod::lemma_mod_self_0(frames as int);
            } else {
                vstd::arithmetic::div_mod::lemma_small_mod((write + 1) as nat, frames as nat);
            }
            assert(added =~= old(self).added(column@, is_silent));
            assert(after.ring@ =~= with_slot(before.ring@, bins as int, write as int, added));
            assert(after.columns() =~= history::recorded(
                before.columns(),
                added,
                frames as nat,
            ));
        }
    }

    /// The column that was added `age` columns before the newest one.
    pub fn column(&self, age: usize) -> (out: Option<&[T]>)
        requires
            self.wf(),
        ensures
            match out {
                Some(c) => age < self.columns().len() && c@ == self.columns()[self.columns().len()
                    - 1 - age],
                None => age >= self.columns().len(),
            },
    {
        self.inner.column(age)
    }

    /// Every column that the trail holds, the newest first.
    pub fn for_each_column(&self) -> (out: Vec<&[T]>)
        requires
            self.wf(),
        ensures
            out@.len() == self.columns().len(),
            forall|age: int|
                0 <= age < out@.len() ==> (#[trigger] out@[age])@
                    == self.columns()[self.columns().len() - 1 - age],
    {
        let mut out: Vec<&[T]> = Vec::new();
        let mut age: usize = 0;
        while age < self.inner.filled
            invariant
                self.wf(),
                self.inner.filled == self.columns().len(),
                age <= self.inner.filled,
                out@.len() == age,
                forall|k: int|
                    0 <= k < age ==> (#[trigger] out@[k])@ == self.columns()[self.columns().len()
                        - 1 - k],
            decreases self.inner.filled - age,
        {
            if let Some(c) = self.inner.column(age) {
                out.push(c);
            }
            age += 1;
        }
        out
    }

    /// The ring's levels, column after column, and the slot that the next
    /// column goes to.
    pub fn raw_ring(&self) -> (out: (&[T], usize))
        ensures
            out.0@ == self.spec_inner().spec_ring(),
            out.1 == self.spec_inner().spec_write(),
    {
        self.inner.raw_ring()
    }

    /// Copies the ring into `dst`, which has its size.
    pub fn fill_snapshot(&self, dst: &mut SpectrogramSnapshot<T>)
        requires
            self.wf(),
            old(dst).spec_ring().len() == self.spec_inner().spec_ring().len(),
        ensures
            final(dst).wf(),
            final(dst).spec_frames() == self.spec_inner().spec_frames(),
            final(dst).spec_bins() == self.spec_inner().spec_bins(),
            final(dst).spec_write() == self.spec_inner().spec_write(),
            final(dst).spec_filled() == self.spec_inner().spec_filled(),
            final(dst).spec_ring() == self.spec_inner().spec_ring(),
    {
        dst.frames = self.inner.frames;
        dst.bins = self.inner.bins;
        dst.write = self.inner.write;
        dst.filled = self.inner.filled;
        let mut i: usize = 0;
        while i < self.inner.ring.len()
            invariant
                i <= self.inner.ring@.len(),
                dst.frames == self.inner.frames,
                dst.bins == self.inner.bins,
                dst.write == self.inner.write,
                dst.filled == self.inner.filled,
                dst.ring@.len() == self.inner.ring@.len(),
                forall|k: int| 0 <= k < i ==> #[trigger] dst.ring@[k] == self.inner.ring@[k],
            decreases self.inner.ring@.len() - i,
        {
            dst.ring.set(i, self.inner.ring[i]);
            i += 1;
        }
        assert(dst.ring@ =~= self.inner.ring@);
    }

    /// A copy of the ring.
    pub fn snapshot(&self) -> (out: SpectrogramSnapshot<T>)
        requires
            self.wf(),
        ensures
            out.wf(),
            out.spec_frames() == self.spec_inner().spec_frames(),
            out.spec_bins() == self.spec_inner().spec_bins(),
            out.spec_write() == self.spec_inner().spec_write(),
            out.spec_filled() == self.spec_inner().spec_filled(),
            out.spec_ring() == self.spec_inner().spec_ring(),
    {
        self.inner.duplicate()
    }
}

// ---------------------------------------------------------------------------
// Laws
// ---------------------------------------------------------------------------
/// In the ring as it is handed out, the newest column stands in the slot before
/// the write mark, and the oldest one of a full ring at the mark itself.
pub proof fn law_ring_marks_newest_and_oldest<T>(s: SpectrogramSnapshot<T>)
    requires
        s.wf(),
        s.spec_filled() > 0,
    ensures
        s.columns().last() == slot(
            s.spec_ring(),
            s.spec_bins(),
            (s.spec_write() + s.spec_frames() - 1) % s.spec_frames(),
        ),
        s.spec_filled() == s.spec_frames() ==> s.columns()[0] == slot(
            s.spec_ring(),
            s.spec_bins(),
            s.spec_write(),
        ),
{
    let f = s.spec_frames();
    let w = s.spec_write();
    if w >= 1 {
        vstd::arithmetic::div_mod::lemma_mod_add_multiples_vanish(w - 1, f);
        vstd::arithmetic::div_mod::lemma_small_mod((w - 1) as nat, f as nat);
    } else {
        vstd::arithmetic::div_mod::lemma_small_mod((f - 1) as nat, f as nat);
    }
}

/// A snapshot with the same ring and marks shows the same columns.
pub proof fn law_snapshot_shows_the_trail<T>(a: SpectrogramSnapshot<T>, b: SpectrogramSnapshot<T>)
    requires
        a.spec_frames() == b.spec_frames(),
        a.spec_bins() == b.spec_bins(),
        a.spec_write() == b.spec_write(),
        a.spec_filled() == b.spec_filled(),
        a.spec_ring() == b.spec_ring(),
    ensures
        a.columns() == b.columns(),
{
}

/// What a trail holds after `pushed` columns went into an empty one of `frames`
/// columns: the one of age `age` is the column pushed that many before the last,
/// for every age below both the number of pushes and the size, and no other.
pub proof fn law_trail_holds_the_last<T>(pushed: Seq<Seq<T>>, frames: nat)
    requires
        frames > 0,
    ensures
        ({
            let columns = history::recorded_all(Seq::empty(), pushed, frames);
            &&& columns.len() == (if pushed.len() <= frames {
                pushed.len()
            } else {
                frames
            })
            &&& forall|age: int|
                0 <= age < columns.len() ==> #[trigger] columns[columns.len() - 1 - age]
                    == pushed[pushed.len() - 1 - age]
        }),
{
    history::law_history_holds_the_last(pushed, frames);
}

/// Every column has as many levels as the ring's columns have.
pub proof fn law_columns_have_their_length<T>(s: SpectrogramSnapshot<T>)
    requires
        s.wf(),
    ensures
        forall|i: int|
            0 <= i < s.columns().len() ==> (#[trigger] s.columns()[i]).len() == s.spec_bins(),
{
    assert forall|i: int| 0 <= i < s.columns().len() implies (
    #[trigger] s.columns()[i]).len() == s.spec_bins() by {
        let k = slot_before(s.spec_write(), s.spec_filled() - i, s.spec_frames());
        lemma_slot(k, s.spec_frames(), s.spec_bins());
    }
}

/// A slot holds its own stretch of the ring: as many levels as a column has, from as
/// many levels on as all slots before it have.
pub proof fn law_slot_is_its_stretch<T>(ring: Seq<T>, frames: int, bins: int, k: int, j: int)
    requires
        0 < bins,
        0 <= k < frames,
        ring.len() == frames * bins,
        0 <= j < bins,
    ensures
        slot(ring, bins, k).len() == bins,
        slot(ring, bins, k)[j] == ring[k * bins + j],
{
    lemma_slot(k, frames, bins);
}

/// Slots are counted backwards round the ring.
pub proof fn law_slots_are_counted_round_the_ring(at: int, back: int, frames: int)
    requires
        0 <= at < frames,
        0 <= back <= frames,
    ensures
        0 <= slot_before(at, back, frames) < frames,
        slot_before(at, back, frames) + back == at || slot_before(at, back, frames) + back == at
            + frames,
{
}

/// A column that is written goes into its own slot, and every other slot keeps its
/// column.
pub proof fn law_written_slot_and_the_others<T>(
    ring: Seq<T>,
    frames: int,
    bins: int,
    k: int,
    column: Seq<T>,
    other: int,
)
    requires
        0 < bins,
        0 <= k < frames,
        0 <= other < frames,
        ring.len() == frames * bins,
        column.len() == bins,
    ensures
        with_slot(ring, bins, k, column).len() == ring.len(),
        slot(with_slot(ring, bins, k, column), bins, k) == column,
        other != k ==> slot(with_slot(ring, bins, k, column), bins, other) == slot(
            ring,
            bins,
            other,
        ),
{
    let next = with_slot(ring, bins, k, column);
    lemma_slot(k, frames, bins);
    lemma_slot(other, frames, bins);
    assert(slot(next, bins, k) =~= column);
    if other < k {
        lemma_slots_apart(other, k, bins);
        assert(slot(next, bins, other) =~= slot(ring, bins, other));
    } else if other > k {
        lemma_slots_apart(k, other, bins);
        assert(slot(next, bins, other) =~= slot(ring, bins, other));
    }
}

/// What goes into the trail is the column as it is, or during silence a column of the
/// same length that is blank throughout.
pub proof fn law_silence_is_recorded_blank<T: Copy>(
    trail: SpectrogramTrail<T>,
    column: Seq<T>,
    i: int,
)
    requires
        trail.wf(),
        0 <= i < trail.spec_inner().spec_bins(),
    ensures
        trail.added(column, false) == column,
        trail.added(column, true).len() == trail.spec_inner().spec_bins(),
        trail.added(column, true)[i] == trail.spec_blank(),
{
}

/// The column of a given age stands that many slots before the newest one, which
/// stands before the write mark, counted round the ring.
pub proof fn law_column_stands_where_its_age_says<T>(s: SpectrogramSnapshot<T>, age: int)
    requires
        s.wf(),
        0 <= age < s.spec_filled(),
    ensures
        s.columns().len() == s.spec_filled(),
        s.columns()[s.spec_filled() - 1 - age] == slot(
            s.spec_ring(),
            s.spec_bins(),
            (s.spec_write() + s.spec_frames() - 1 - age) % s.spec_frames(),
        ),
{
    let f = s.spec_frames();
    let k = s.spec_write() - 1 - age;
    if k >= 0 {
        vstd::arithmetic::div_mod::lemma_mod_add_multiples_vanish(k, f);
        vstd::arithmetic::div_mod::lemma_small_mod(k as nat, f as nat);
    } else {
        vstd::arithmetic::div_mod::lemma_small_mod((k + f) as nat, f as nat);
    }
}

} // verus!
