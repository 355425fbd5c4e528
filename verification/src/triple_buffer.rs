//! A triple buffer that hands snapshots from one producer to one consumer.
//!
//! Three slots and one control byte. The producer owns one slot, the consumer
//! owns another, and the control byte names the third one, with a mark where it
//! holds a value that the consumer has not taken yet. To publish, the producer
//! fills its own slot and exchanges it for the third one; to read, the consumer
//! exchanges its own slot for the third one where that is marked. So no slot
//! is ever owned by both sides.

use vstd::prelude::*;

verus! {

/// The bits of the control byte that hold a slot's index.
pub const INDEX_MASK: u8 = 3;

/// The mark of a value that has not been taken yet.
pub const DIRTY_BIT: u8 = 4;

/// The state of a triple buffer.
#[verifier::reject_recursive_types(T)]
pub ghost struct BufferState<T> {
    /// The three slots.
    pub slots: Seq<T>,
    /// The slot that neither side owns.
    pub ready: int,
    /// Whether that slot holds a value that the consumer has not taken yet.
    pub dirty: bool,
    /// The slot that the producer owns.
    pub back: int,
    /// The slot that the consumer owns.
    pub front: int,
}

impl<T> BufferState<T> {
    /// There are three slots, and the producer, the consumer and the control
    /// byte hold one each.
    pub open spec fn wf(self) -> bool {
        &&& self.slots.len() == 3
        &&& 0 <= self.ready < 3
        &&& 0 <= self.back < 3
        &&& 0 <= self.front < 3
        &&& self.ready != self.back
        &&& self.ready != self.front
        &&& self.back != self.front
    }

    /// The value that was published last.
    pub open spec fn latest(self) -> T {
        if self.dirty {
            self.slots[self.ready]
        } else {
            self.slots[self.front]
        }
    }

    /// The state after the producer filled its own slot.
    pub open spec fn stored(self, value: T) -> BufferState<T> {
        BufferState { slots: self.slots.update(self.back, value), ..self }
    }

    /// The state after the producer exchanged its slot for the third one.
    pub open spec fn published(self) -> BufferState<T> {
        BufferState { ready: self.back, back: self.ready, dirty: true, ..self }
    }

    /// The state after the consumer looked for a new value.
    pub open spec fn latched(self) -> BufferState<T> {
        if self.dirty {
            BufferState { ready: self.front, front: self.ready, dirty: false, ..self }
        } else {
            self
        }
    }
}

// ---------------------------------------------------------------------------
// The control byte
// ---------------------------------------------------------------------------
/// The control byte that names `slot` and marks it.
pub fn marked(slot: u8) -> (byte: u8)
    requires
        slot < 3,
    ensures
        byte == slot + 4,
{
    assert(slot < 3 ==> (slot | 4u8) == slot + 4) by (bit_vector);
    slot | DIRTY_BIT
}

/// The slot that a control byte names.
pub fn slot_of(byte: u8) -> (slot: u8)
    ensures
        slot == byte % 4,
{
    assert(byte & 3u8 == byte % 4) by (bit_vector);
    byte & INDEX_MASK
}

/// Whether a control byte marks its slot.
pub fn is_marked(byte: u8) -> (yes: bool)
    ensures
        yes == (byte as int / 4 % 2 == 1),
{
    assert((byte & 4u8 != 0) <==> byte / 4 % 2 == 1) by (bit_vector);
    byte & DIRTY_BIT != 0
}

// ---------------------------------------------------------------------------
// The buffer
// ---------------------------------------------------------------------------
/// What both sides share: the slots and the control byte.
pub struct Shared<T> {
    slots: [T; 3],
    ready: u8,
    back: Ghost<int>,
    front: Ghost<int>,
}

/// The producer's side.
pub struct Writer {
    back: u8,
}

/// The consumer's side.
pub struct Reader {
    front: u8,
}

impl<T> View for Shared<T> {
    type V = BufferState<T>;

    closed spec fn view(&self) -> BufferState<T> {
        BufferState {
            slots: self.slots@,
            ready: (self.ready % 4) as int,
            dirty: self.ready >= 4,
            back: self.back@,
            front: self.front@,
        }
    }
}

impl<T> Shared<T> {
    /// The control byte and the slots' owners are in order.
    pub closed spec fn wf(&self) -> bool {
        self.ready < 8 && self@.wf()
    }
}

impl Writer {
    /// This is the producer's side of `shared`.
    pub closed spec fn serves<T>(&self, shared: &Shared<T>) -> bool {
        self.back == shared@.back
    }
}

impl Reader {
    /// This is the consumer's side of `shared`.
    pub closed spec fn serves<T>(&self, shared: &Shared<T>) -> bool {
        self.front == shared@.front
    }
}

/// A buffer in order is one whose sides own different slots.
pub proof fn lemma_shared_wf<T>(shared: &Shared<T>)
    requires
        shared.wf(),
    ensures
        shared@.wf(),
{
}

/// A producer's side serves every buffer whose producer owns the same slot.
pub proof fn lemma_writer_serves<T>(writer: &Writer, a: &Shared<T>, b: &Shared<T>)
    requires
        writer.serves(a),
        a@.back == b@.back,
    ensures
        writer.serves(b),
{
}

/// A consumer's side serves every buffer whose consumer owns the same slot.
pub proof fn lemma_reader_serves<T>(reader: &Reader, a: &Shared<T>, b: &Shared<T>)
    requires
        reader.serves(a),
        a@.front == b@.front,
    ensures
        reader.serves(b),
{
}

/// A triple buffer that holds `initial` in every slot, with its two sides.
pub fn triple_buffer<T: Copy>(initial: T) -> (out: (Shared<T>, Writer, Reader))
    ensures
        out.0.wf(),
        out.1.serves(&out.0),
        out.2.serves(&out.0),
        out.0@.slots == seq![initial, initial, initial],
        !out.0@.dirty,
        out.0@.latest() == initial,
{
    let shared = Shared {
        slots: [initial, initial, initial],
        ready: 0,
        back: Ghost(1),
        front: Ghost(2),
    };
    assert(shared.slots@ =~= seq![initial, initial, initial]);
    (shared, Writer { back: 1 }, Reader { front: 2 })
}

impl Writer {
    /// Publishes `value`.
    pub fn write<T: Copy>(&mut self, shared: &mut Shared<T>, value: T)
        requires
            old(shared).wf(),
            old(self).serves(old(shared)),
        ensures
            final(shared).wf(),
            final(self).serves(final(shared)),
            final(shared)@ == old(shared)@.stored(value).published(),
            final(shared)@.latest() == value,
            forall|r: Reader| r.serves(old(shared)) ==> #[trigger] r.serves(final(shared)),
    {
        let ghost before = shared@;
        let back = self.back;
        assert(back < 3);
        shared.slots[back as usize] = value;
        assert(shared.slots@ =~= before.slots.update(back as int, value));
        let prev: u8 = shared.ready;
        shared.ready = marked(back);
        self.back = slot_of(prev);
        proof {
            shared.back@ = before.ready;
        }
    }
}

impl Reader {
    /// The value that was published last; the same again where nothing was
    /// published since.
    pub fn read<T: Copy>(&mut self, shared: &mut Shared<T>) -> (out: T)
        requires
            old(shared).wf(),
            old(self).serves(old(shared)),
        ensures
            final(shared).wf(),
            final(self).serves(final(shared)),
            final(shared)@ == old(shared)@.latched(),
            out == old(shared)@.latest(),
            final(shared)@.latest() == out,
            forall|w: Writer| w.serves(old(shared)) ==> #[trigger] w.serves(final(shared)),
    {
        let ghost before = shared@;
        let ready: u8 = shared.ready;
        if is_marked(ready) {
            shared.ready = self.front;
            self.front = slot_of(ready);
            proof {
                shared.front@ = before.ready;
            }
        }
        shared.slots[self.front as usize]
    }
}

// ---------------------------------------------------------------------------
// Laws
// ---------------------------------------------------------------------------
/// No step of either side ever makes both own the same slot.
pub proof fn law_slots_stay_apart<T>(s: BufferState<T>, value: T)
    requires
        s.wf(),
    ensures
        s.stored(value).wf(),
        s.published().wf(),
        s.latched().wf(),
{
}

/// A read after a write gives the written value, whatever was written before
/// and whether or not it was read.
pub proof fn law_read_sees_latest_write<T>(s: BufferState<T>, value: T)
    requires
        s.wf(),
    ensures
        s.stored(value).published().latest() == value,
{
}

/// Reading changes nothing for the next read: without a write in between it
/// gives the same value again.
pub proof fn law_read_is_repeatable<T>(s: BufferState<T>)
    requires
        s.wf(),
    ensures
        s.latched().latest() == s.latest(),
        s.latched().latched() == s.latched(),
{
}

/// A value becomes visible at its publication and not before: while the
/// producer fills its slot, the consumer sees what it saw before, and a look of
/// the consumer in between makes no difference to what the producer publishes.
pub proof fn law_publication_is_one_step<T>(s: BufferState<T>, value: T)
    requires
        s.wf(),
    ensures
        s.stored(value).latest() == s.latest(),
        s.stored(value).latched() == s.latched().stored(value),
        s.stored(value).latched().published().latest() == value,
{
    assert(s.stored(value).latched().slots =~= s.latched().stored(value).slots);
}

/// The producer never touches the slot that the consumer owns.
pub proof fn law_writing_leaves_the_consumers_slot<T>(s: BufferState<T>, value: T)
    requires
        s.wf(),
    ensures
        s.stored(value).published().front == s.front,
        s.stored(value).published().slots[s.front] == s.slots[s.front],
{
}

/// One whole call of either side.
pub ghost enum BufferCall<T> {
    Write(T),
    Read,
}

/// The state after one call.
pub open spec fn after_call<T>(s: BufferState<T>, call: BufferCall<T>) -> BufferState<T> {
    match call {
        BufferCall::Write(value) => s.stored(value).published(),
        BufferCall::Read => s.latched(),
    }
}

/// The state after `calls`, one after the other.
pub open spec fn after_calls<T>(s: BufferState<T>, calls: Seq<BufferCall<T>>) -> BufferState<T>
    decreases calls.len(),
{
    if calls.len() == 0 {
        s
    } else {
        after_call(after_calls(s, calls.drop_last()), calls.last())
    }
}

/// The argument of the last write among `calls`, or `initial` where there is
/// none.
pub open spec fn last_written<T>(initial: T, calls: Seq<BufferCall<T>>) -> T
    decreases calls.len(),
{
    if calls.len() == 0 {
        initial
    } else {
        match calls.last() {
            BufferCall::Write(value) => value,
            BufferCall::Read => last_written(initial, calls.drop_last()),
        }
    }
}

/// After any calls of the two sides in any order, a read gives what was written
/// last, or what was there at first: values in between may be skipped, and reads
/// change nothing.
pub proof fn law_read_gives_the_last_written<T>(s: BufferState<T>, calls: Seq<BufferCall<T>>)
    requires
        s.wf(),
    ensures
        after_calls(s, calls).wf(),
        after_calls(s, calls).latest() == last_written(s.latest(), calls),
    decreases calls.len(),
{
    if calls.len() > 0 {
        law_read_gives_the_last_written(s, calls.drop_last());
        match calls.last() {
            BufferCall::Write(value) => {
                law_read_sees_latest_write(after_calls(s, calls.drop_last()), value);
            },
            BufferCall::Read => {
                law_read_is_repeatable(after_calls(s, calls.drop_last()));
            },
        }
    }
}

/// Of the three slots each side owns one and the control byte names the third: a
/// store changes the producer's slot alone, a publication exchanges the producer's
/// slot for the third one and marks it, and a look exchanges the consumer's slot for
/// the third one where that is marked and clears the mark.
pub proof fn law_steps_of_the_two_sides<T>(s: BufferState<T>, value: T, k: int)
    requires
        s.wf(),
        0 <= k < 3,
    ensures
        s.slots.len() == 3,
        0 <= s.ready < 3 && 0 <= s.back < 3 && 0 <= s.front < 3,
        s.ready != s.back && s.back != s.front && s.front != s.ready,
        s.stored(value).slots[k] == (if k == s.back {
            value
        } else {
            s.slots[k]
        }),
        s.stored(value).ready == s.ready && s.stored(value).back == s.back && s.stored(value).front
            == s.front && s.stored(value).dirty == s.dirty,
        s.published().dirty && s.published().ready == s.back && s.published().back == s.ready
            && s.published().front == s.front && s.published().slots == s.slots,
        s.dirty ==> !s.latched().dirty && s.latched().ready == s.front && s.latched().front
            == s.ready && s.latched().back == s.back && s.latched().slots == s.slots,
        !s.dirty ==> s.latched() == s,
        s.latest() == s.latched().slots[s.latched().front],
{
}

} // verus!
