//! A rolling history: the last so many things that were recorded, the oldest
//! giving way to the newest.

use vstd::prelude::*;

verus! {

/// The last `capacity` recorded things.
pub struct History<T> {
    slots: Vec<T>,
    write: usize,
    capacity: usize,
}

/// `s` with `x` recorded behind it, cut to its last `capacity` things.
pub open spec fn recorded<T>(s: Seq<T>, x: T, capacity: nat) -> Seq<T> {
    if s.len() < capacity {
        s.push(x)
    } else {
        s.push(x).skip(s.len() + 1 - capacity)
    }
}

impl<T> View for History<T> {
    type V = Seq<T>;

    /// What is held, from the oldest to the newest.
    closed spec fn view(&self) -> Seq<T> {
        if self.slots@.len() < self.capacity {
            self.slots@
        } else {
            self.slots@.skip(self.write as int) + self.slots@.take(self.write as int)
        }
    }
}

impl<T> History<T> {
    /// The history is in order: it holds no more than fits, and the next thing
    /// is written behind the newest one.
    pub closed spec fn wf(&self) -> bool {
        &&& 0 < self.capacity
        &&& self.slots@.len() <= self.capacity
        &&& self.write < self.capacity
        &&& (self.slots@.len() < self.capacity ==> self.write == self.slots@.len())
    }

    /// How many things the history can hold.
    pub closed spec fn spec_capacity(&self) -> nat {
        self.capacity as nat
    }

    /// An empty history of at least one place.
    pub fn new(capacity: usize) -> (out: Self)
        ensures
            out.wf(),
            out@ == Seq::<T>::empty(),
            out.spec_capacity() == (if capacity == 0 {
                1
            } else {
                capacity as nat
            }),
    {
        let capacity: usize = if capacity == 0 {
            1
        } else {
            capacity
        };
        History { slots: Vec::new(), write: 0, capacity }
    }

    /// How many things the history can hold.
    pub fn capacity(&self) -> (n: usize)
        ensures
            n == self.spec_capacity(),
    {
        self.capacity
    }

    /// How many things the history holds.
    pub fn len(&self) -> (n: usize)
        requires
            self.wf(),
        ensures
            n == self@.len(),
            n <= self.spec_capacity(),
    {
        self.slots.len()
    }

    /// Records `x`; where the history is full, the oldest thing goes.
    pub fn push(&mut self, x: T)
        requires
            old(self).wf(),
        ensures
            final(self).wf(),
            final(self).spec_capacity() == old(self).spec_capacity(),
            final(self)@ == recorded(old(self)@, x, old(self).spec_capacity()),
            final(self)@.len() <= final(self).spec_capacity(),
            final(self)@.last() == x,
    {
        let ghost before = self@;
        let ghost cap = self.capacity as nat;
        if self.slots.len() < self.capacity {
            self.slots.push(x);
        } else {
            self.slots.set(self.write, x);
        }
        self.write = if self.write + 1 == self.capacity {
            0
        } else {
            self.write + 1
        };
        assert(self@ =~= recorded(before, x, cap));
    }

    /// The thing recorded `back` things before the newest one.
    pub fn newest(&self, back: usize) -> (out: &T)
        requires
            self.wf(),
            back < self@.len(),
        ensures
            *out == self@[self@.len() - 1 - back],
    {
        let n: usize = self.slots.len();
        if n < self.capacity {
            &self.slots[n - 1 - back]
        } else if back < self.write {
            &self.slots[self.write - 1 - back]
        } else {
            &self.slots[self.write + (n - 1 - back)]
        }
    }

    /// Forgets everything.
    pub fn clear(&mut self)
        requires
            old(self).wf(),
        ensures
            final(self).wf(),
            final(self).spec_capacity() == old(self).spec_capacity(),
            final(self)@ == Seq::<T>::empty(),
    {
        self.slots.clear();
        self.write = 0;
        assert(self@ =~= Seq::<T>::empty());
    }
}

impl<T: Copy> History<T> {
    /// What is held, from the oldest to the newest.
    pub fn in_order(&self) -> (out: Vec<T>)
        requires
            self.wf(),
        ensures
            out@ == self@,
    {
        let n: usize = self.len();
        let mut out: Vec<T> = Vec::new();
        let mut i: usize = 0;
        while i < n
            invariant
                self.wf(),
                n == self@.len(),
                i <= n,
                out@ == self@.take(i as int),
            decreases n - i,
        {
            out.push(*self.newest(n - 1 - i));
            i += 1;
            assert(self@.take(i as int) =~= self@.take(i - 1).push(self@[i - 1]));
        }
        assert(self@.take(n as int) =~= self@);
        out
    }

    /// The newest `count` things, or all where there are fewer, the newest
    /// first.
    pub fn recent(&self, count: usize) -> (out: Vec<T>)
        requires
            self.wf(),
        ensures
            out@.len() == (if count <= self@.len() {
                count as nat
            } else {
                self@.len()
            }),
            forall|i: int| 0 <= i < out@.len() ==> #[trigger] out@[i] == self@[self@.len() - 1 - i],
    {
        let held: usize = self.len();
        let n: usize = if count <= held {
            count
        } else {
            held
        };
        let mut out: Vec<T> = Vec::new();
        let mut i: usize = 0;
        while i < n
            invariant
                self.wf(),
                n <= self@.len(),
                i <= n,
                out@.len() == i,
                forall|j: int| 0 <= j < i ==> #[trigger] out@[j] == self@[self@.len() - 1 - j],
            decreases n - i,
        {
            out.push(*self.newest(i));
            i += 1;
        }
        out
    }
}

// ---------------------------------------------------------------------------
// Laws
// ---------------------------------------------------------------------------
/// All of `xs`, recorded one after the other behind `s`.
pub open spec fn recorded_all<T>(s: Seq<T>, xs: Seq<T>, capacity: nat) -> Seq<T>
    decreases xs.len(),
{
    if xs.len() == 0 {
        s
    } else {
        recorded(recorded_all(s, xs.drop_last(), capacity), xs.last(), capacity)
    }
}

/// A history holds exactly the last things that were recorded, as many as fit,
/// in the order in which they came.
pub proof fn law_history_holds_the_last<T>(xs: Seq<T>, capacity: nat)
    requires
        capacity > 0,
    ensures
        recorded_all(Seq::empty(), xs, capacity) == (if xs.len() <= capacity {
            xs
        } else {
            xs.skip(xs.len() - capacity)
        }),
    decreases xs.len(),
{
    if xs.len() > 0 {
        law_history_holds_the_last(xs.drop_last(), capacity);
        let held = recorded_all(Seq::empty(), xs.drop_last(), capacity);
        assert(recorded(held, xs.last(), capacity) =~= (if xs.len() <= capacity {
            xs
        } else {
            xs.skip(xs.len() - capacity)
        }));
    } else {
        assert(xs =~= Seq::empty());
    }
}

/// Recording puts a thing behind all others; where the history is full, the oldest
/// goes and every other moves up by one.
pub proof fn law_recording_moves_up<T>(s: Seq<T>, x: T, capacity: nat, i: int)
    requires
        0 < capacity,
        s.len() <= capacity,
        0 <= i < s.len(),
    ensures
        recorded(s, x, capacity).last() == x,
        s.len() < capacity ==> recorded(s, x, capacity).len() == s.len() + 1 && recorded(
            s,
            x,
            capacity,
        )[i] == s[i],
        s.len() == capacity ==> recorded(s, x, capacity).len() == capacity && (i > 0 ==> recorded(
            s,
            x,
            capacity,
        )[i - 1] == s[i]),
{
}

} // verus!
