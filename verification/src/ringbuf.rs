//! A buffer of fixed capacity that keeps the elements pushed last.
use vstd::prelude::*;

verus! {

pub struct RingBuf<T> {
    slots: Vec<Option<T>>,
    cursor: usize,
}

/// The last `capacity` elements of `pushed`, or all of them if there are fewer.
pub open spec fn latest<T>(pushed: Seq<T>, capacity: nat) -> Seq<T> {
    if pushed.len() <= capacity {
        pushed
    } else {
        pushed.skip(pushed.len() - capacity)
    }
}

impl<T> View for RingBuf<T> {
    type V = Seq<T>;

    /// The elements in the buffer, the oldest first.
    closed spec fn view(&self) -> Seq<T> {
        if self.full() {
            self.held().skip(self.cursor as int) + self.held().take(self.cursor as int)
        } else {
            self.held()
        }
    }
}

impl<T> RingBuf<T> {
    /// How many elements the buffer can hold.
    pub closed spec fn capacity(self) -> nat {
        self.slots@.len()
    }

    /// Whether each slot holds an element.
    spec fn full(self) -> bool {
        self.slots@.len() > 0 && self.slots@[self.slots@.len() - 1] is Some
    }

    /// The slot that the next element goes to.
    pub closed spec fn next_slot(self) -> int {
        self.cursor as int
    }

    /// The elements in the order of their slots: those of a full buffer start with the one that is
    /// in the first slot, which need not be the oldest.
    pub open spec fn in_slots(self) -> Seq<T> {
        if self@.len() < self.capacity() {
            self@
        } else {
            let split = self.capacity() - self.next_slot();
            self@.skip(split) + self@.take(split)
        }
    }

    spec fn held(self) -> Seq<T> {
        Seq::new(
            if self.full() {
                self.slots@.len()
            } else {
                self.cursor as nat
            },
            |i: int| self.slots@[i]->0,
        )
    }

    /// The slots fill up from the first one on, and from then on all stay filled.
    pub closed spec fn wf(self) -> bool {
        &&& self.cursor < self.slots@.len() || (self.cursor == 0 && self.slots@.len() == 0)
        &&& forall|i: int|
            0 <= i < self.slots@.len() ==> (#[trigger] self.slots@[i] is Some <==> self.full() || i
                < self.cursor)
    }

    /// An empty buffer for `capacity` elements.
    pub fn new(capacity: usize) -> (buf: Self)
        ensures
            buf.wf(),
            buf.capacity() == capacity,
            buf@ == Seq::<T>::empty(),
            buf.next_slot() == 0,
    {
        let mut slots: Vec<Option<T>> = Vec::new();
        let mut i: usize = 0;
        while i < capacity
            invariant
                i <= capacity,
                slots@.len() == i,
                forall|j: int| 0 <= j < i ==> (#[trigger] slots@[j]) is None,
            decreases capacity - i,
        {
            slots.push(None);
            i += 1;
        }
        RingBuf { slots, cursor: 0 }
    }

    /// Adds an element. A full buffer gives up its oldest element for it.
    pub fn push(&mut self, elem: T) -> (evicted: Option<T>)
        requires
            old(self).wf(),
            old(self).capacity() > 0,
        ensures
            final(self).wf(),
            final(self).capacity() == old(self).capacity(),
            final(self)@ == latest(old(self)@.push(elem), old(self).capacity()),
            evicted == if old(self)@.len() == old(self).capacity() {
                Some(old(self)@[0])
            } else {
                None
            },
            final(self).next_slot() == (old(self).next_slot() + 1) % (old(self).capacity() as int),
    {
        let cursor = self.cursor;
        let len = self.slots.len();
        let mut slot = Some(elem);
        std::mem::swap(&mut self.slots[cursor], &mut slot);
        self.cursor = (cursor + 1) % len;
        proof {
            let before = *old(self);
            assert(self.slots@ == before.slots@.update(cursor as int, Some(elem)));
            if cursor + 1 == len {
                vstd::arithmetic::div_mod::lemma_mod_self_0(len as int);
            } else {
                vstd::arithmetic::div_mod::lemma_small_mod((cursor + 1) as nat, len as nat);
            }
            assert(self.full() == (before.full() || cursor + 1 == len));
            if before.full() {
                assert(self@ =~= before@.push(elem).skip(1));
            } else {
                assert(before@ == before.held());
                assert(self@ =~= before@.push(elem));
            }
        }
        slot
    }

    /// The elements in the order of their slots.
    pub fn iter(&self) -> (elems: Vec<&T>)
        requires
            self.wf(),
        ensures
            elems@.len() == self.in_slots().len(),
            forall|i: int| 0 <= i < elems@.len() ==> *(#[trigger] elems@[i]) == self.in_slots()[i],
    {
        let mut elems: Vec<&T> = Vec::new();
        let mut i: usize = 0;
        while i < self.slots.len()
            invariant
                self.wf(),
                i <= self.slots@.len(),
                elems@.len() == i,
                i <= self.held().len(),
                forall|j: int| 0 <= j < i ==> *(#[trigger] elems@[j]) == self.held()[j],
            ensures
                i == self.held().len(),
            decreases self.slots@.len() - i,
        {
            match &self.slots[i] {
                Some(elem) => elems.push(elem),
                None => break,
            }
            i += 1;
        }
        assert(self.in_slots() =~= self.held());
        elems
    }
}

/// What a buffer of the given capacity holds once the elements of `pushed` were pushed in turn.
pub open spec fn after_pushes<T>(pushed: Seq<T>, capacity: nat) -> Seq<T>
    decreases pushed.len(),
{
    if pushed.len() == 0 {
        Seq::empty()
    } else {
        latest(after_pushes(pushed.drop_last(), capacity).push(pushed.last()), capacity)
    }
}

/// The slot that the next element goes to after a number of pushes.
pub open spec fn slot_after(pushes: nat, capacity: nat) -> int
    decreases pushes,
{
    if pushes == 0 {
        0
    } else {
        (slot_after((pushes - 1) as nat, capacity) + 1) % (capacity as int)
    }
}

/// However many elements are pushed, the buffer holds the last ones, in the order in which they
/// came, and as many as fit.
pub proof fn law_keeps_the_latest<T>(pushed: Seq<T>, capacity: nat)
    requires
        capacity > 0,
    ensures
        after_pushes(pushed, capacity) == latest(pushed, capacity),
    decreases pushed.len(),
{
    if pushed.len() > 0 {
        law_keeps_the_latest(pushed.drop_last(), capacity);
        assert(after_pushes(pushed, capacity) =~= latest(pushed, capacity));
    } else {
        assert(pushed =~= Seq::empty());
    }
}

/// The slots are filled in turn, over and over.
pub proof fn law_slots_take_turns(pushes: nat, capacity: nat)
    requires
        capacity > 0,
    ensures
        slot_after(pushes, capacity) == pushes as int % capacity as int,
    decreases pushes,
{
    if pushes > 0 {
        law_slots_take_turns((pushes - 1) as nat, capacity);
        vstd::arithmetic::div_mod::lemma_add_mod_noop(
            (pushes - 1) as int,
            1,
            capacity as int,
        );
        vstd::arithmetic::div_mod::lemma_add_mod_noop(
            (pushes - 1) as int % capacity as int,
            1,
            capacity as int,
        );
        vstd::arithmetic::div_mod::lemma_mod_twice((pushes - 1) as int, capacity as int);
    } else {
        vstd::arithmetic::div_mod::lemma_small_mod(0, capacity);
    }
}

/// A buffer that is not full gives nothing up, and one that is gives up what was pushed exactly
/// `capacity` pushes before.
pub proof fn law_evicts_the_oldest<T>(pushed: Seq<T>, capacity: nat)
    requires
        capacity > 0,
    ensures
        after_pushes(pushed, capacity).len() == capacity <==> pushed.len() >= capacity,
        pushed.len() >= capacity ==> after_pushes(pushed, capacity)[0] == pushed[pushed.len()
            - capacity],
{
    law_keeps_the_latest(pushed, capacity);
}

/// The elements of a buffer are the last ones that were pushed, as many as fit, each at its place.
pub proof fn law_elements_are_the_last_pushed<T>(pushed: Seq<T>, capacity: nat)
    requires
        capacity > 0,
    ensures
        after_pushes(pushed, capacity).len() == if pushed.len() < capacity {
            pushed.len()
        } else {
            capacity
        },
        forall|i: int|
            0 <= i < after_pushes(pushed, capacity).len() ==> #[trigger] after_pushes(
                pushed,
                capacity,
            )[i] == pushed[pushed.len() - after_pushes(pushed, capacity).len() + i],
    decreases pushed.len(),
{
    if pushed.len() > 0 {
        law_elements_are_the_last_pushed(pushed.drop_last(), capacity);
    }
}

} // verus!
