//! The pool of permits in front of the map service: a fixed number of them, one for
//! each fetch that may run at a time.
//!
//! The pool counts; it does not wait. Whoever gets no permit waits outside
//! and asks again when a permit has come back.

use vstd::prelude::*;

verus! {

/// A pool of `capacity` permits, of which `in_use` are handed out.
#[derive(Debug)]
pub struct FetchGate {
    capacity: usize,
    in_use: usize,
}

/// What can be asked of a pool.
#[derive(Debug, Clone, Copy, PartialEq, Eq, Structural)]
pub enum GateEvent {
    /// Someone asks for a permit.
    Acquire,
    /// Someone gives a permit back.
    Release,
}

/// The number of permits in use after `event`, at a pool of `capacity`
/// permits with `in_use` of them handed out: a permit is given only while
/// one is left, and only a permit that is out comes back.
pub open spec fn gate_after(capacity: nat, in_use: nat, event: GateEvent) -> nat {
    match event {
        GateEvent::Acquire => if in_use < capacity {
            in_use + 1
        } else {
            in_use
        },
        GateEvent::Release => if in_use > 0 {
            (in_use - 1) as nat
        } else {
            in_use
        },
    }
}

/// The number of permits in use after `events`, at a pool that had all its
/// permits.
pub open spec fn gate_after_all(capacity: nat, events: Seq<GateEvent>) -> nat
    decreases events.len(),
{
    if events.len() == 0 {
        0
    } else {
        gate_after(capacity, gate_after_all(capacity, events.drop_last()), events.last())
    }
}

/// Whatever the capacity and however many ask at once, and at whatever
/// point of the sequence one looks, no more permits are in use than the
/// pool has.
pub proof fn lemma_gate_never_exceeds(capacity: nat, events: Seq<GateEvent>, upto: int)
    requires
        0 <= upto <= events.len(),
    ensures
        gate_after_all(capacity, events.take(upto)) <= capacity,
    decreases upto,
{
    if upto > 0 {
        lemma_gate_never_exceeds(capacity, events, upto - 1);
        assert(events.take(upto).drop_last() =~= events.take(upto - 1));
    }
}

impl FetchGate {
    #[verifier::type_invariant]
    spec fn within_capacity(self) -> bool {
        self.in_use <= self.capacity
    }

    /// The number of permits that the pool has.
    pub closed spec fn capacity(self) -> nat {
        self.capacity as nat
    }

    /// The number of permits that are handed out.
    pub closed spec fn in_use(self) -> nat {
        self.in_use as nat
    }

    /// A pool with `capacity` permits, none of them in use.
    pub fn new(capacity: usize) -> (gate: FetchGate)
        ensures
            gate.capacity() == capacity,
            gate.in_use() == 0,
    {
        FetchGate { capacity, in_use: 0 }
    }

    /// The number of permits that the pool has.
    pub fn permits(&self) -> (n: usize)
        ensures
            n == self.capacity(),
    {
        self.capacity
    }

    /// The number of permits that are handed out: never more than the pool
    /// has.
    pub fn permits_in_use(&self) -> (n: usize)
        ensures
            n == self.in_use(),
            n <= self.capacity(),
    {
        proof {
            use_type_invariant(self);
        }
        self.in_use
    }

    /// The number of permits that are left.
    pub fn available(&self) -> (n: usize)
        ensures
            n == self.capacity() - self.in_use(),
    {
        proof {
            use_type_invariant(self);
        }
        self.capacity - self.in_use
    }

    /// Hands out a permit if one is left, and says whether it did.
    pub fn try_acquire(&mut self) -> (granted: bool)
        ensures
            granted == (old(self).in_use() < old(self).capacity()),
            final(self).capacity() == old(self).capacity(),
            final(self).in_use() == gate_after(
                old(self).capacity(),
                old(self).in_use(),
                GateEvent::Acquire,
            ),
            final(self).in_use() <= final(self).capacity(),
    {
        proof {
            use_type_invariant(&*self);
        }
        if self.in_use < self.capacity {
            self.in_use = self.in_use + 1;
            true
        } else {
            false
        }
    }

    /// Takes a permit back. Where none is out, nothing changes.
    pub fn release(&mut self)
        ensures
            final(self).capacity() == old(self).capacity(),
            final(self).in_use() == gate_after(
                old(self).capacity(),
                old(self).in_use(),
                GateEvent::Release,
            ),
            final(self).in_use() <= final(self).capacity(),
    {
        proof {
            use_type_invariant(&*self);
        }
        if self.in_use > 0 {
            self.in_use = self.in_use - 1;
        }
    }
}

} // verus!
