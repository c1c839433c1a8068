//! Accounting of the disk space that cached resources may use.
//!
//! The pool holds the number of bytes still available. A reservation takes
//! bytes out of the pool; returning the reservation puts them back.
use vstd::prelude::*;

verus! {

/// The number of bytes that cached resources may still use.
pub struct CacheCapacityPool {
    available_capacity: u64,
}

/// A number of bytes taken out of a [`CacheCapacityPool`].
pub struct CacheCapacityReservation {
    reserved: u64,
}

impl View for CacheCapacityPool {
    type V = nat;

    closed spec fn view(&self) -> nat {
        self.available_capacity as nat
    }
}

impl View for CacheCapacityReservation {
    type V = nat;

    closed spec fn view(&self) -> nat {
        self.reserved as nat
    }
}

/// What remains of `available` bytes after reserving exactly `size` of them,
/// or `None` when fewer than `size` bytes are available.
pub open spec fn spec_reserve(available: nat, size: nat) -> Option<nat> {
    if size <= available {
        Some((available - size) as nat)
    } else {
        None
    }
}

/// How many of `available` bytes a request for at most `size` bytes gets.
pub open spec fn spec_reserve_up_to(available: nat, size: nat) -> nat {
    if size <= available {
        size
    } else {
        available
    }
}

impl CacheCapacityPool {
    /// A pool holding `capacity` bytes.
    pub fn new(capacity: u64) -> (pool: Self)
        ensures
            pool@ == capacity,
    {
        CacheCapacityPool { available_capacity: capacity }
    }

    /// The number of bytes still available.
    pub fn available_capacity(&self) -> (available: u64)
        ensures
            available == self@,
    {
        self.available_capacity
    }

    /// Takes exactly `size` bytes out of the pool, or nothing at all when
    /// fewer than `size` bytes are available.
    pub fn reserve(&mut self, size: u64) -> (reservation: Option<CacheCapacityReservation>)
        ensures
            reservation is Some <==> spec_reserve(old(self)@, size as nat) is Some,
            reservation is Some <==> size <= old(self)@,
            reservation matches Some(r) ==> r@ == size && final(self)@ + size == old(self)@,
            reservation matches Some(r) ==> r@ == size && final(self)@ == spec_reserve(
                old(self)@,
                size as nat,
            )->0,
            reservation is None ==> final(self)@ == old(self)@,
    {
        if size == 0 {
            return Some(CacheCapacityReservation { reserved: 0 });
        }
        match self.available_capacity.checked_sub(size) {
            Some(remaining_capacity) => {
                self.available_capacity = remaining_capacity;
                Some(CacheCapacityReservation { reserved: size })
            },
            None => None,
        }
    }

    /// Takes as many bytes as are available, up to `size`.
    pub fn reserve_up_to(&mut self, size: u64) -> (reservation: CacheCapacityReservation)
        ensures
            reservation@ == spec_reserve_up_to(old(self)@, size as nat),
            final(self)@ + reservation@ == old(self)@,
            size <= old(self)@ ==> reservation@ == size,
            size > old(self)@ ==> reservation@ == old(self)@,
    {
        if size == 0 {
            return CacheCapacityReservation { reserved: size };
        }
        let available_capacity = self.available_capacity;
        let remaining_capacity = available_capacity.saturating_sub(size);
        self.available_capacity = remaining_capacity;
        let reserved = available_capacity - remaining_capacity;
        CacheCapacityReservation { reserved }
    }
}

impl CacheCapacityReservation {
    /// The number of bytes this reservation holds.
    pub fn reserved(&self) -> (reserved: u64)
        ensures
            reserved == self@,
    {
        self.reserved
    }

    /// Puts the reserved bytes back into `pool`; the reservation then holds
    /// nothing.
    pub fn return_to_pool(&mut self, pool: &mut CacheCapacityPool)
        requires
            old(pool)@ + old(self)@ <= u64::MAX,
        ensures
            final(pool)@ == old(pool)@ + old(self)@,
            final(self)@ == 0,
    {
        if self.reserved == 0 {
            return;
        }
        pool.available_capacity = pool.available_capacity + self.reserved;
        self.reserved = 0;
    }
}

/// A reserve is met exactly when the pool has at least the bytes asked for,
/// and then takes exactly those; a reserve of at most `size` bytes takes
/// `size` bytes when the pool has them and everything it has otherwise.
pub proof fn lemma_reserve_outcomes(available: nat, size: nat)
    ensures
        spec_reserve(available, size) is Some <==> size <= available,
        spec_reserve(available, size) matches Some(rest) ==> rest + size == available,
        size <= available ==> spec_reserve_up_to(available, size) == size,
        size > available ==> spec_reserve_up_to(available, size) == available,
{
}

/// Reserving bytes and then returning the reservation leaves the pool as it
/// was, and the reservation empty.
pub proof fn lemma_reserve_then_return(available: nat, size: nat)
    requires
        spec_reserve(available, size) is Some,
    ensures
        spec_reserve(available, size)->0 + size == available,
{
}

/// Reserving never creates or loses bytes: what the pool keeps and what the
/// reservation holds add up to what the pool had, whether or not the full
/// request could be met.
pub proof fn lemma_reserve_up_to_conserves(available: nat, size: nat)
    ensures
        spec_reserve_up_to(available, size) <= size,
        spec_reserve_up_to(available, size) <= available,
        spec_reserve(available, size) is Some ==> spec_reserve_up_to(available, size) == size,
        spec_reserve(available, size) is None ==> spec_reserve_up_to(available, size)
            == available,
{
}

/// One operation on a pool and the reservations taken from it.
pub enum CapacityOp {
    /// [`CacheCapacityPool::reserve`] of this many bytes.
    Reserve(u64),
    /// [`CacheCapacityPool::reserve_up_to`] of this many bytes.
    ReserveUpTo(u64),
    /// [`CacheCapacityReservation::return_to_pool`] of the reservation
    /// taken at this position.
    Return(usize),
}

/// The bytes of a pool and of each reservation taken from it, in the order
/// taken, after one more operation: what the contracts of `reserve`,
/// `reserve_up_to` and `return_to_pool` say each does. A reserve that
/// cannot be met takes no reservation; a returned reservation holds
/// nothing afterwards.
pub open spec fn spec_capacity_step(state: (nat, Seq<nat>), op: CapacityOp) -> (nat, Seq<nat>) {
    let (available, held) = state;
    match op {
        CapacityOp::Reserve(size) => match spec_reserve(available, size as nat) {
            Some(rest) => (rest, held.push(size as nat)),
            None => state,
        },
        CapacityOp::ReserveUpTo(size) => {
            let taken = spec_reserve_up_to(available, size as nat);
            ((available - taken) as nat, held.push(taken))
        },
        CapacityOp::Return(i) => if i < held.len() {
            (available + held[i as int], held.update(i as int, 0))
        } else {
            state
        },
    }
}

/// The state after `ops`, one after the other, on a pool of `capacity`
/// bytes with no reservation taken yet.
pub open spec fn spec_capacity_run(capacity: nat, ops: Seq<CapacityOp>) -> (nat, Seq<nat>)
    decreases ops.len(),
{
    if ops.len() == 0 {
        (capacity, Seq::empty())
    } else {
        spec_capacity_step(spec_capacity_run(capacity, ops.drop_last()), ops.last())
    }
}

/// The bytes that reservations hold together.
pub open spec fn spec_total_held(held: Seq<nat>) -> nat
    decreases held.len(),
{
    if held.len() == 0 {
        0
    } else {
        spec_total_held(held.drop_last()) + held.last()
    }
}

/// Changing one reservation changes the total by the difference.
proof fn lemma_total_held_update(held: Seq<nat>, i: int, value: nat)
    requires
        0 <= i < held.len(),
    ensures
        spec_total_held(held.update(i, value)) + held[i] == spec_total_held(held) + value,
    decreases held.len(),
{
    let updated = held.update(i, value);
    if i == held.len() - 1 {
        assert(updated.drop_last() =~= held.drop_last());
    } else {
        assert(updated.drop_last() =~= held.drop_last().update(i, value));
        lemma_total_held_update(held.drop_last(), i, value);
    }
}

/// No reservation holds more than all of them together.
proof fn lemma_held_within_total(held: Seq<nat>, i: int)
    requires
        0 <= i < held.len(),
    ensures
        held[i] <= spec_total_held(held),
    decreases held.len(),
{
    if i < held.len() - 1 {
        lemma_held_within_total(held.drop_last(), i);
    }
}

/// Bytes are never created or lost: after any sequence of reservations and
/// returns on a pool of `capacity` bytes, what the pool has and what the
/// reservations hold add up to `capacity`. So neither the pool nor any
/// reservation ever exceeds `capacity`, and returning a reservation never
/// overflows the pool.
pub proof fn lemma_capacity_conserved(capacity: nat, ops: Seq<CapacityOp>)
    ensures
        ({
            let (available, held) = spec_capacity_run(capacity, ops);
            &&& available + spec_total_held(held) == capacity
            &&& available <= capacity
            &&& forall|i: int| 0 <= i < held.len() ==> available + #[trigger] held[i] <= capacity
        }),
    decreases ops.len(),
{
    if ops.len() > 0 {
        lemma_capacity_conserved(capacity, ops.drop_last());
        let (available, held) = spec_capacity_run(capacity, ops.drop_last());
        match ops.last() {
            CapacityOp::Reserve(size) => {
                if spec_reserve(available, size as nat) is Some {
                    assert(held.push(size as nat).drop_last() =~= held);
                }
            },
            CapacityOp::ReserveUpTo(size) => {
                let taken = spec_reserve_up_to(available, size as nat);
                assert(held.push(taken).drop_last() =~= held);
            },
            CapacityOp::Return(i) => {
                if i < held.len() {
                    lemma_total_held_update(held, i as int, 0);
                }
            },
        }
        let (after, after_held) = spec_capacity_run(capacity, ops);
        assert forall|i: int| 0 <= i < after_held.len() implies after + #[trigger] after_held[i]
            <= capacity by {
            lemma_held_within_total(after_held, i);
        }
    }
}

} // verus!
