//! Memory management for state bundles: capacity reservations, pins that keep
//! bundles resident, and reclamation when capacity runs low.

use vstd::prelude::*;

use crate::state::Bundle;
use crate::text::{decimal, decimal_string};
use crate::types::{Digest, Error, Quantity, Unit};

verus! {

/// A promise of capacity handed out before a bundle is materialized.
#[derive(Debug, Clone, PartialEq, Eq, Structural)]
pub struct Reservation {
    /// Identifier of the reservation.
    pub id: u64,
    /// Amount reserved.
    pub amount: Quantity,
}

/// Keeps a bundle resident until dropped or released.
#[derive(Debug, Clone, PartialEq, Eq)]
pub struct Pin {
    /// Digest of the pinned bundle.
    pub digest: Digest,
}

/// Cache accounting.
#[derive(Debug, Clone, Copy, Default, PartialEq, Eq, Structural)]
pub struct CacheStats {
    /// Bytes currently resident.
    pub resident_bytes: u64,
    /// Bytes currently reserved but not yet resident.
    pub reserved_bytes: u64,
    /// Number of cache hits served.
    pub hits: u64,
    /// Number of cache misses.
    pub misses: u64,
}

/// Chooses bundles to evict when capacity is exhausted.
pub trait Reclaimer {
    /// Returns digests to evict, in order, to free at least `needed`.
    fn reclaim(&mut self, needed: Quantity) -> Vec<Digest>;
}

/// The message of a refused reservation.
pub open spec fn refusal_message(requested: u64, available: int) -> Seq<char> {
    decimal(requested as nat) + " bytes requested, "@ + decimal(available as nat) + " available"@
}

/// Memory manager: tracks capacity and reservations; does not yet store bundles.
#[derive(Debug)]
pub struct MemoryManager {
    capacity_bytes: u64,
    stats: CacheStats,
    next_reservation: u64,
}

impl MemoryManager {
    /// The byte budget.
    pub closed spec fn capacity(&self) -> u64 {
        self.capacity_bytes
    }

    /// Current accounting.
    pub closed spec fn current(&self) -> CacheStats {
        self.stats
    }

    /// Number of reservations handed out so far; the last one has this id.
    pub closed spec fn issued(&self) -> u64 {
        self.next_reservation
    }

    #[verifier::type_invariant]
    spec fn within_budget(&self) -> bool {
        self.stats.resident_bytes + self.stats.reserved_bytes <= self.capacity_bytes
    }

    /// Creates a manager with a fixed byte budget, nothing reserved or resident.
    pub fn new(capacity_bytes: u64) -> (m: Self)
        ensures
            m.capacity() == capacity_bytes,
            m.current() == (CacheStats { resident_bytes: 0, reserved_bytes: 0, hits: 0, misses: 0 }),
            m.issued() == 0,
    {
        MemoryManager {
            capacity_bytes,
            stats: CacheStats { resident_bytes: 0, reserved_bytes: 0, hits: 0, misses: 0 },
            next_reservation: 0,
        }
    }

    /// Reserves capacity for a future bundle. It succeeds exactly when the
    /// bytes resident, reserved and requested fit in the budget (counted
    /// without overflow, so a request of any size is answered); the
    /// reservation then has the next id. A refusal changes nothing.
    pub fn reserve(&mut self, bytes: u64) -> (r: Result<Reservation, Error>)
        requires
            old(self).current().resident_bytes + old(self).current().reserved_bytes + bytes
                <= old(self).capacity() ==> old(self).issued() < u64::MAX,
        ensures
            final(self).capacity() == old(self).capacity(),
            final(self).current().resident_bytes + final(self).current().reserved_bytes
                <= final(self).capacity(),
            ({
                let in_use = old(self).current().resident_bytes + old(self).current().reserved_bytes;
                if in_use + bytes > old(self).capacity() {
                    &&& r matches Err(Error::CapacityExceeded(msg))
                    &&& msg@ == refusal_message(bytes, old(self).capacity() - in_use)
                    &&& final(self).current() == old(self).current()
                    &&& final(self).issued() == old(self).issued()
                } else {
                    &&& r == Ok::<Reservation, Error>(
                        Reservation {
                            id: (old(self).issued() + 1) as u64,
                            amount: Quantity { value: bytes, unit: Unit::Bytes },
                        },
                    )
                    &&& final(self).current() == (CacheStats {
                        reserved_bytes: (old(self).current().reserved_bytes + bytes) as u64,
                        ..old(self).current()
                    })
                    &&& final(self).issued() == old(self).issued() + 1
                }
            }),
    {
        proof {
            use_type_invariant(&*self);
        }
        let in_use = self.stats.resident_bytes + self.stats.reserved_bytes;
        let available = self.capacity_bytes - in_use;
        if bytes > available {
            let mut msg = decimal_string(bytes);
            msg.append(" bytes requested, ");
            let avail = decimal_string(available);
            msg.append(avail.as_str());
            msg.append(" available");
            return Err(Error::CapacityExceeded(msg));
        }
        self.stats.reserved_bytes = self.stats.reserved_bytes + bytes;
        self.next_reservation = self.next_reservation + 1;
        Ok(Reservation { id: self.next_reservation, amount: Quantity { value: bytes, unit: Unit::Bytes } })
    }

    /// Materializes a bundle against a reservation and pins it. Not yet
    /// implemented: always fails, changing nothing.
    pub fn commit(&mut self, _reservation: Reservation, _bundle: Bundle) -> (r: Result<Pin, Error>)
        ensures
            r == Err::<Pin, Error>(Error::NotImplemented("MemoryManager::commit")),
            final(self).capacity() == old(self).capacity(),
            final(self).current() == old(self).current(),
            final(self).issued() == old(self).issued(),
    {
        Err(Error::NotImplemented("MemoryManager::commit"))
    }

    /// Current accounting; resident and reserved bytes never exceed the budget.
    pub fn stats(&self) -> (s: CacheStats)
        ensures
            s == self.current(),
            s.resident_bytes + s.reserved_bytes <= self.capacity(),
    {
        proof {
            use_type_invariant(self);
        }
        self.stats
    }
}

} // verus!
