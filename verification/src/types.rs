//! Foundational vocabulary: versioned identities, units, quantities, digests,
//! records and the shared error type.

use vstd::prelude::*;

use crate::text::{decimal, hex, decimal_string, hex_string};

verus! {

/// A stable, human-readable name paired with a monotonically increasing version.
#[derive(Debug, Hash)]
pub struct VersionedId {
    /// Stable name of the entity.
    pub name: String,
    /// Version of the entity; bumps whenever its definition changes.
    pub version: u64,
}

impl View for VersionedId {
    type V = (Seq<char>, u64);

    open spec fn view(&self) -> (Seq<char>, u64) {
        (self.name@, self.version)
    }
}

impl VersionedId {
    /// Creates a new identity at the given version.
    pub fn new(name: &str, version: u64) -> (id: Self)
        ensures
            id.name@ == name@,
            id.version == version,
    {
        VersionedId { name: name.to_owned(), version }
    }

    /// The text `name@version`.
    pub fn to_string(&self) -> (s: String)
        ensures
            s@ == self.name@ + "@"@ + decimal(self.version as nat),
    {
        let mut s = self.name.clone();
        s.append("@");
        let v = decimal_string(self.version);
        s.append(v.as_str());
        s
    }
}

impl Clone for VersionedId {
    fn clone(&self) -> (r: Self)
        ensures
            r == *self,
    {
        VersionedId { name: self.name.clone(), version: self.version }
    }
}

impl PartialEq for VersionedId {
    fn eq(&self, other: &Self) -> (r: bool) {
        self.version == other.version && self.name == other.name
    }
}

impl vstd::std_specs::cmp::PartialEqSpecImpl for VersionedId {
    open spec fn obeys_eq_spec() -> bool {
        true
    }

    open spec fn eq_spec(&self, other: &Self) -> bool {
        self@ == other@
    }
}

impl Eq for VersionedId {}

/// Units in which quantities are measured throughout the engine.
#[derive(Debug, Clone, Copy, PartialEq, Eq, Hash, Structural)]
pub enum Unit {
    /// Model tokens.
    Tokens,
    /// Raw bytes.
    Bytes,
    /// Microseconds of wall-clock time.
    Micros,
}

/// A quantity with an attached unit.
#[derive(Debug, Clone, Copy, PartialEq, Eq, Hash, Structural)]
pub struct Quantity {
    /// Magnitude of the quantity.
    pub value: u64,
    /// Unit the magnitude is expressed in.
    pub unit: Unit,
}

/// Content digest (32 bytes).
#[derive(Debug, Clone, Copy, Default, Hash)]
pub struct Digest(pub [u8; 32]);

impl PartialEq for Digest {
    fn eq(&self, other: &Self) -> (r: bool) {
        let mut i: usize = 0;
        while i < 32
            invariant
                i <= 32,
                forall|j: int| 0 <= j < i ==> self.0[j] == other.0[j],
            decreases 32 - i,
        {
            if self.0[i] != other.0[i] {
                return false;
            }
            i = i + 1;
        }
        assert(self.0 =~= other.0);
        true
    }
}

impl vstd::std_specs::cmp::PartialEqSpecImpl for Digest {
    open spec fn obeys_eq_spec() -> bool {
        true
    }

    open spec fn eq_spec(&self, other: &Self) -> bool {
        *self == *other
    }
}

impl Eq for Digest {}

impl Digest {
    /// Every byte of the digest is zero.
    pub open spec fn is_zero(&self) -> bool {
        forall|i: int| 0 <= i < 32 ==> self.0[i] == 0
    }

    /// The all-zero digest, used as a placeholder before hashing is wired in.
    pub fn zero() -> (d: Digest)
        ensures
            d.is_zero(),
    {
        Digest([0u8; 32])
    }

    /// The text `Digest(` followed by the 64 lower-case hexadecimal digits of
    /// the bytes and `)`.
    pub fn to_debug_string(&self) -> (s: String)
        ensures
            s@ == "Digest("@ + hex(self.0@) + ")"@,
    {
        let mut s = "Digest(".to_owned();
        let h = hex_string(self.0.as_slice());
        s.append(h.as_str());
        s.append(")");
        s
    }
}

/// An immutable, digest-addressed record of some payload.
#[derive(Debug, Clone, PartialEq, Eq)]
pub struct Record<T> {
    /// Identity of the record's schema.
    pub id: VersionedId,
    /// Digest of the serialized payload.
    pub digest: Digest,
    /// The payload itself.
    pub payload: T,
}

/// Result alias using the shared [`Error`].
pub type Result<T, E = Error> = std::result::Result<T, E>;

/// Shared error type.
#[derive(Debug, Clone, PartialEq, Eq)]
pub enum Error {
    /// A version mismatch between two identities that were expected to agree.
    VersionMismatch {
        /// Version that was expected.
        expected: VersionedId,
        /// Version that was found.
        found: VersionedId,
    },
    /// A bounded resource had no capacity left.
    CapacityExceeded(String),
    /// Functionality that is declared but not yet implemented.
    NotImplemented(&'static str),
    /// Any other error, by its message.
    Other(String),
}

} // verus!
