//! Versioned protocol messages: what crosses component boundaries.

use vstd::prelude::*;

use crate::types::{Digest, Error, VersionedId};

verus! {

/// Protocol version negotiated between peers.
#[derive(Debug, Clone, Copy, PartialEq, Eq, PartialOrd, Ord, Hash, Structural)]
pub struct ProtocolVersion(pub u32);

impl ProtocolVersion {
    /// The version this crate speaks: 1.
    pub fn current() -> (v: ProtocolVersion)
        ensures
            v.0 == 1,
    {
        ProtocolVersion(1)
    }
}

/// Categories of messages carried by the protocol.
#[derive(Debug, Clone, Copy, PartialEq, Eq, Hash, Structural)]
pub enum MessageKind {
    /// A request expecting a response.
    Request,
    /// A response to an earlier request.
    Response,
    /// A fire-and-forget event.
    Event,
}

/// A single protocol message.
#[derive(Debug, Clone, PartialEq, Eq)]
pub struct Message {
    /// Protocol version the message was encoded with.
    pub version: ProtocolVersion,
    /// Identity of the message schema.
    pub id: VersionedId,
    /// Category of the message.
    pub kind: MessageKind,
    /// Digest of `payload`.
    pub digest: Digest,
    /// Opaque, schema-specific payload.
    pub payload: Vec<u8>,
}

impl Message {
    /// Validates that the message was produced by the current protocol
    /// version; otherwise reports `protocol@1` expected and
    /// `protocol@<version>` found.
    pub fn check_version(&self) -> (r: Result<(), Error>)
        ensures
            self.version.0 == 1 ==> r == Ok::<(), Error>(()),
            self.version.0 != 1 ==> (r matches Err(Error::VersionMismatch { expected, found }) && expected@
                == ("protocol"@, 1u64) && found@ == ("protocol"@, self.version.0 as u64)),
    {
        let current = ProtocolVersion::current();
        if self.version.0 == current.0 {
            Ok(())
        } else {
            Err(
                Error::VersionMismatch {
                    expected: VersionedId::new("protocol", current.0 as u64),
                    found: VersionedId::new("protocol", self.version.0 as u64),
                },
            )
        }
    }
}

} // verus!
