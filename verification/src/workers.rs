//! Contract for model workers, whatever language they are written in: a worker
//! proposes execution variants, the runtime prepares one, and the worker
//! reports a completion event that the runtime verifies.

use vstd::prelude::*;

use crate::types::{Digest, Error, VersionedId};

verus! {

/// The technology a worker is implemented in.
#[derive(Debug, Clone, Copy, PartialEq, Eq, Hash, Structural)]
pub enum WorkerKind {
    /// Pure Python adapter.
    Python,
    /// Native C++ worker.
    Native,
    /// CUDA kernels driven from a native worker.
    Cuda,
    /// Triton kernels driven from a Python worker.
    Triton,
}

/// A worker's proposal for executing a batch with a given model adapter.
#[derive(Debug, Clone, PartialEq, Eq)]
pub struct Proposal {
    /// Model adapter the proposal is for.
    pub adapter: VersionedId,
    /// Execution variants the worker can run, in order of preference.
    pub variants: Vec<PreparedVariant>,
}

/// One concrete way of executing a batch.
#[derive(Debug, Clone, PartialEq, Eq)]
pub struct PreparedVariant {
    /// Identity of the variant (kernel set, precision, layout, ...).
    pub id: VersionedId,
    /// Which worker technology executes it.
    pub kind: WorkerKind,
    /// Digest of the compiled/prepared artifact, once prepared.
    pub artifact: Option<Digest>,
}

/// Reported by a worker when execution finishes.
#[derive(Debug, Clone, PartialEq, Eq)]
pub struct CompletionEvent {
    /// Variant that was executed.
    pub variant: VersionedId,
    /// Digest of the produced outputs.
    pub output: Digest,
    /// Whether the runtime has verified the event against its expectations.
    pub verified: bool,
}

/// Marks a completion event as verified once its output matches the expected
/// digest, when one is expected; a mismatch is reported as a version mismatch
/// naming the event's variant on both sides.
pub fn verify(event: CompletionEvent, expected: Option<Digest>) -> (r: Result<CompletionEvent, Error>)
    ensures
        (expected matches Some(d) && d != event.output) ==> r == Err::<CompletionEvent, Error>(
            Error::VersionMismatch { expected: event.variant, found: event.variant },
        ),
        !(expected matches Some(d) && d != event.output) ==> r == Ok::<CompletionEvent, Error>(
            CompletionEvent { variant: event.variant, output: event.output, verified: true },
        ),
{
    match expected {
        Some(digest) => {
            if digest != event.output {
                return Err(Error::VersionMismatch { expected: event.variant.clone(), found: event.variant });
            }
        },
        None => {},
    }
    Ok(CompletionEvent { verified: true, ..event })
}

/// A worker that accepts everything and does nothing; useful for wiring tests.
#[derive(Debug, Default)]
pub struct NullWorker;

impl NullWorker {
    /// Technology of this worker: native.
    pub fn kind(&self) -> (k: WorkerKind)
        ensures
            k == WorkerKind::Native,
    {
        WorkerKind::Native
    }

    /// Proposes, for `adapter`, the single unprepared native variant `null@1`.
    pub fn propose(&self, adapter: &VersionedId) -> (r: Result<Proposal, Error>)
        ensures
            r matches Ok(p) && p.adapter == *adapter && p.variants@.len() == 1 && p.variants@[0].id@ == (
                "null"@,
                1u64,
            ) && p.variants@[0].kind == WorkerKind::Native && p.variants@[0].artifact is None,
    {
        let mut variants: Vec<PreparedVariant> = Vec::new();
        variants.push(PreparedVariant { id: VersionedId::new("null", 1), kind: WorkerKind::Native, artifact: None });
        Ok(Proposal { adapter: adapter.clone(), variants })
    }

    /// Prepares `variant` by giving it the all-zero artifact digest.
    pub fn prepare(&self, variant: PreparedVariant) -> (r: Result<PreparedVariant, Error>)
        ensures
            r matches Ok(v) && v.id == variant.id && v.kind == variant.kind && (v.artifact matches Some(d)
                && d.is_zero()),
    {
        Ok(PreparedVariant { artifact: Some(Digest::zero()), ..variant })
    }

    /// Reports an unverified completion of `variant` with the all-zero output.
    pub fn complete(&self, variant: &PreparedVariant) -> (r: Result<CompletionEvent, Error>)
        ensures
            r matches Ok(e) && e.variant == variant.id && e.output.is_zero() && !e.verified,
    {
        Ok(CompletionEvent { variant: variant.id.clone(), output: Digest::zero(), verified: false })
    }
}

} // verus!
