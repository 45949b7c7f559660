//! Observability: bounded telemetry that never grows without limit, and a
//! health signal per model generation.

use vstd::prelude::*;

use std::collections::VecDeque;

use crate::types::VersionedId;

verus! {

/// Fixed-capacity ring buffer of samples; the oldest sample is dropped when full.
#[derive(Debug)]
pub struct Telemetry<S> {
    samples: VecDeque<S>,
    capacity: usize,
}

impl<S> Telemetry<S> {
    /// The samples held, from oldest to newest.
    pub closed spec fn held(&self) -> Seq<S> {
        self.samples@
    }

    /// The most samples held at once.
    pub closed spec fn limit(&self) -> usize {
        self.capacity
    }

    #[verifier::type_invariant]
    spec fn bounded(&self) -> bool {
        self.samples@.len() <= self.capacity
    }

    /// Creates a buffer that keeps the most recent `capacity` samples (none
    /// when `capacity` is zero).
    pub fn new(capacity: usize) -> (t: Self)
        ensures
            t.held() == Seq::<S>::empty(),
            t.limit() == capacity,
    {
        Telemetry { samples: VecDeque::with_capacity(capacity), capacity }
    }

    /// Records a sample after the others, dropping the oldest when full; a
    /// buffer of capacity zero keeps nothing.
    pub fn record(&mut self, sample: S)
        ensures
            old(self).held().len() <= old(self).limit(),
            final(self).limit() == old(self).limit(),
            final(self).held().len() <= final(self).limit(),
            final(self).held() == after_record(old(self).held(), old(self).limit() as nat, sample),
    {
        proof {
            use_type_invariant(&*self);
        }
        if self.capacity == 0 {
            return;
        }
        let mut q: VecDeque<S> = VecDeque::new();
        std::mem::swap(&mut q, &mut self.samples);
        if q.len() == self.capacity {
            let _ = q.pop_front();
        }
        q.push_back(sample);
        self.samples = q;
    }

    /// Samples from oldest to newest.
    pub fn samples(&self) -> (it: std::collections::vec_deque::Iter<'_, S>)
        ensures
            vstd::std_specs::iter::IteratorSpec::remaining(&it) == self.held().as_ref(),
            self.held().len() <= self.limit(),
    {
        proof {
            use_type_invariant(self);
        }
        self.samples.iter()
    }
}

/// The samples held after recording `sample` on top of `held`, with room for
/// `limit`.
pub open spec fn after_record<S>(held: Seq<S>, limit: nat, sample: S) -> Seq<S> {
    if limit == 0 {
        held
    } else if held.len() == limit {
        held.drop_first().push(sample)
    } else {
        held.push(sample)
    }
}

/// Recording keeps the most recent samples: the buffer holds the last
/// `limit` samples recorded (all of them while there are fewer, none when
/// `limit` is zero).
pub proof fn lemma_record_keeps_latest<S>(held: Seq<S>, limit: nat, sample: S)
    requires
        held.len() <= limit,
    ensures
        after_record(held, limit, sample).len() == (if held.len() + 1 <= limit {
            held.len() + 1
        } else {
            limit
        }),
        after_record(held, limit, sample) == held.push(sample).skip(
            held.push(sample).len() - after_record(held, limit, sample).len(),
        ),
{
    if limit == 0 {
        assert(held.push(sample).skip(1) =~= held);
    } else if held.len() == limit {
        assert(held.drop_first().push(sample) =~= held.push(sample).skip(1));
    } else {
        assert(held.push(sample) =~= held.push(sample).skip(0));
    }
}

/// Health of one model generation.
#[derive(Debug, Clone, Copy, PartialEq, Eq, Structural)]
pub enum Health {
    /// Serving normally.
    Healthy,
    /// Serving, but degraded (e.g. missing deadlines).
    Degraded,
    /// Not serving; should be torn down.
    Failed,
}

/// Health signal for a model generation.
#[derive(Debug, Clone, PartialEq, Eq)]
pub struct GenerationHealth {
    /// Generation being described.
    pub generation: VersionedId,
    /// Current health.
    pub health: Health,
}

} // verus!
