//! Pipelines: an ordered, bounded sequence of [`Stage`]s, each consuming
//! artifacts from the registry and producing new ones.

use vstd::prelude::*;

use crate::registry::ArtifactRef;
use crate::text::{decimal, with_decimal};
use crate::types::{Error, VersionedId};

verus! {

/// One processing step.
#[derive(Debug, PartialEq, Eq)]
pub struct Stage {
    /// Identity of the stage implementation.
    pub id: VersionedId,
    /// Artifacts the stage requires as input.
    pub inputs: Vec<ArtifactRef>,
    /// Maximum number of items the stage may hold in flight.
    pub bound: usize,
}

/// The contents of a [`Stage`].
pub struct StageView {
    /// Identity of the stage implementation.
    pub id: (Seq<char>, u64),
    /// Artifacts the stage requires as input, in order.
    pub inputs: Seq<ArtifactRef>,
    /// Maximum number of items the stage may hold in flight.
    pub bound: usize,
}

impl View for Stage {
    type V = StageView;

    open spec fn view(&self) -> StageView {
        StageView { id: self.id@, inputs: self.inputs@, bound: self.bound }
    }
}

impl Clone for Stage {
    fn clone(&self) -> (r: Self)
        ensures
            r@ == self@,
    {
        let inputs = self.inputs.clone();
        assert(inputs@ =~= self.inputs@);
        Stage { id: self.id.clone(), inputs, bound: self.bound }
    }
}

/// The contents of each stage of `stages`, in order.
pub open spec fn stage_views(stages: Seq<Stage>) -> Seq<StageView> {
    stages.map_values(|s: Stage| s@)
}

/// A bounded sequence of stages.
#[derive(Debug, PartialEq, Eq)]
pub struct Pipeline {
    stages: Vec<Stage>,
    max_stages: usize,
}

impl Clone for Pipeline {
    fn clone(&self) -> (r: Self)
        ensures
            stage_views(r.stages_spec()) == stage_views(self.stages_spec()),
            r.max() == self.max(),
    {
        proof {
            use_type_invariant(self);
        }
        let mut stages: Vec<Stage> = Vec::new();
        let mut i: usize = 0;
        while i < self.stages.len()
            invariant
                i <= self.stages@.len(),
                stages@.len() == i,
                forall|j: int| 0 <= j < i ==> #[trigger] stages@[j]@ == self.stages@[j]@,
            decreases self.stages@.len() - i,
        {
            stages.push(self.stages[i].clone());
            i = i + 1;
        }
        assert(stage_views(stages@) =~= stage_views(self.stages@));
        Pipeline { stages, max_stages: self.max_stages }
    }
}

impl Pipeline {
    /// Stages in execution order.
    pub closed spec fn stages_spec(&self) -> Seq<Stage> {
        self.stages@
    }

    /// The most stages the pipeline accepts.
    pub closed spec fn max(&self) -> usize {
        self.max_stages
    }

    #[verifier::type_invariant]
    spec fn bounded(&self) -> bool {
        self.stages@.len() <= self.max_stages
    }

    /// Creates an empty pipeline that accepts at most `max_stages` stages.
    pub fn new(max_stages: usize) -> (p: Self)
        ensures
            p.stages_spec() == Seq::<Stage>::empty(),
            p.max() == max_stages,
    {
        Pipeline { stages: Vec::new(), max_stages }
    }

    /// Appends a stage; fails, changing nothing, when the pipeline is full.
    pub fn push(&mut self, stage: Stage) -> (r: Result<(), Error>)
        ensures
            final(self).max() == old(self).max(),
            final(self).stages_spec().len() <= final(self).max(),
            old(self).stages_spec().len() < old(self).max() ==> {
                &&& r == Ok::<(), Error>(())
                &&& final(self).stages_spec() == old(self).stages_spec().push(stage)
            },
            old(self).stages_spec().len() >= old(self).max() ==> {
                &&& r matches Err(Error::CapacityExceeded(msg))
                &&& msg@ == "pipeline of "@ + decimal(old(self).max() as nat) + " stages"@
                &&& final(self).stages_spec() == old(self).stages_spec()
            },
    {
        proof {
            use_type_invariant(&*self);
        }
        if self.stages.len() >= self.max_stages {
            let mut msg = with_decimal("pipeline of ", self.max_stages as u64);
            msg.append(" stages");
            return Err(Error::CapacityExceeded(msg));
        }
        let mut v: Vec<Stage> = Vec::new();
        std::mem::swap(&mut v, &mut self.stages);
        v.push(stage);
        self.stages = v;
        Ok(())
    }

    /// Stages in execution order.
    pub fn stages(&self) -> (s: &[Stage])
        ensures
            s@ == self.stages_spec(),
    {
        self.stages.as_slice()
    }

    /// Runs the pipeline. Not yet implemented: always fails.
    pub fn run(&self) -> (r: Result<(), Error>)
        ensures
            r == Err::<(), Error>(Error::NotImplemented("Pipeline::run")),
    {
        Err(Error::NotImplemented("Pipeline::run"))
    }
}

} // verus!
