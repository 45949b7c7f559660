//! Execution groups: sets of endpoints that execute a model together, and the
//! plans that lay them out.

use vstd::prelude::*;

use crate::text::{decimal, decimal_string};
use crate::transport::Endpoint;
use crate::types::{Error, VersionedId};

verus! {

/// A group of endpoints that execute together.
#[derive(Debug, Clone, PartialEq, Eq)]
pub struct ExecutionGroup {
    /// Identity of the group.
    pub id: VersionedId,
    /// Members in rank order.
    pub members: Vec<Endpoint>,
}

/// The index of the first endpoint of `members` whose address is `e`.
pub open spec fn first_rank(members: Seq<Endpoint>, e: Seq<char>) -> Option<int>
    decreases members.len(),
{
    if members.len() == 0 {
        None
    } else if members[0].0@ == e {
        Some(0)
    } else {
        match first_rank(members.drop_first(), e) {
            Some(i) => Some(i + 1),
            None => None,
        }
    }
}

/// The rank of an address is the position of its first holder: when member
/// `i` has address `e` and no earlier member does, the rank is `i`.
pub proof fn lemma_rank_is_first_holder(members: Seq<Endpoint>, e: Seq<char>, i: int)
    requires
        0 <= i < members.len(),
        members[i].0@ == e,
        forall|j: int| 0 <= j < i ==> (#[trigger] members[j]).0@ != e,
    ensures
        first_rank(members, e) == Some(i),
    decreases i,
{
    if i > 0 {
        let t = members.drop_first();
        assert(members[0].0@ != e);
        assert(t[i - 1] == members[i]);
        assert forall|j: int| 0 <= j < i - 1 implies (#[trigger] t[j]).0@ != e by {
            assert(t[j] == members[j + 1]);
        }
        lemma_rank_is_first_holder(t, e, i - 1);
    }
}

/// An address has no rank exactly when no member has it.
pub proof fn lemma_no_rank_iff_absent(members: Seq<Endpoint>, e: Seq<char>)
    ensures
        first_rank(members, e) is None <==> forall|j: int| 0 <= j < members.len() ==> (#[trigger] members[j]).0@ != e,
    decreases members.len(),
{
    if members.len() > 0 {
        let t = members.drop_first();
        lemma_no_rank_iff_absent(t, e);
        if members[0].0@ != e {
            if forall|j: int| 0 <= j < t.len() ==> (#[trigger] t[j]).0@ != e {
                assert forall|j: int| 0 <= j < members.len() implies (#[trigger] members[j]).0@ != e by {
                    if j > 0 {
                        assert(members[j] == t[j - 1]);
                    }
                }
            } else {
                let j = choose|j: int| 0 <= j < t.len() && (#[trigger] t[j]).0@ == e;
                assert(members[j + 1] == t[j]);
            }
        }
    }
}

impl ExecutionGroup {
    /// Number of members.
    pub fn size(&self) -> (n: usize)
        ensures
            n == self.members@.len(),
    {
        self.members.len()
    }

    /// Rank of `endpoint` within the group, if it is a member: the position of
    /// its first occurrence.
    pub fn rank_of(&self, endpoint: &Endpoint) -> (r: Option<usize>)
        ensures
            match r {
                Some(i) => first_rank(self.members@, endpoint.0@) == Some(i as int),
                None => first_rank(self.members@, endpoint.0@) is None,
            },
    {
        let n = self.members.len();
        let mut i: usize = 0;
        assert(self.members@.skip(0) == self.members@);
        while i < n
            invariant
                i <= n,
                n == self.members@.len(),
                first_rank(self.members@, endpoint.0@) == (match first_rank(self.members@.skip(i as int), endpoint.0@) {
                    Some(k) => Some(k + i),
                    None => None,
                }),
            decreases n - i,
        {
            assert(self.members@.skip(i as int)[0] == self.members@[i as int]);
            if self.members[i].0 == endpoint.0 {
                return Some(i);
            }
            assert(self.members@.skip(i as int).drop_first() == self.members@.skip(i + 1));
            i = i + 1;
        }
        None
    }
}

/// The message of a plan that does not cover its group.
pub open spec fn uncovered_message(tp: usize, pp: usize, size: usize) -> Seq<char> {
    "tp "@ + decimal(tp as nat) + " x pp "@ + decimal(pp as nat) + " != group size "@ + decimal(size as nat)
}

/// How a group is laid out before it can execute.
#[derive(Debug, Clone, PartialEq, Eq)]
pub struct GroupPlan {
    /// Group being prepared.
    pub group: ExecutionGroup,
    /// Degree of tensor parallelism.
    pub tensor_parallel: usize,
    /// Degree of pipeline parallelism.
    pub pipeline_parallel: usize,
}

impl GroupPlan {
    /// Checks that the parallelism degrees cover the group exactly: their
    /// product, taken without overflow, is the number of members.
    pub fn validate(&self) -> (r: Result<(), Error>)
        ensures
            self.tensor_parallel * self.pipeline_parallel == self.group.members@.len() ==> r == Ok::<
                (),
                Error,
            >(()),
            self.tensor_parallel * self.pipeline_parallel != self.group.members@.len() ==> (r matches Err(
                Error::CapacityExceeded(msg),
            ) && msg@ == uncovered_message(
                self.tensor_parallel,
                self.pipeline_parallel,
                self.group.members@.len() as usize,
            )),
    {
        let size = self.group.size();
        let covered = match self.tensor_parallel.checked_mul(self.pipeline_parallel) {
            Some(product) => product == size,
            None => false,
        };
        if covered {
            Ok(())
        } else {
            let mut msg = "tp ".to_owned();
            let a = decimal_string(self.tensor_parallel as u64);
            msg.append(a.as_str());
            msg.append(" x pp ");
            let b = decimal_string(self.pipeline_parallel as u64);
            msg.append(b.as_str());
            msg.append(" != group size ");
            let c = decimal_string(size as u64);
            msg.append(c.as_str());
            Err(Error::CapacityExceeded(msg))
        }
    }
}

} // verus!
