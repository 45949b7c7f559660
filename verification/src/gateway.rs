//! Gateway: the authenticated edge of the engine. Every inbound request is
//! attributed to an [`AuthContext`] and appended to a bounded [`ReplayLog`]
//! so it can be re-driven deterministically.

use vstd::prelude::*;

use crate::protocol::Message;
use crate::text::{decimal, with_decimal};
use crate::types::Error;

verus! {

/// Who a request is acting on behalf of.
#[derive(Debug, Clone, PartialEq, Eq)]
pub struct AuthContext {
    /// Authenticated principal.
    pub principal: String,
    /// Scopes granted to the principal.
    pub scopes: Vec<String>,
}

impl AuthContext {
    /// Whether the context holds `scope`.
    pub fn has_scope(&self, scope: &str) -> (r: bool)
        ensures
            r == exists|i: int| 0 <= i < self.scopes@.len() && (#[trigger] self.scopes@[i])@ == scope@,
    {
        let wanted = scope.to_owned();
        let n = self.scopes.len();
        let mut i: usize = 0;
        while i < n
            invariant
                i <= n,
                n == self.scopes@.len(),
                wanted@ == scope@,
                forall|j: int| 0 <= j < i ==> (#[trigger] self.scopes@[j])@ != scope@,
            decreases n - i,
        {
            if self.scopes[i] == wanted {
                return true;
            }
            i = i + 1;
        }
        false
    }
}

/// Bounded, append-only log of accepted requests for later replay.
#[derive(Debug)]
pub struct ReplayLog {
    entries: Vec<(AuthContext, Message)>,
    capacity: usize,
}

impl ReplayLog {
    /// The recorded entries, in order.
    pub closed spec fn entries_spec(&self) -> Seq<(AuthContext, Message)> {
        self.entries@
    }

    /// The most entries the log holds.
    pub closed spec fn capacity_spec(&self) -> usize {
        self.capacity
    }

    #[verifier::type_invariant]
    spec fn bounded(&self) -> bool {
        self.entries@.len() <= self.capacity
    }

    /// Creates an empty log holding at most `capacity` entries.
    pub fn new(capacity: usize) -> (l: Self)
        ensures
            l.entries_spec() == Seq::<(AuthContext, Message)>::empty(),
            l.capacity_spec() == capacity,
    {
        ReplayLog { entries: Vec::new(), capacity }
    }

    /// Appends an entry; fails, changing nothing, when the log is full.
    pub fn append(&mut self, ctx: AuthContext, message: Message) -> (r: Result<(), Error>)
        ensures
            final(self).capacity_spec() == old(self).capacity_spec(),
            final(self).entries_spec().len() <= final(self).capacity_spec(),
            old(self).entries_spec().len() < old(self).capacity_spec() ==> {
                &&& r == Ok::<(), Error>(())
                &&& final(self).entries_spec() == old(self).entries_spec().push((ctx, message))
            },
            old(self).entries_spec().len() >= old(self).capacity_spec() ==> {
                &&& r matches Err(Error::CapacityExceeded(msg))
                &&& msg@ == "replay log of "@ + decimal(old(self).capacity_spec() as nat)
                &&& final(self).entries_spec() == old(self).entries_spec()
            },
    {
        proof {
            use_type_invariant(&*self);
        }
        if self.entries.len() >= self.capacity {
            return Err(Error::CapacityExceeded(with_decimal("replay log of ", self.capacity as u64)));
        }
        let mut v: Vec<(AuthContext, Message)> = Vec::new();
        std::mem::swap(&mut v, &mut self.entries);
        v.push((ctx, message));
        self.entries = v;
        Ok(())
    }

    /// Iterates over the recorded entries in order.
    pub fn iter(&self) -> (it: std::slice::Iter<'_, (AuthContext, Message)>)
        ensures
            vstd::std_specs::iter::IteratorSpec::remaining(&it) == self.entries_spec().as_ref(),
    {
        self.entries.iter()
    }
}

} // verus!
