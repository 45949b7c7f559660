//! Authority: the single place where a change to shared state is declared
//! before it is applied. A [`Transaction`] carries a [`Declaration`] of the
//! state it intends to touch; an [`Authority`] decides whether to admit it.

use vstd::prelude::*;

use crate::types::{Digest, Error, VersionedId};

verus! {

/// Up-front statement of what a transaction will read and write.
#[derive(Debug, Default, PartialEq, Eq)]
pub struct Declaration {
    /// Bundles the transaction reads.
    pub reads: Vec<Digest>,
    /// Bundles the transaction writes.
    pub writes: Vec<Digest>,
}

/// A copy of `digests`.
fn copy_digests(digests: &Vec<Digest>) -> (r: Vec<Digest>)
    ensures
        r@ == digests@,
{
    let mut r: Vec<Digest> = Vec::new();
    let n = digests.len();
    let mut i: usize = 0;
    while i < n
        invariant
            i <= n,
            n == digests@.len(),
            r@ == digests@.take(i as int),
        decreases n - i,
    {
        r.push(digests[i]);
        assert(digests@.take(i + 1) == digests@.take(i as int).push(digests@[i as int]));
        i = i + 1;
    }
    assert(digests@.take(n as int) == digests@);
    r
}

impl Clone for Declaration {
    fn clone(&self) -> (r: Self)
        ensures
            r.reads@ == self.reads@,
            r.writes@ == self.writes@,
    {
        Declaration { reads: copy_digests(&self.reads), writes: copy_digests(&self.writes) }
    }
}

/// A unit of authoritative change.
#[derive(Debug, PartialEq, Eq)]
pub struct Transaction {
    /// Identity of the transaction.
    pub id: VersionedId,
    /// What the transaction declares it will touch.
    pub declaration: Declaration,
}

/// The contents of a [`Transaction`].
pub struct TransactionView {
    /// Identity of the transaction.
    pub id: (Seq<char>, u64),
    /// Bundles it reads.
    pub reads: Seq<Digest>,
    /// Bundles it writes.
    pub writes: Seq<Digest>,
}

impl View for Transaction {
    type V = TransactionView;

    open spec fn view(&self) -> TransactionView {
        TransactionView {
            id: self.id@,
            reads: self.declaration.reads@,
            writes: self.declaration.writes@,
        }
    }
}

impl Clone for Transaction {
    fn clone(&self) -> (r: Self)
        ensures
            r@ == self@,
    {
        Transaction { id: self.id.clone(), declaration: self.declaration.clone() }
    }
}

/// Outcome of asking an authority to admit a transaction.
#[derive(Debug, Clone, Copy, PartialEq, Eq, Structural)]
pub enum Admission {
    /// The transaction may proceed.
    Admitted,
    /// The transaction conflicts with one already admitted.
    Conflict,
}

/// Decides which transactions are authoritative.
pub trait Authority {
    /// Attempts to admit `tx`.
    fn admit_transaction(&mut self, tx: &Transaction) -> (r: Result<Admission, Error>);

    /// Marks `tx` as finished, releasing anything it declared.
    fn release(&mut self, tx: &Transaction) -> (r: Result<(), Error>);
}

/// `other` writes a digest that `tx` reads or writes.
pub open spec fn conflicts_with(other: TransactionView, tx: TransactionView) -> bool {
    exists|k: int|
        0 <= k < other.writes.len() && {
            ||| tx.writes.contains(#[trigger] other.writes[k])
            ||| tx.reads.contains(other.writes[k])
        }
}

/// Some transaction of `in_flight` writes a digest that `tx` reads or writes.
pub open spec fn conflicts(in_flight: Seq<TransactionView>, tx: TransactionView) -> bool {
    exists|i: int| 0 <= i < in_flight.len() && conflicts_with(#[trigger] in_flight[i], tx)
}

/// `a` and `b` write a common digest.
pub open spec fn share_a_write(a: TransactionView, b: TransactionView) -> bool {
    exists|k: int| 0 <= k < a.writes.len() && b.writes.contains(#[trigger] a.writes[k])
}

/// No two transactions of `s` write a common digest.
pub open spec fn writes_exclusive(s: Seq<TransactionView>) -> bool {
    forall|i: int, j: int|
        0 <= i < s.len() && 0 <= j < s.len() && i != j ==> !share_a_write(#[trigger] s[i], #[trigger] s[j])
}

/// The transactions of `s` whose identity is not `id`, in order.
pub open spec fn without_id(s: Seq<TransactionView>, id: (Seq<char>, u64)) -> Seq<TransactionView>
    decreases s.len(),
{
    if s.len() == 0 {
        s
    } else if s.last().id == id {
        without_id(s.drop_last(), id)
    } else {
        without_id(s.drop_last(), id).push(s.last())
    }
}

/// Some transaction of `s` has identity `id`.
pub open spec fn has_id(s: Seq<TransactionView>, id: (Seq<char>, u64)) -> bool {
    exists|i: int| 0 <= i < s.len() && (#[trigger] s[i]).id == id
}

proof fn lemma_without_id_absent(s: Seq<TransactionView>, id: (Seq<char>, u64))
    requires
        !has_id(s, id),
    ensures
        without_id(s, id) == s,
    decreases s.len(),
{
    if s.len() > 0 {
        assert(!has_id(s.drop_last(), id)) by {
            if has_id(s.drop_last(), id) {
                let i = choose|i: int| 0 <= i < s.drop_last().len() && (#[trigger] s.drop_last()[i]).id == id;
                assert(s[i] == s.drop_last()[i]);
            }
        }
        lemma_without_id_absent(s.drop_last(), id);
        assert(s.last() == s[s.len() - 1]);
        assert(s.drop_last().push(s.last()) == s);
    }
}

proof fn lemma_without_id_remove(s: Seq<TransactionView>, id: (Seq<char>, u64), i: int)
    requires
        0 <= i < s.len(),
        s[i].id == id,
        forall|j: int| i < j < s.len() ==> (#[trigger] s[j]).id != id,
    ensures
        without_id(s, id) == without_id(s.take(i), id) + s.skip(i + 1),
    decreases s.len(),
{
    if i == s.len() - 1 {
        assert(s.drop_last() == s.take(i));
        assert(s.skip(i + 1) == Seq::<TransactionView>::empty());
        assert(without_id(s.take(i), id) + Seq::<TransactionView>::empty() == without_id(s.take(i), id));
    } else {
        let t = s.drop_last();
        assert(t[i] == s[i]);
        lemma_without_id_remove(t, id, i);
        assert(t.take(i) == s.take(i));
        assert(s.last() == s[s.len() - 1]);
        assert(s.skip(i + 1) == t.skip(i + 1).push(s.last()));
    }
}

proof fn lemma_without_id_keep(s: Seq<TransactionView>, id: (Seq<char>, u64), i: int)
    requires
        0 <= i < s.len(),
        s[i].id != id,
    ensures
        without_id(s.take(i + 1), id) == without_id(s.take(i), id).push(s[i]),
{
    assert(s.take(i + 1).drop_last() == s.take(i));
    assert(s.take(i + 1).last() == s[i]);
}

proof fn lemma_without_id_drop(s: Seq<TransactionView>, id: (Seq<char>, u64), i: int)
    requires
        0 <= i < s.len(),
        s[i].id == id,
    ensures
        without_id(s.take(i + 1), id) == without_id(s.take(i), id),
{
    assert(s.take(i + 1).drop_last() == s.take(i));
    assert(s.take(i + 1).last() == s[i]);
}

/// Releasing a transaction undoes admitting it: when no in-flight transaction
/// has the identity of `tx`, admitting `tx` and then releasing it leaves the
/// in-flight transactions as they were.
pub proof fn lemma_release_undoes_admit(in_flight: Seq<TransactionView>, tx: TransactionView)
    requires
        !has_id(in_flight, tx.id),
    ensures
        without_id(in_flight.push(tx), tx.id) == in_flight,
{
    assert(in_flight.push(tx).drop_last() == in_flight);
    assert(in_flight.push(tx).last() == tx);
    lemma_without_id_absent(in_flight, tx.id);
}

/// The contents of each transaction of `s`, in order.
pub open spec fn views(s: Seq<Transaction>) -> Seq<TransactionView> {
    s.map_values(|t: Transaction| t@)
}

/// Authority that rejects overlapping writes while a transaction is in flight.
#[derive(Debug)]
pub struct WriteExclusive {
    in_flight: Vec<Transaction>,
}

impl Default for WriteExclusive {
    fn default() -> (a: Self)
        ensures
            a.in_flight() == Seq::<TransactionView>::empty(),
    {
        let a = WriteExclusive { in_flight: Vec::new() };
        assert(views(a.in_flight@) =~= Seq::<TransactionView>::empty());
        a
    }
}

impl WriteExclusive {
    /// Transactions admitted and not yet released, in admission order.
    pub closed spec fn in_flight(&self) -> Seq<TransactionView> {
        views(self.in_flight@)
    }

    #[verifier::type_invariant]
    spec fn no_shared_writes(&self) -> bool {
        writes_exclusive(views(self.in_flight@))
    }

    fn writes_any_of(writes: &Vec<Digest>, tx: &Transaction) -> (r: bool)
        ensures
            r == exists|k: int|
                0 <= k < writes@.len() && {
                    ||| tx.declaration.writes@.contains(#[trigger] writes@[k])
                    ||| tx.declaration.reads@.contains(writes@[k])
                },
    {
        let n = writes.len();
        let mut k: usize = 0;
        while k < n
            invariant
                k <= n,
                n == writes@.len(),
                forall|j: int|
                    0 <= j < k ==> !tx.declaration.writes@.contains(#[trigger] writes@[j])
                        && !tx.declaration.reads@.contains(writes@[j]),
            decreases n - k,
        {
            let w = writes[k];
            if contains_digest(&tx.declaration.writes, &w) || contains_digest(&tx.declaration.reads, &w) {
                return true;
            }
            k = k + 1;
        }
        false
    }
}

/// Whether `digests` holds `d`.
fn contains_digest(digests: &Vec<Digest>, d: &Digest) -> (r: bool)
    ensures
        r == digests@.contains(*d),
{
    let n = digests.len();
    let mut i: usize = 0;
    while i < n
        invariant
            i <= n,
            n == digests@.len(),
            forall|j: int| 0 <= j < i ==> digests@[j] != *d,
        decreases n - i,
    {
        if digests[i] == *d {
            assert(digests@[i as int] == *d);
            return true;
        }
        i = i + 1;
    }
    false
}

impl Authority for WriteExclusive {
    /// Admits `tx` unless a transaction in flight writes a digest that `tx`
    /// reads or writes; a conflict leaves the authority unchanged. Never fails.
    fn admit_transaction(&mut self, tx: &Transaction) -> (r: Result<Admission, Error>)
        ensures
            conflicts(old(self).in_flight(), tx@) ==> {
                &&& r == Ok::<Admission, Error>(Admission::Conflict)
                &&& final(self).in_flight() == old(self).in_flight()
            },
            !conflicts(old(self).in_flight(), tx@) ==> {
                &&& r == Ok::<Admission, Error>(Admission::Admitted)
                &&& final(self).in_flight() == old(self).in_flight().push(tx@)
            },
            writes_exclusive(final(self).in_flight()),
    {
        proof {
            use_type_invariant(&*self);
        }
        let ghost before = views(self.in_flight@);
        let n = self.in_flight.len();
        let mut i: usize = 0;
        while i < n
            invariant
                i <= n,
                n == self.in_flight@.len(),
                before == views(self.in_flight@),
                writes_exclusive(before),
                forall|j: int| 0 <= j < i ==> !conflicts_with(#[trigger] before[j], tx@),
            decreases n - i,
        {
            if Self::writes_any_of(&self.in_flight[i].declaration.writes, tx) {
                proof {
                    let ws = self.in_flight@[i as int].declaration.writes@;
                    assert(before[i as int] == self.in_flight@[i as int]@);
                    let k = choose|k: int|
                        0 <= k < ws.len() && {
                            ||| tx.declaration.writes@.contains(#[trigger] ws[k])
                            ||| tx.declaration.reads@.contains(ws[k])
                        };
                    assert(before[i as int].writes[k] == ws[k]);
                    assert(conflicts_with(before[i as int], tx@));
                }
                return Ok(Admission::Conflict);
            }
            assert(before[i as int] == self.in_flight@[i as int]@);
            i = i + 1;
        }
        let copy = tx.clone();
        let ghost after = before.push(tx@);
        proof {
            assert forall|a: int, b: int|
                0 <= a < after.len() && 0 <= b < after.len() && a != b implies !share_a_write(
                #[trigger] after[a],
                #[trigger] after[b],
            ) by {
                if a == before.len() {
                    if share_a_write(after[a], after[b]) {
                        let k = choose|k: int|
                            0 <= k < tx@.writes.len() && after[b].writes.contains(#[trigger] tx@.writes[k]);
                        let w = tx@.writes[k];
                        let m = choose|m: int| 0 <= m < after[b].writes.len() && after[b].writes[m] == w;
                        assert(before[b] == after[b]);
                        assert(tx@.writes.contains(after[b].writes[m]));
                        assert(conflicts_with(before[b], tx@));
                    }
                } else if b == before.len() {
                    if share_a_write(after[a], after[b]) {
                        let k = choose|k: int|
                            0 <= k < after[a].writes.len() && tx@.writes.contains(#[trigger] after[a].writes[k]);
                        assert(before[a] == after[a]);
                        assert(conflicts_with(before[a], tx@));
                    }
                } else {
                    assert(before[a] == after[a]);
                    assert(before[b] == after[b]);
                }
            }
        }
        let mut v: Vec<Transaction> = Vec::new();
        std::mem::swap(&mut v, &mut self.in_flight);
        let ghost old_v = v@;
        v.push(copy);
        assert(views(v@) =~= views(old_v).push(copy@));
        self.in_flight = v;
        Ok(Admission::Admitted)
    }

    /// Forgets every in-flight transaction with the identity of `tx`; fails,
    /// changing nothing, when there is none.
    fn release(&mut self, tx: &Transaction) -> (r: Result<(), Error>)
        ensures
            final(self).in_flight() == without_id(old(self).in_flight(), tx.id@),
            r == (if has_id(old(self).in_flight(), tx.id@) {
                Ok::<(), Error>(())
            } else {
                Err::<(), Error>(Error::NotImplemented("release of unknown transaction"))
            }),
            writes_exclusive(final(self).in_flight()),
    {
        proof {
            use_type_invariant(&*self);
        }
        let mut v: Vec<Transaction> = Vec::new();
        std::mem::swap(&mut v, &mut self.in_flight);
        let ghost orig = views(v@);
        let ghost id = tx.id@;
        let mut i: usize = 0;
        let mut removed = false;
        let ghost mut seen: int = 0;
        while i < v.len()
            invariant
                writes_exclusive(views(v@)),
                0 <= seen <= orig.len(),
                i <= v@.len(),
                v@.len() - i == orig.len() - seen,
                views(v@).take(i as int) == without_id(orig.take(seen), id),
                views(v@).skip(i as int) == orig.skip(seen),
                removed == has_id(orig.take(seen), id),
                id == tx.id@,
            decreases v@.len() - i,
        {
            let ghost cur = views(v@);
            assert(cur[i as int] == orig[seen]) by {
                assert(cur.skip(i as int)[0] == cur[i as int]);
                assert(orig.skip(seen)[0] == orig[seen]);
            }
            assert(cur[i as int] == v@[i as int]@);
            if v[i].id == tx.id {
                proof {
                    lemma_without_id_drop(orig, id, seen);
                }
                v.remove(i);
                proof {
                    let now = views(v@);
                    assert(now.take(i as int) =~= cur.take(i as int));
                    assert(now.skip(i as int) =~= cur.skip(i + 1));
                    assert(cur.skip(i + 1) == cur.skip(i as int).drop_first());
                    assert(orig.skip(seen + 1) == orig.skip(seen).drop_first());
                    assert forall|a: int, b: int|
                        0 <= a < now.len() && 0 <= b < now.len() && a != b implies !share_a_write(
                        #[trigger] now[a],
                        #[trigger] now[b],
                    ) by {
                        let a2 = if a < i { a } else { a + 1 };
                        let b2 = if b < i { b } else { b + 1 };
                        assert(now[a] == cur[a2]);
                        assert(now[b] == cur[b2]);
                    }
                    assert(orig.take(seen + 1).drop_last() == orig.take(seen));
                    assert(has_id(orig.take(seen + 1), id)) by {
                        assert(orig.take(seen + 1)[seen] == orig[seen]);
                    }
                    seen = seen + 1;
                }
                removed = true;
            } else {
                proof {
                    lemma_without_id_keep(orig, id, seen);
                    assert(cur.take(i + 1) == cur.take(i as int).push(cur[i as int]));
                    assert(cur.skip(i + 1) == cur.skip(i as int).drop_first());
                    assert(orig.skip(seen + 1) == orig.skip(seen).drop_first());
                    assert(has_id(orig.take(seen + 1), id) == has_id(orig.take(seen), id)) by {
                        if has_id(orig.take(seen + 1), id) {
                            let j = choose|j: int|
                                0 <= j < orig.take(seen + 1).len() && (#[trigger] orig.take(seen + 1)[j]).id == id;
                            assert(j != seen);
                            assert(orig.take(seen)[j] == orig.take(seen + 1)[j]);
                        }
                        if has_id(orig.take(seen), id) {
                            let j = choose|j: int|
                                0 <= j < orig.take(seen).len() && (#[trigger] orig.take(seen)[j]).id == id;
                            assert(orig.take(seen)[j] == orig.take(seen + 1)[j]);
                        }
                    }
                    seen = seen + 1;
                }
                i = i + 1;
            }
        }
        proof {
            let cur = views(v@);
            assert(cur.take(i as int) == cur);
            assert(seen == orig.len());
            assert(orig.take(seen) == orig);
            if !removed {
                lemma_without_id_absent(orig, id);
            }
        }
        self.in_flight = v;
        if removed {
            Ok(())
        } else {
            Err(Error::NotImplemented("release of unknown transaction"))
        }
    }
}

} // verus!
