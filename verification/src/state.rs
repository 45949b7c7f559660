//! Typed state bundles: digest-addressed collections of entries, kept in the
//! byte order of their keys.

use vstd::prelude::*;
use vstd::utf8::{encode_utf8, encode_utf8_decode_utf8};

use crate::types::{Digest, Quantity, Unit, VersionedId};

verus! {

/// Key identifying one entry inside a bundle.
#[derive(Debug, Clone, PartialEq, Eq, PartialOrd, Ord, Hash)]
pub struct BundleKey(pub String);

/// The UTF-8 bytes of a key, by which keys are ordered.
pub open spec fn key_bytes(k: Seq<char>) -> Seq<u8> {
    encode_utf8(k)
}

/// `a` comes strictly before `b` in lexicographic byte order.
pub open spec fn bytes_before(a: Seq<u8>, b: Seq<u8>) -> bool
    decreases a.len(),
{
    if a.len() == 0 {
        b.len() > 0
    } else if b.len() == 0 {
        false
    } else if a[0] != b[0] {
        a[0] < b[0]
    } else {
        bytes_before(a.drop_first(), b.drop_first())
    }
}

proof fn lemma_before_irreflexive(a: Seq<u8>)
    ensures
        !bytes_before(a, a),
    decreases a.len(),
{
    if a.len() > 0 {
        lemma_before_irreflexive(a.drop_first());
    }
}

proof fn lemma_before_transitive(a: Seq<u8>, b: Seq<u8>, c: Seq<u8>)
    requires
        bytes_before(a, b),
        bytes_before(b, c),
    ensures
        bytes_before(a, c),
    decreases a.len(),
{
    if a.len() > 0 && b.len() > 0 && c.len() > 0 && a[0] == b[0] && b[0] == c[0] {
        lemma_before_transitive(a.drop_first(), b.drop_first(), c.drop_first());
    }
}

proof fn lemma_before_total(a: Seq<u8>, b: Seq<u8>)
    ensures
        a =~= b || bytes_before(a, b) || bytes_before(b, a),
    decreases a.len(),
{
    if a.len() > 0 && b.len() > 0 && a[0] == b[0] {
        lemma_before_total(a.drop_first(), b.drop_first());
        if a.drop_first() =~= b.drop_first() {
            assert(a =~= seq![a[0]] + a.drop_first());
            assert(b =~= seq![b[0]] + b.drop_first());
        }
    }
}

/// Keys are strictly increasing in byte order along `s`.
pub open spec fn keys_ascending(s: Seq<(Seq<char>, Seq<u8>)>) -> bool {
    forall|i: int, j: int|
        0 <= i < j < s.len() ==> bytes_before(key_bytes(#[trigger] s[i].0), key_bytes(#[trigger] s[j].0))
}

/// The map from key to bytes that the entries `s` hold.
pub open spec fn entries_map(s: Seq<(Seq<char>, Seq<u8>)>) -> Map<Seq<char>, Seq<u8>>
    decreases s.len(),
{
    if s.len() == 0 {
        Map::empty()
    } else {
        entries_map(s.drop_last()).insert(s.last().0, s.last().1)
    }
}

/// Sum of the lengths of the byte strings of `s`.
pub open spec fn total_len(s: Seq<(Seq<char>, Seq<u8>)>) -> nat
    decreases s.len(),
{
    if s.len() == 0 {
        0
    } else {
        total_len(s.drop_last()) + s.last().1.len()
    }
}

proof fn lemma_map_domain(s: Seq<(Seq<char>, Seq<u8>)>, k: Seq<char>)
    ensures
        entries_map(s).contains_key(k) <==> exists|i: int| 0 <= i < s.len() && (#[trigger] s[i]).0 == k,
    decreases s.len(),
{
    if s.len() > 0 {
        lemma_map_domain(s.drop_last(), k);
        if exists|i: int| 0 <= i < s.len() && (#[trigger] s[i]).0 == k {
            let i = choose|i: int| 0 <= i < s.len() && (#[trigger] s[i]).0 == k;
            if i < s.len() - 1 {
                assert(s.drop_last()[i] == s[i]);
            }
        }
        if exists|i: int| 0 <= i < s.drop_last().len() && (#[trigger] s.drop_last()[i]).0 == k {
            let i = choose|i: int| 0 <= i < s.drop_last().len() && (#[trigger] s.drop_last()[i]).0 == k;
            assert(s[i] == s.drop_last()[i]);
        }
    }
}

proof fn lemma_map_at(s: Seq<(Seq<char>, Seq<u8>)>, i: int)
    requires
        keys_ascending(s),
        0 <= i < s.len(),
    ensures
        entries_map(s).contains_key(s[i].0),
        entries_map(s)[s[i].0] == s[i].1,
    decreases s.len(),
{
    if i < s.len() - 1 {
        let t = s.drop_last();
        assert(t[i] == s[i]);
        assert(keys_ascending(t));
        lemma_map_at(t, i);
        assert(bytes_before(key_bytes(s[i].0), key_bytes(s[s.len() - 1].0)));
        lemma_before_irreflexive(key_bytes(s[i].0));
    } else {
        lemma_map_domain(s, s[i].0);
    }
}

proof fn lemma_map_update(s: Seq<(Seq<char>, Seq<u8>)>, p: int, v: Seq<u8>)
    requires
        keys_ascending(s),
        0 <= p < s.len(),
    ensures
        entries_map(s.update(p, (s[p].0, v))) == entries_map(s).insert(s[p].0, v),
    decreases s.len(),
{
    let u = s.update(p, (s[p].0, v));
    if p == s.len() - 1 {
        assert(u.drop_last() == s.drop_last());
        let t = s.drop_last();
        assert(entries_map(t).insert(s[p].0, s[p].1).insert(s[p].0, v) =~= entries_map(t).insert(s[p].0, v));
    } else {
        let t = s.drop_last();
        assert(keys_ascending(t));
        lemma_map_update(t, p, v);
        assert(u.drop_last() == t.update(p, (t[p].0, v)));
        assert(u.last() == s.last());
        assert(bytes_before(key_bytes(s[p].0), key_bytes(s[s.len() - 1].0)));
        lemma_before_irreflexive(key_bytes(s[p].0));
        assert(s[p].0 != s.last().0);
        assert(entries_map(t).insert(s[p].0, v).insert(s.last().0, s.last().1) =~= entries_map(t).insert(
            s.last().0,
            s.last().1,
        ).insert(s[p].0, v));
    }
}

proof fn lemma_map_insert(s: Seq<(Seq<char>, Seq<u8>)>, p: int, k: Seq<char>, v: Seq<u8>)
    requires
        0 <= p <= s.len(),
        forall|i: int| 0 <= i < s.len() ==> (#[trigger] s[i]).0 != k,
    ensures
        entries_map(s.insert(p, (k, v))) == entries_map(s).insert(k, v),
    decreases s.len(),
{
    let u = s.insert(p, (k, v));
    if p == s.len() {
        assert(u.drop_last() == s);
        assert(u.last() == (k, v));
    } else {
        let t = s.drop_last();
        lemma_map_insert(t, p, k, v);
        assert(u.drop_last() == t.insert(p, (k, v)));
        assert(u.last() == s.last());
        assert(s.last() == s[s.len() - 1]);
        assert(entries_map(t).insert(k, v).insert(s.last().0, s.last().1) =~= entries_map(t).insert(
            s.last().0,
            s.last().1,
        ).insert(k, v));
    }
}

proof fn lemma_total_len_update(s: Seq<(Seq<char>, Seq<u8>)>, p: int, e: (Seq<char>, Seq<u8>))
    requires
        0 <= p < s.len(),
    ensures
        total_len(s.update(p, e)) + s[p].1.len() == total_len(s) + e.1.len(),
    decreases s.len(),
{
    if p < s.len() - 1 {
        lemma_total_len_update(s.drop_last(), p, e);
        assert(s.update(p, e).drop_last() == s.drop_last().update(p, e));
    } else {
        assert(s.update(p, e).drop_last() == s.drop_last());
    }
}

proof fn lemma_total_len_insert(s: Seq<(Seq<char>, Seq<u8>)>, p: int, e: (Seq<char>, Seq<u8>))
    requires
        0 <= p <= s.len(),
    ensures
        total_len(s.insert(p, e)) == total_len(s) + e.1.len(),
    decreases s.len(),
{
    let u = s.insert(p, e);
    if p == s.len() {
        assert(u.drop_last() == s);
        assert(u.last() == e);
    } else {
        lemma_total_len_insert(s.drop_last(), p, e);
        assert(u.drop_last() == s.drop_last().insert(p, e));
        assert(u.last() == s.last());
    }
}

proof fn lemma_total_len_prefix(s: Seq<(Seq<char>, Seq<u8>)>, k: int)
    requires
        0 <= k <= s.len(),
    ensures
        total_len(s.take(k)) <= total_len(s),
    decreases s.len() - k,
{
    if k < s.len() {
        lemma_total_len_prefix(s, k + 1);
        assert(s.take(k + 1).drop_last() == s.take(k));
    } else {
        assert(s.take(k) == s);
    }
}

/// What comparing two byte strings in byte order found.
enum ByteOrder {
    Before,
    Same,
    After,
}

fn compare_bytes(a: &[u8], b: &[u8]) -> (r: ByteOrder)
    ensures
        r is Before <==> bytes_before(a@, b@),
        r is Same <==> a@ == b@,
        r is After <==> bytes_before(b@, a@),
{
    let n = a.len();
    let m = b.len();
    let mut i: usize = 0;
    proof {
        assert(a@.skip(0) == a@);
        assert(b@.skip(0) == b@);
    }
    while i < n && i < m
        invariant
            i <= n,
            i <= m,
            n == a@.len(),
            m == b@.len(),
            a@.take(i as int) == b@.take(i as int),
            bytes_before(a@, b@) == bytes_before(a@.skip(i as int), b@.skip(i as int)),
            bytes_before(b@, a@) == bytes_before(b@.skip(i as int), a@.skip(i as int)),
        decreases n - i,
    {
        assert(a@.skip(i as int)[0] == a@[i as int]);
        assert(b@.skip(i as int)[0] == b@[i as int]);
        if a[i] < b[i] {
            assert(a@[i as int] != b@[i as int]);
            return ByteOrder::Before;
        }
        if a[i] > b[i] {
            assert(a@[i as int] != b@[i as int]);
            return ByteOrder::After;
        }
        assert(a@.skip(i as int).drop_first() == a@.skip(i + 1));
        assert(b@.skip(i as int).drop_first() == b@.skip(i + 1));
        assert(a@.take(i + 1) == a@.take(i as int).push(a@[i as int]));
        assert(b@.take(i + 1) == b@.take(i as int).push(b@[i as int]));
        i = i + 1;
    }
    if i < m {
        proof {
            assert(a@.take(i as int) == a@);
            assert(a@.skip(i as int).len() == 0);
            assert(a@ != b@) by {
                assert(a@.len() != b@.len());
            }
        }
        ByteOrder::Before
    } else if i < n {
        proof {
            assert(b@.skip(i as int).len() == 0);
            assert(a@.len() != b@.len());
        }
        ByteOrder::After
    } else {
        proof {
            assert(a@ == a@.take(i as int));
            assert(b@ == b@.take(i as int));
            lemma_before_irreflexive(a@);
        }
        ByteOrder::Same
    }
}

/// A typed, digest-addressed collection of state entries.
#[derive(Debug, PartialEq, Eq)]
pub struct Bundle {
    /// Schema of the bundle.
    pub schema: Option<VersionedId>,
    /// Digest over all entries.
    pub digest: Digest,
    entries: Vec<(BundleKey, Vec<u8>)>,
}

/// The key and bytes of each entry of `s`, in order.
pub open spec fn entry_views(s: Seq<(BundleKey, Vec<u8>)>) -> Seq<(Seq<char>, Seq<u8>)> {
    s.map_values(|e: (BundleKey, Vec<u8>)| (e.0.0@, e.1@))
}

/// A copy of `bytes`.
fn copy_bytes(bytes: &Vec<u8>) -> (r: Vec<u8>)
    ensures
        r@ == bytes@,
{
    let r = bytes.clone();
    assert(r@ =~= bytes@);
    r
}

impl Clone for Bundle {
    fn clone(&self) -> (r: Self)
        ensures
            r.schema_spec() == self.schema_spec(),
            r.digest_spec() == self.digest_spec(),
            r.pairs() == self.pairs(),
    {
        proof {
            use_type_invariant(self);
        }
        let ghost s = entry_views(self.entries@);
        let mut entries: Vec<(BundleKey, Vec<u8>)> = Vec::new();
        let n = self.entries.len();
        let mut i: usize = 0;
        while i < n
            invariant
                n == self.entries@.len(),
                s == entry_views(self.entries@),
                i <= n,
                entries@.len() == i,
                entry_views(entries@) == s.take(i as int),
            decreases n - i,
        {
            let key = BundleKey(self.entries[i].0.0.clone());
            let bytes = copy_bytes(&self.entries[i].1);
            let ghost prev = entries@;
            assert(s[i as int] == (self.entries@[i as int].0.0@, self.entries@[i as int].1@));
            assert(key.0@ == self.entries@[i as int].0.0@);
            entries.push((key, bytes));
            assert(entries@ == prev.push(entries@[i as int]));
            assert(entry_views(entries@) =~= entry_views(prev).push(s[i as int]));
            assert(s.take(i + 1) =~= s.take(i as int).push(s[i as int]));
            i = i + 1;
        }
        assert(s.take(n as int) == s);
        let schema = match &self.schema {
            Some(id) => Some(id.clone()),
            None => None,
        };
        Bundle { schema, digest: self.digest, entries }
    }
}

impl Default for Bundle {
    fn default() -> (b: Self)
        ensures
            b.schema_spec() is None,
            b.digest_spec().is_zero(),
            b.pairs() == Seq::<(Seq<char>, Seq<u8>)>::empty(),
    {
        let b = Bundle { schema: None, digest: Digest::zero(), entries: Vec::new() };
        assert(b.pairs() =~= Seq::<(Seq<char>, Seq<u8>)>::empty());
        b
    }
}

impl Bundle {
    /// The schema field.
    pub closed spec fn schema_spec(&self) -> Option<VersionedId> {
        self.schema
    }

    /// The digest field.
    pub closed spec fn digest_spec(&self) -> Digest {
        self.digest
    }

    /// The entries, as key and bytes, in the byte order of their keys.
    pub closed spec fn pairs(&self) -> Seq<(Seq<char>, Seq<u8>)> {
        entry_views(self.entries@)
    }

    /// The entries, as a map from key to bytes.
    pub open spec fn contents(&self) -> Map<Seq<char>, Seq<u8>> {
        entries_map(self.pairs())
    }

    #[verifier::type_invariant]
    spec fn ordered(&self) -> bool {
        keys_ascending(entry_views(self.entries@))
    }

    /// Creates an empty bundle for the given schema.
    pub fn new(schema: VersionedId) -> (b: Self)
        ensures
            b.schema_spec() == Some(schema),
            b.digest_spec().is_zero(),
            b.pairs() == Seq::<(Seq<char>, Seq<u8>)>::empty(),
    {
        let b = Bundle { schema: Some(schema), digest: Digest::zero(), entries: Vec::new() };
        assert(b.pairs() =~= Seq::<(Seq<char>, Seq<u8>)>::empty());
        b
    }

    /// Inserts or replaces an entry: the contents map `key` to `bytes`, the
    /// other entries are kept, and the keys stay in byte order. The payload
    /// grows by `bytes`, less the bytes of a replaced entry.
    pub fn insert(&mut self, key: BundleKey, bytes: Vec<u8>)
        ensures
            final(self).contents() == old(self).contents().insert(key.0@, bytes@),
            keys_ascending(final(self).pairs()),
            total_len(final(self).pairs()) + (if old(self).contents().contains_key(key.0@) {
                old(self).contents()[key.0@].len()
            } else {
                0
            }) == total_len(old(self).pairs()) + bytes@.len(),
            final(self).schema_spec() == old(self).schema_spec(),
            final(self).digest_spec() == old(self).digest_spec(),
    {
        proof {
            use_type_invariant(&*self);
        }
        let mut v: Vec<(BundleKey, Vec<u8>)> = Vec::new();
        std::mem::swap(&mut v, &mut self.entries);
        let ghost s = entry_views(v@);
        let ghost kb = key_bytes(key.0@);
        let kbytes = key.0.as_str().as_bytes();
        let n = v.len();
        let mut p: usize = 0;
        let mut found = false;
        while p < n
            invariant_except_break
                !found,
            invariant
                n == v@.len(),
                s == entry_views(v@),
                keys_ascending(s),
                p <= n,
                kbytes@ == kb,
                kb == key_bytes(key.0@),
                forall|i: int| 0 <= i < p ==> bytes_before(key_bytes(#[trigger] s[i].0), kb),
            ensures
                p <= n,
                forall|i: int| 0 <= i < p ==> bytes_before(key_bytes(#[trigger] s[i].0), kb),
                found ==> p < n && key_bytes(s[p as int].0) == kb,
                !found && p < n ==> bytes_before(kb, key_bytes(s[p as int].0)),
            decreases n - p,
        {
            let here = v[p].0.0.as_str().as_bytes();
            assert(s[p as int].0 == v@[p as int].0.0@);
            match compare_bytes(here, kbytes) {
                ByteOrder::Before => {
                    p = p + 1;
                },
                ByteOrder::Same => {
                    found = true;
                    break;
                },
                ByteOrder::After => {
                    break;
                },
            }
        }
        if found {
            proof {
                encode_utf8_decode_utf8(s[p as int].0);
                encode_utf8_decode_utf8(key.0@);
                assert(s[p as int].0 == key.0@);
                lemma_map_update(s, p as int, bytes@);
                lemma_map_at(s, p as int);
                lemma_total_len_update(s, p as int, (s[p as int].0, bytes@));
            }
            let ghost bv = bytes@;
            v.set(p, (key, bytes));
            proof {
                assert(entry_views(v@) =~= s.update(p as int, (s[p as int].0, bv)));
            }
        } else {
            proof {
                assert forall|i: int| 0 <= i < s.len() implies (#[trigger] s[i]).0 != key.0@ by {
                    if i < p {
                        lemma_before_irreflexive(kb);
                    } else {
                        if p < n {
                            lemma_before_total(key_bytes(s[p as int].0), kb);
                            if i > p {
                                lemma_before_transitive(kb, key_bytes(s[p as int].0), key_bytes(s[i].0));
                            }
                            lemma_before_irreflexive(kb);
                        }
                    }
                }
                lemma_map_insert(s, p as int, key.0@, bytes@);
                if p < n {
                    lemma_before_total(key_bytes(s[p as int].0), kb);
                }
            }
            let ghost bv = bytes@;
            let ghost kv = key.0@;
            v.insert(p, (key, bytes));
            proof {
                let u = entry_views(v@);
                assert(u =~= s.insert(p as int, (kv, bv)));
                lemma_map_domain(s, kv);
                lemma_total_len_insert(s, p as int, (kv, bv));
                assert forall|i: int, j: int| 0 <= i < j < u.len() implies bytes_before(
                    key_bytes(#[trigger] u[i].0),
                    key_bytes(#[trigger] u[j].0),
                ) by {
                    if j == p {
                        assert(u[i] == s[i]);
                    } else if i == p {
                        assert(u[j] == s[j - 1]);
                        if j - 1 > p {
                            lemma_before_transitive(kb, key_bytes(s[p as int].0), key_bytes(s[j - 1].0));
                        }
                    } else {
                        let i2 = if i < p { i } else { i - 1 };
                        let j2 = if j < p { j } else { j - 1 };
                        assert(u[i] == s[i2]);
                        assert(u[j] == s[j2]);
                    }
                }
            }
        }
        self.entries = v;
    }

    /// Looks up an entry: the bytes stored under `key`, if any.
    pub fn get(&self, key: &BundleKey) -> (r: Option<&[u8]>)
        ensures
            keys_ascending(self.pairs()),
            match r {
                Some(bytes) => self.contents().contains_key(key.0@) && bytes@ == self.contents()[key.0@],
                None => !self.contents().contains_key(key.0@),
            },
    {
        proof {
            use_type_invariant(self);
        }
        let ghost s = entry_views(self.entries@);
        let n = self.entries.len();
        let mut i: usize = 0;
        while i < n
            invariant
                n == self.entries@.len(),
                s == entry_views(self.entries@),
                keys_ascending(s),
                i <= n,
                forall|j: int| 0 <= j < i ==> (#[trigger] s[j]).0 != key.0@,
            decreases n - i,
        {
            assert(s[i as int].0 == self.entries@[i as int].0.0@);
            if self.entries[i].0.0 == key.0 {
                proof {
                    lemma_map_at(s, i as int);
                }
                return Some(self.entries[i].1.as_slice());
            }
            i = i + 1;
        }
        proof {
            lemma_map_domain(s, key.0@);
        }
        None
    }

    /// Total payload size of the bundle, in bytes.
    pub fn size(&self) -> (q: Quantity)
        requires
            total_len(self.pairs()) <= u64::MAX,
        ensures
            q == (Quantity { value: total_len(self.pairs()) as u64, unit: Unit::Bytes }),
            keys_ascending(self.pairs()),
    {
        proof {
            use_type_invariant(self);
        }
        let ghost s = entry_views(self.entries@);
        let n = self.entries.len();
        let mut value: u64 = 0;
        let mut i: usize = 0;
        while i < n
            invariant
                n == self.entries@.len(),
                s == entry_views(self.entries@),
                i <= n,
                total_len(s) <= u64::MAX,
                value == total_len(s.take(i as int)),
            decreases n - i,
        {
            proof {
                lemma_total_len_prefix(s, i + 1);
                assert(s.take(i + 1).drop_last() == s.take(i as int));
                assert(s[i as int].1 == self.entries@[i as int].1@);
            }
            value = value + self.entries[i].1.len() as u64;
            i = i + 1;
        }
        assert(s.take(n as int) == s);
        Quantity { value, unit: Unit::Bytes }
    }
}

/// A read gives back the last write: when `after` is `before` with `bytes`
/// inserted under `key` (what `Bundle::insert` ensures), a lookup of `key` in
/// `after` finds exactly `bytes`, and a lookup of any other key finds what it
/// found in `before` (what `Bundle::get` reports from the contents).
pub proof fn lemma_get_after_insert(
    before: Bundle,
    after: Bundle,
    key: BundleKey,
    bytes: Seq<u8>,
    other: BundleKey,
)
    requires
        after.contents() == before.contents().insert(key.0@, bytes),
        other.0@ != key.0@,
    ensures
        after.contents().contains_key(key.0@),
        after.contents()[key.0@] == bytes,
        after.contents().contains_key(other.0@) == before.contents().contains_key(other.0@),
        before.contents().contains_key(other.0@) ==> after.contents()[other.0@] == before.contents()[other.0@],
{
}

} // verus!
