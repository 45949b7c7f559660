//! Registry: immutable packages made of artifact references, addressed by
//! name and revision. Once a revision is published it never changes.

use vstd::prelude::*;

use crate::types::{Digest, Error, VersionedId};

verus! {

/// Reference to a stored artifact (weights, tokenizer, compiled kernel, ...).
#[derive(Debug, PartialEq, Eq)]
pub struct ArtifactRef {
    /// Logical name within the package.
    pub name: String,
    /// Content digest of the artifact.
    pub digest: Digest,
    /// Size in bytes.
    pub size_bytes: u64,
}

impl Clone for ArtifactRef {
    fn clone(&self) -> (r: Self)
        ensures
            r == *self,
    {
        ArtifactRef { name: self.name.clone(), digest: self.digest, size_bytes: self.size_bytes }
    }
}

/// A published, immutable revision of a package.
#[derive(Debug, Clone, Copy, PartialEq, Eq, PartialOrd, Ord, Hash, Structural)]
pub struct Revision(pub u64);

/// An immutable set of artifacts.
#[derive(Debug, Clone, PartialEq, Eq)]
pub struct Package {
    /// Identity of the package; `version` doubles as its revision.
    pub id: VersionedId,
    /// Artifacts included in this revision.
    pub artifacts: Vec<ArtifactRef>,
}

impl Package {
    /// Revision of this package: its version.
    pub fn revision(&self) -> (r: Revision)
        ensures
            r == Revision(self.id.version),
    {
        Revision(self.id.version)
    }
}

/// Stores and resolves packages.
pub trait Registry {
    /// Publishes a package; fails if that revision already exists.
    fn publish(&mut self, package: Package) -> (r: Result<Revision, Error>);

    /// Resolves a package by name and revision.
    fn resolve(&self, name: &str, revision: Revision) -> (r: Option<&Package>);
}

/// The name and revision under which a package is stored.
pub open spec fn package_key(p: Package) -> (Seq<char>, u64) {
    (p.id.name@, p.id.version)
}

/// The packages of `s` by name and revision.
pub open spec fn packages_map(s: Seq<Package>) -> Map<(Seq<char>, u64), Package>
    decreases s.len(),
{
    if s.len() == 0 {
        Map::empty()
    } else {
        packages_map(s.drop_last()).insert(package_key(s.last()), s.last())
    }
}

/// No two packages of `s` share a name and revision.
pub open spec fn keys_unique(s: Seq<Package>) -> bool {
    forall|i: int, j: int|
        0 <= i < s.len() && 0 <= j < s.len() && i != j ==> package_key(#[trigger] s[i]) != package_key(
            #[trigger] s[j],
        )
}

/// The packages after publishing `p` to `m`: `p` is added when its name and
/// revision are new, and nothing changes otherwise.
pub open spec fn after_publish(m: Map<(Seq<char>, u64), Package>, p: Package) -> Map<(Seq<char>, u64), Package> {
    if m.contains_key(package_key(p)) {
        m
    } else {
        m.insert(package_key(p), p)
    }
}

proof fn lemma_packages_domain(s: Seq<Package>, k: (Seq<char>, u64))
    ensures
        packages_map(s).contains_key(k) <==> exists|i: int| 0 <= i < s.len() && package_key(#[trigger] s[i]) == k,
    decreases s.len(),
{
    if s.len() > 0 {
        lemma_packages_domain(s.drop_last(), k);
        if exists|i: int| 0 <= i < s.len() && package_key(#[trigger] s[i]) == k {
            let i = choose|i: int| 0 <= i < s.len() && package_key(#[trigger] s[i]) == k;
            if i < s.len() - 1 {
                assert(s.drop_last()[i] == s[i]);
            }
        }
        if exists|i: int| 0 <= i < s.drop_last().len() && package_key(#[trigger] s.drop_last()[i]) == k {
            let i = choose|i: int| 0 <= i < s.drop_last().len() && package_key(#[trigger] s.drop_last()[i]) == k;
            assert(s[i] == s.drop_last()[i]);
        }
    }
}

proof fn lemma_packages_at(s: Seq<Package>, i: int)
    requires
        keys_unique(s),
        0 <= i < s.len(),
    ensures
        packages_map(s).contains_key(package_key(s[i])),
        packages_map(s)[package_key(s[i])] == s[i],
    decreases s.len(),
{
    if i < s.len() - 1 {
        let t = s.drop_last();
        assert(t[i] == s[i]);
        assert(keys_unique(t));
        lemma_packages_at(t, i);
        assert(package_key(s[i]) != package_key(s[s.len() - 1]));
    } else {
        lemma_packages_domain(s, package_key(s[i]));
    }
}

/// Publishing never changes a published revision: every package stored under
/// a name and revision before a publish is still stored there after it.
pub proof fn lemma_publish_keeps_revisions(m: Map<(Seq<char>, u64), Package>, p: Package, k: (Seq<char>, u64))
    requires
        m.contains_key(k),
    ensures
        after_publish(m, p).contains_key(k),
        after_publish(m, p)[k] == m[k],
{
}

/// After publishing `p`, resolving its name and revision finds a package
/// there: `p` itself when the revision was new.
pub proof fn lemma_publish_then_resolve(m: Map<(Seq<char>, u64), Package>, p: Package)
    ensures
        after_publish(m, p).contains_key(package_key(p)),
        !m.contains_key(package_key(p)) ==> after_publish(m, p)[package_key(p)] == p,
{
}

/// The packages after publishing each of `ps` in turn, starting from `m`.
pub open spec fn after_publishes(m: Map<(Seq<char>, u64), Package>, ps: Seq<Package>) -> Map<(Seq<char>, u64), Package>
    decreases ps.len(),
{
    if ps.len() == 0 {
        m
    } else {
        after_publish(after_publishes(m, ps.drop_last()), ps.last())
    }
}

/// A published revision never changes: a package stored under a name and
/// revision is still stored there, unchanged, after any further publishes.
pub proof fn lemma_publishes_keep_revisions(
    m: Map<(Seq<char>, u64), Package>,
    ps: Seq<Package>,
    k: (Seq<char>, u64),
)
    requires
        m.contains_key(k),
    ensures
        after_publishes(m, ps).contains_key(k),
        after_publishes(m, ps)[k] == m[k],
    decreases ps.len(),
{
    if ps.len() > 0 {
        lemma_publishes_keep_revisions(m, ps.drop_last(), k);
    }
}

/// Starting from an empty registry, a name and revision resolve after a run of
/// publishes exactly when one of the published packages has them, and then to
/// the first such package.
pub proof fn lemma_resolvable_iff_published(ps: Seq<Package>, k: (Seq<char>, u64))
    ensures
        after_publishes(Map::empty(), ps).contains_key(k) <==> exists|i: int|
            0 <= i < ps.len() && package_key(#[trigger] ps[i]) == k,
        forall|i: int|
            0 <= i < ps.len() && package_key(ps[i]) == k && (forall|j: int|
                0 <= j < i ==> package_key(#[trigger] ps[j]) != k) ==> after_publishes(Map::empty(), ps)[k]
                == ps[i],
    decreases ps.len(),
{
    if ps.len() > 0 {
        let t = ps.drop_last();
        lemma_resolvable_iff_published(t, k);
        if exists|i: int| 0 <= i < t.len() && package_key(#[trigger] t[i]) == k {
            let i = choose|i: int| 0 <= i < t.len() && package_key(#[trigger] t[i]) == k;
            assert(ps[i] == t[i]);
        }
        if exists|i: int| 0 <= i < ps.len() && package_key(#[trigger] ps[i]) == k {
            let i = choose|i: int| 0 <= i < ps.len() && package_key(#[trigger] ps[i]) == k;
            if i < t.len() {
                assert(t[i] == ps[i]);
            }
        }
        assert forall|i: int|
            0 <= i < ps.len() && package_key(ps[i]) == k && (forall|j: int|
                0 <= j < i ==> package_key(#[trigger] ps[j]) != k) implies after_publishes(Map::empty(), ps)[k]
            == ps[i] by {
            if i < t.len() {
                assert(t[i] == ps[i]);
                assert forall|j: int| 0 <= j < i implies package_key(#[trigger] t[j]) != k by {
                    assert(t[j] == ps[j]);
                }
            } else {
                assert forall|j: int| 0 <= j < t.len() implies package_key(#[trigger] t[j]) != k by {
                    assert(t[j] == ps[j]);
                }
            }
        }
    }
}

/// In-memory registry.
#[derive(Debug)]
pub struct MemoryRegistry {
    packages: Vec<Package>,
}

impl Default for MemoryRegistry {
    fn default() -> (r: Self)
        ensures
            r.packages() == Map::<(Seq<char>, u64), Package>::empty(),
    {
        MemoryRegistry { packages: Vec::new() }
    }
}

impl MemoryRegistry {
    /// The published packages by name and revision.
    pub closed spec fn packages(&self) -> Map<(Seq<char>, u64), Package> {
        packages_map(self.packages@)
    }

    #[verifier::type_invariant]
    spec fn unique(&self) -> bool {
        keys_unique(self.packages@)
    }

    fn find(&self, name: &String, version: u64) -> (r: Option<usize>)
        ensures
            match r {
                Some(i) => i < self.packages@.len() && package_key(self.packages@[i as int]) == (name@, version),
                None => forall|i: int|
                    0 <= i < self.packages@.len() ==> package_key(#[trigger] self.packages@[i]) != (name@, version),
            },
    {
        let n = self.packages.len();
        let mut i: usize = 0;
        while i < n
            invariant
                i <= n,
                n == self.packages@.len(),
                forall|j: int| 0 <= j < i ==> package_key(#[trigger] self.packages@[j]) != (name@, version),
            decreases n - i,
        {
            if self.packages[i].id.version == version && self.packages[i].id.name == *name {
                return Some(i);
            }
            i = i + 1;
        }
        None
    }
}

impl Registry for MemoryRegistry {
    /// Publishes `package` under its name and revision; fails with a version
    /// mismatch naming its identity, changing nothing, if that revision exists.
    fn publish(&mut self, package: Package) -> (r: Result<Revision, Error>)
        ensures
            final(self).packages() == after_publish(old(self).packages(), package),
            old(self).packages().contains_key(package_key(package)) ==> r == Err::<Revision, Error>(
                Error::VersionMismatch { expected: package.id, found: package.id },
            ),
            !old(self).packages().contains_key(package_key(package)) ==> r == Ok::<Revision, Error>(
                Revision(package.id.version),
            ),
    {
        proof {
            use_type_invariant(&*self);
        }
        let ghost key = package_key(package);
        proof {
            lemma_packages_domain(self.packages@, key);
        }
        if let Some(i) = self.find(&package.id.name, package.id.version) {
            return Err(Error::VersionMismatch { expected: package.id.clone(), found: package.id });
        }
        let revision = package.revision();
        let mut v: Vec<Package> = Vec::new();
        std::mem::swap(&mut v, &mut self.packages);
        let ghost before = v@;
        v.push(package);
        proof {
            assert(v@.drop_last() == before);
            assert forall|i: int, j: int|
                0 <= i < v@.len() && 0 <= j < v@.len() && i != j implies package_key(#[trigger] v@[i])
                != package_key(#[trigger] v@[j]) by {
                if i < before.len() {
                    assert(v@[i] == before[i]);
                }
                if j < before.len() {
                    assert(v@[j] == before[j]);
                }
            }
        }
        self.packages = v;
        Ok(revision)
    }

    /// The package published under `name` and `revision`, if any.
    fn resolve(&self, name: &str, revision: Revision) -> (r: Option<&Package>)
        ensures
            match r {
                Some(p) => self.packages().contains_key((name@, revision.0)) && *p == self.packages()[(
                    name@,
                    revision.0,
                )],
                None => !self.packages().contains_key((name@, revision.0)),
            },
    {
        proof {
            use_type_invariant(self);
        }
        let owned_name = name.to_owned();
        proof {
            lemma_packages_domain(self.packages@, (name@, revision.0));
        }
        match self.find(&owned_name, revision.0) {
            Some(i) => {
                proof {
                    lemma_packages_at(self.packages@, i as int);
                }
                Some(&self.packages[i])
            },
            None => None,
        }
    }
}

} // verus!
