//! Supervision of model generations: the table of the latest health signal
//! of each generation, the generations to tear down, and forgetting a
//! generation once it is torn down.

use vstd::prelude::*;

use crate::observe::{GenerationHealth, Health};
use crate::types::VersionedId;

verus! {

/// The signals of `s` about generations other than `id`, in order.
pub open spec fn without_generation(s: Seq<GenerationHealth>, id: (Seq<char>, u64)) -> Seq<GenerationHealth>
    decreases s.len(),
{
    if s.len() == 0 {
        s
    } else if s.last().generation@ == id {
        without_generation(s.drop_last(), id)
    } else {
        without_generation(s.drop_last(), id).push(s.last())
    }
}

/// The generations of the signals of `s` that report failure, in order.
pub open spec fn failed_of(s: Seq<GenerationHealth>) -> Seq<(Seq<char>, u64)>
    decreases s.len(),
{
    if s.len() == 0 {
        Seq::empty()
    } else if s.last().health == Health::Failed {
        failed_of(s.drop_last()).push(s.last().generation@)
    } else {
        failed_of(s.drop_last())
    }
}

/// No two signals of `s` are about the same generation.
pub open spec fn one_signal_per_generation(s: Seq<GenerationHealth>) -> bool {
    forall|i: int, j: int|
        0 <= i < s.len() && 0 <= j < s.len() && i != j ==> (#[trigger] s[i]).generation@ != (
        #[trigger] s[j]).generation@
}

fn remove_generation(gens: &mut Vec<GenerationHealth>, id: &VersionedId)
    ensures
        final(gens)@ == without_generation(old(gens)@, id@),
{
    let ghost orig = gens@;
    assert(orig.len() == gens.len());
    let mut kept: Vec<GenerationHealth> = Vec::new();
    let mut rest: Vec<GenerationHealth> = Vec::new();
    std::mem::swap(&mut rest, gens);
    let mut done: usize = 0;
    assert(orig.skip(0) == orig);
    while rest.len() > 0
        invariant
            orig.len() <= usize::MAX,
            done + rest@.len() == orig.len(),
            rest@ == orig.skip(done as int),
            kept@ == without_generation(orig.take(done as int), id@),
        decreases rest@.len(),
    {
        let g = rest.remove(0);
        assert(g == orig[done as int]);
        assert(orig.take(done + 1).drop_last() == orig.take(done as int));
        assert(orig.take(done + 1).last() == g);
        assert(orig.skip(done + 1) == orig.skip(done as int).drop_first());
        if g.generation != *id {
            kept.push(g);
        }
        done = done + 1;
    }
    assert(orig.take(orig.len() as int) == orig);
    *gens = kept;
}

/// Records the latest health signal for a generation: it replaces any earlier
/// signal about that generation and comes last.
pub fn observe_signal(gens: &mut Vec<GenerationHealth>, signal: GenerationHealth)
    ensures
        final(gens)@ == without_generation(old(gens)@, signal.generation@).push(signal),
{
    remove_generation(gens, &signal.generation);
    gens.push(signal);
}

/// Generations whose latest signal reports failure, in the order of the table.
pub fn failed_generations(gens: &Vec<GenerationHealth>) -> (r: Vec<VersionedId>)
    ensures
        r@.map_values(|id: VersionedId| id@) == failed_of(gens@),
{
    let mut r: Vec<VersionedId> = Vec::new();
    let n = gens.len();
    let mut i: usize = 0;
    while i < n
        invariant
            i <= n,
            n == gens@.len(),
            r@.map_values(|id: VersionedId| id@) == failed_of(gens@.take(i as int)),
        decreases n - i,
    {
        let ghost before = r@;
        assert(gens@.take(i + 1).drop_last() == gens@.take(i as int));
        assert(gens@.take(i + 1).last() == gens@[i as int]);
        if gens[i].health == Health::Failed {
            r.push(gens[i].generation.clone());
            assert(r@.map_values(|id: VersionedId| id@) =~= before.map_values(|id: VersionedId| id@).push(
                gens@[i as int].generation@,
            ));
        }
        i = i + 1;
    }
    assert(gens@.take(n as int) == gens@);
    r
}

/// Forgets every signal about `generation`.
pub fn forget_generation(gens: &mut Vec<GenerationHealth>, generation: &VersionedId)
    ensures
        final(gens)@ == without_generation(old(gens)@, generation@),
{
    remove_generation(gens, generation);
}

/// Removing a generation keeps every other signal, in order: the result is
/// exactly the signals of `s` whose generation differs from `id`.
pub proof fn lemma_without_generation_filters(s: Seq<GenerationHealth>, id: (Seq<char>, u64))
    ensures
        without_generation(s, id) == s.filter(|g: GenerationHealth| g.generation@ != id),
    decreases s.len(),
{
    reveal(Seq::filter);
    if s.len() > 0 {
        lemma_without_generation_filters(s.drop_last(), id);
    }
}

/// Removing a generation forgets no other: every signal of `s` about another
/// generation is still there afterwards.
pub proof fn lemma_without_generation_keeps_others(s: Seq<GenerationHealth>, id: (Seq<char>, u64), i: int)
    requires
        0 <= i < s.len(),
        s[i].generation@ != id,
    ensures
        without_generation(s, id).contains(s[i]),
{
    lemma_without_generation_filters(s, id);
    s.lemma_filter_contains(|g: GenerationHealth| g.generation@ != id, i);
}

/// Observing a signal keeps the latest signal of every other generation:
/// every entry of the table about a generation other than the signal's is
/// still in the table afterwards, beside the new signal.
pub proof fn lemma_observe_keeps_others(s: Seq<GenerationHealth>, signal: GenerationHealth, i: int)
    requires
        0 <= i < s.len(),
        s[i].generation@ != signal.generation@,
    ensures
        without_generation(s, signal.generation@).push(signal).contains(s[i]),
        without_generation(s, signal.generation@).push(signal).contains(signal),
{
    lemma_without_generation_keeps_others(s, signal.generation@, i);
    let w = without_generation(s, signal.generation@);
    let k = choose|k: int| 0 <= k < w.len() && w[k] == s[i];
    assert(w.push(signal)[k] == s[i]);
    assert(w.push(signal)[w.len() as int] == signal);
}

proof fn lemma_without_generation_excludes(s: Seq<GenerationHealth>, id: (Seq<char>, u64))
    ensures
        forall|i: int|
            0 <= i < without_generation(s, id).len() ==> (#[trigger] without_generation(s, id)[i]).generation@
                != id,
        forall|i: int|
            0 <= i < without_generation(s, id).len() ==> s.contains(#[trigger] without_generation(s, id)[i]),
    decreases s.len(),
{
    if s.len() > 0 {
        let t = s.drop_last();
        lemma_without_generation_excludes(t, id);
        assert forall|i: int|
            0 <= i < without_generation(s, id).len() implies s.contains(#[trigger] without_generation(s, id)[i]) by {
            let w = without_generation(s, id);
            if i < without_generation(t, id).len() {
                assert(w[i] == without_generation(t, id)[i]);
                let k = choose|k: int| 0 <= k < t.len() && t[k] == w[i];
                assert(s[k] == t[k]);
            } else {
                assert(w[i] == s.last());
                assert(s[s.len() - 1] == s.last());
            }
        }
    }
}

proof fn lemma_failed_of_members(s: Seq<GenerationHealth>, id: (Seq<char>, u64))
    requires
        forall|i: int| 0 <= i < s.len() ==> (#[trigger] s[i]).generation@ != id,
    ensures
        !failed_of(s).contains(id),
    decreases s.len(),
{
    if s.len() > 0 {
        let t = s.drop_last();
        assert forall|i: int| 0 <= i < t.len() implies (#[trigger] t[i]).generation@ != id by {
            assert(t[i] == s[i]);
        }
        lemma_failed_of_members(t, id);
        assert(s.last() == s[s.len() - 1]);
        if s.last().health == Health::Failed {
            assert(failed_of(s) == failed_of(t).push(s.last().generation@));
            assert forall|k: int| 0 <= k < failed_of(s).len() implies failed_of(s)[k] != id by {
                if k < failed_of(t).len() {
                    assert(failed_of(s)[k] == failed_of(t)[k]);
                }
            }
        }
    }
}

/// A torn-down generation is no longer reported as failed: after its signals
/// are forgotten, it is not among the failed generations.
pub proof fn lemma_forgotten_not_failed(s: Seq<GenerationHealth>, id: (Seq<char>, u64))
    ensures
        !failed_of(without_generation(s, id)).contains(id),
{
    lemma_without_generation_excludes(s, id);
    lemma_failed_of_members(without_generation(s, id), id);
}

/// An observed failure is reported: after a failure signal for a generation is
/// observed, that generation is among the failed ones, last.
pub proof fn lemma_observed_failure_reported(s: Seq<GenerationHealth>, signal: GenerationHealth)
    requires
        signal.health == Health::Failed,
    ensures
        failed_of(without_generation(s, signal.generation@).push(signal)).last() == signal.generation@,
        failed_of(without_generation(s, signal.generation@).push(signal)).contains(signal.generation@),
{
    let w = without_generation(s, signal.generation@);
    assert(w.push(signal).drop_last() == w);
    assert(w.push(signal).last() == signal);
    let f = failed_of(w.push(signal));
    assert(f[f.len() - 1] == signal.generation@);
}

/// Observing keeps one signal per generation: if the table held at most one
/// signal about each generation, it still does after a new signal is observed,
/// and the new signal is the one kept for its generation.
pub proof fn lemma_observe_keeps_one_per_generation(s: Seq<GenerationHealth>, signal: GenerationHealth)
    requires
        one_signal_per_generation(s),
    ensures
        one_signal_per_generation(without_generation(s, signal.generation@).push(signal)),
        without_generation(s, signal.generation@).push(signal).last() == signal,
    decreases s.len(),
{
    lemma_without_generation_unique(s, signal.generation@);
    lemma_without_generation_excludes(s, signal.generation@);
    let w = without_generation(s, signal.generation@);
    let u = w.push(signal);
    assert forall|i: int, j: int|
        0 <= i < u.len() && 0 <= j < u.len() && i != j implies (#[trigger] u[i]).generation@ != (
        #[trigger] u[j]).generation@ by {
        if i < w.len() && j < w.len() {
            assert(u[i] == w[i]);
            assert(u[j] == w[j]);
        } else if i < w.len() {
            assert(u[i] == w[i]);
        } else {
            assert(u[j] == w[j]);
        }
    }
}

proof fn lemma_without_generation_unique(s: Seq<GenerationHealth>, id: (Seq<char>, u64))
    requires
        one_signal_per_generation(s),
    ensures
        one_signal_per_generation(without_generation(s, id)),
    decreases s.len(),
{
    if s.len() > 0 {
        let t = s.drop_last();
        assert(one_signal_per_generation(t)) by {
            assert forall|i: int, j: int|
                0 <= i < t.len() && 0 <= j < t.len() && i != j implies (#[trigger] t[i]).generation@ != (
                #[trigger] t[j]).generation@ by {
                assert(t[i] == s[i]);
                assert(t[j] == s[j]);
            }
        }
        lemma_without_generation_unique(t, id);
        if s.last().generation@ != id {
            lemma_without_generation_excludes(t, id);
            let w = without_generation(t, id);
            let u = w.push(s.last());
            assert forall|i: int, j: int|
                0 <= i < u.len() && 0 <= j < u.len() && i != j implies (#[trigger] u[i]).generation@ != (
                #[trigger] u[j]).generation@ by {
                if i < w.len() && j < w.len() {
                    assert(u[i] == w[i]);
                    assert(u[j] == w[j]);
                } else {
                    let a = if i < w.len() { i } else { j };
                    assert(u[a] == w[a]);
                    let k = choose|k: int| 0 <= k < t.len() && t[k] == w[a];
                    assert(s[k] == t[k]);
                    assert(s[s.len() - 1] == s.last());
                }
            }
        }
    }
}

} // verus!
