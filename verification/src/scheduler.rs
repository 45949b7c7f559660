//! Scheduling: decides which requests are eligible, ranks them against their
//! deadlines, builds bounded batches, and estimates what each batch costs.

use vstd::prelude::*;

use crate::types::{Error, Quantity, Unit, VersionedId};

verus! {

/// Whether a request may be scheduled right now.
#[derive(Debug, Clone, Copy, PartialEq, Eq, Structural)]
pub enum Eligibility {
    /// May be placed in a batch.
    Ready,
    /// Waiting on state (e.g. a cache fill) before it can run.
    Blocked,
    /// Past its deadline; should be rejected or degraded.
    Expired,
}

/// Absolute deadline in microseconds since the scheduler epoch.
#[derive(Debug, Clone, Copy, PartialEq, Eq, PartialOrd, Ord, Structural)]
pub struct Deadline(pub u64);

/// A schedulable unit of work.
#[derive(Debug, Clone, PartialEq, Eq)]
pub struct Request {
    /// Identity of the request.
    pub id: VersionedId,
    /// When the request must complete.
    pub deadline: Deadline,
    /// Expected work size.
    pub size: Quantity,
}

/// A set of requests chosen to execute together.
#[derive(Debug, Clone, Default, PartialEq, Eq)]
pub struct Batch {
    /// Requests in the batch, in ranked order.
    pub requests: Vec<Request>,
}

/// Predicted cost of executing a batch.
#[derive(Debug, Clone, Copy, PartialEq, Eq, Structural)]
pub struct CostEstimate {
    /// Predicted wall-clock time.
    pub latency: Quantity,
    /// Predicted memory footprint.
    pub memory: Quantity,
}

/// Orders eligible requests according to a fairness policy.
pub trait Ranker {
    /// The order in which `rank` leaves `requests`, highest priority first.
    /// Every ranker defines it.
    spec fn ranked(&self, requests: Seq<Request>) -> Seq<Request>;

    /// Sorts `requests` in place, highest priority first: the result is a
    /// reordering of the input, and it is `ranked` of the input.
    fn rank(&self, requests: &mut [Request])
        ensures
            final(requests)@ == self.ranked(old(requests)@),
            final(requests)@.to_multiset() == old(requests)@.to_multiset(),
    ;
}

/// `r` inserted into `sorted` after every element whose deadline is not
/// later than that of `r`, counting from the end.
pub open spec fn insert_by_deadline(sorted: Seq<Request>, r: Request) -> Seq<Request>
    decreases sorted.len(),
{
    if sorted.len() == 0 {
        seq![r]
    } else if r.deadline.0 < sorted.last().deadline.0 {
        insert_by_deadline(sorted.drop_last(), r).push(sorted.last())
    } else {
        sorted.push(r)
    }
}

/// The stable sort of `s` by deadline, earliest first: requests with equal
/// deadlines keep their relative order.
pub open spec fn sort_by_deadline(s: Seq<Request>) -> Seq<Request>
    decreases s.len(),
{
    if s.len() == 0 {
        s
    } else {
        insert_by_deadline(sort_by_deadline(s.drop_last()), s.last())
    }
}

/// Deadlines never decrease along `s`.
pub open spec fn deadline_sorted(s: Seq<Request>) -> bool {
    forall|i: int, j: int| 0 <= i <= j < s.len() ==> s[i].deadline.0 <= s[j].deadline.0
}

/// The requests of `s` whose deadline is `d`, in their order in `s`.
pub open spec fn with_deadline(s: Seq<Request>, d: u64) -> Seq<Request>
    decreases s.len(),
{
    if s.len() == 0 {
        s
    } else if s.last().deadline.0 == d {
        with_deadline(s.drop_last(), d).push(s.last())
    } else {
        with_deadline(s.drop_last(), d)
    }
}

/// Sum of the sizes of `s`.
pub open spec fn total_size(s: Seq<Request>) -> nat
    decreases s.len(),
{
    if s.len() == 0 {
        0
    } else {
        total_size(s.drop_last()) + s.last().size.value as nat
    }
}

/// The total size adds up every request: the empty batch has size zero, and
/// appending a request adds exactly its size.
pub proof fn lemma_total_size_additive(s: Seq<Request>, r: Request)
    ensures
        total_size(Seq::<Request>::empty()) == 0,
        total_size(s.push(r)) == total_size(s) + r.size.value,
{
    assert(s.push(r).drop_last() == s);
}

/// The total size of two batches joined is the sum of their total sizes.
pub proof fn lemma_total_size_concat(s: Seq<Request>, t: Seq<Request>)
    ensures
        total_size(s + t) == total_size(s) + total_size(t),
    decreases t.len(),
{
    if t.len() == 0 {
        assert(s + t == s);
    } else {
        lemma_total_size_concat(s, t.drop_last());
        assert((s + t).drop_last() == s + t.drop_last());
        assert((s + t).last() == t.last());
    }
}

proof fn lemma_insert_multiset(sorted: Seq<Request>, r: Request)
    ensures
        insert_by_deadline(sorted, r).to_multiset() =~= sorted.to_multiset().insert(r),
    decreases sorted.len(),
{
    broadcast use vstd::seq_lib::group_to_multiset_ensures;

    if sorted.len() == 0 {
        assert(seq![r] == Seq::<Request>::empty().push(r));
    } else if r.deadline.0 < sorted.last().deadline.0 {
        lemma_insert_multiset(sorted.drop_last(), r);
        assert(sorted == sorted.drop_last().push(sorted.last()));
    }
}

proof fn lemma_insert_sorted(sorted: Seq<Request>, r: Request)
    requires
        deadline_sorted(sorted),
    ensures
        deadline_sorted(insert_by_deadline(sorted, r)),
        insert_by_deadline(sorted, r).len() == sorted.len() + 1,
        forall|i: int|
            0 <= i < insert_by_deadline(sorted, r).len() ==> (#[trigger] insert_by_deadline(
                sorted,
                r,
            )[i] == r || sorted.contains(insert_by_deadline(sorted, r)[i])),
    decreases sorted.len(),
{
    if sorted.len() > 0 && r.deadline.0 < sorted.last().deadline.0 {
        let t = sorted.drop_last();
        lemma_insert_sorted(t, r);
        let u = insert_by_deadline(t, r);
        assert forall|i: int| 0 <= i < u.len() implies u[i].deadline.0 <= sorted.last().deadline.0 by {
            if u[i] != r {
                assert(t.contains(u[i]));
                let k = choose|k: int| 0 <= k < t.len() && t[k] == u[i];
                assert(sorted[k] == t[k]);
            }
        }
        assert forall|i: int| 0 <= i < u.push(sorted.last()).len() && u.push(sorted.last())[i] != r
            implies sorted.contains(#[trigger] u.push(sorted.last())[i]) by {
            if i < u.len() {
                let k = choose|k: int| 0 <= k < t.len() && t[k] == u[i];
                assert(sorted[k] == t[k]);
            } else {
                assert(sorted[sorted.len() - 1] == sorted.last());
            }
        }
    } else if sorted.len() > 0 {
        assert forall|i: int| 0 <= i < sorted.push(r).len() && sorted.push(r)[i] != r
            implies sorted.contains(#[trigger] sorted.push(r)[i]) by {
            assert(sorted[i] == sorted.push(r)[i]);
        }
    }
}

/// The stable sort by deadline leaves deadlines in non-decreasing order.
pub proof fn lemma_sort_by_deadline_sorted(s: Seq<Request>)
    ensures
        deadline_sorted(sort_by_deadline(s)),
        sort_by_deadline(s).len() == s.len(),
    decreases s.len(),
{
    if s.len() > 0 {
        lemma_sort_by_deadline_sorted(s.drop_last());
        lemma_insert_sorted(sort_by_deadline(s.drop_last()), s.last());
    }
}

/// The stable sort by deadline is a reordering of its input.
pub proof fn lemma_sort_by_deadline_permutes(s: Seq<Request>)
    ensures
        sort_by_deadline(s).to_multiset() =~= s.to_multiset(),
    decreases s.len(),
{
    broadcast use vstd::seq_lib::group_to_multiset_ensures;

    if s.len() > 0 {
        lemma_sort_by_deadline_permutes(s.drop_last());
        lemma_insert_multiset(sort_by_deadline(s.drop_last()), s.last());
        assert(s == s.drop_last().push(s.last()));
    }
}

proof fn lemma_insert_with_deadline(sorted: Seq<Request>, r: Request, d: u64)
    ensures
        with_deadline(insert_by_deadline(sorted, r), d) == (if r.deadline.0 == d {
            with_deadline(sorted, d).push(r)
        } else {
            with_deadline(sorted, d)
        }),
    decreases sorted.len(),
{
    if sorted.len() == 0 {
        assert(seq![r].drop_last() == Seq::<Request>::empty());
        assert(seq![r].last() == r);
        assert(Seq::<Request>::empty().push(r) == seq![r]);
        assert(with_deadline(Seq::<Request>::empty(), d) == Seq::<Request>::empty());
        assert(with_deadline(sorted, d) == Seq::<Request>::empty());
    } else if r.deadline.0 < sorted.last().deadline.0 {
        let t = sorted.drop_last();
        lemma_insert_with_deadline(t, r, d);
        let u = insert_by_deadline(t, r);
        assert(u.push(sorted.last()).drop_last() == u);
        assert(u.push(sorted.last()).last() == sorted.last());
        assert(sorted == t.push(sorted.last()));
    } else {
        assert(sorted.push(r).drop_last() == sorted);
        assert(sorted.push(r).last() == r);
    }
}

/// The sort by deadline is stable: for every deadline, the requests with that
/// deadline come out in the order in which they came in.
pub proof fn lemma_sort_by_deadline_stable(s: Seq<Request>, d: u64)
    ensures
        with_deadline(sort_by_deadline(s), d) == with_deadline(s, d),
    decreases s.len(),
{
    if s.len() > 0 {
        lemma_sort_by_deadline_stable(s.drop_last(), d);
        lemma_insert_with_deadline(sort_by_deadline(s.drop_last()), s.last(), d);
    }
}

/// Earliest-deadline-first ranking.
#[derive(Debug, Default)]
pub struct EarliestDeadline;

impl Ranker for EarliestDeadline {
    open spec fn ranked(&self, requests: Seq<Request>) -> Seq<Request> {
        sort_by_deadline(requests)
    }

    fn rank(&self, requests: &mut [Request]) {
        let ghost orig = requests@;
        let n = requests.len();
        let mut i: usize = 0;
        proof {
            assert(orig.take(0) == Seq::<Request>::empty());
            assert(requests@.skip(0) == orig.skip(0));
        }
        while i < n
            invariant
                n == orig.len(),
                requests@.len() == n,
                i <= n,
                requests@.take(i as int) == sort_by_deadline(orig.take(i as int)),
                requests@.skip(i as int) == orig.skip(i as int),
            decreases n - i,
        {
            let ghost sorted = requests@.take(i as int);
            let ghost r = orig[i as int];
            proof {
                assert(requests@[i as int] == requests@.skip(i as int)[0]);
                lemma_sort_by_deadline_sorted(orig.take(i as int));
            }
            let mut j: usize = i;
            proof {
                assert(sorted.take(j as int) == sorted);
                assert(sorted.skip(j as int) == Seq::<Request>::empty());
                assert(insert_by_deadline(sorted, r) + Seq::<Request>::empty() == insert_by_deadline(sorted, r));
                assert(requests@.subrange(j + 1, i + 1) == sorted.subrange(j as int, i as int));
                assert(requests@.skip(i + 1) == requests@.skip(i as int).drop_first());
                assert(orig.skip(i + 1) == orig.skip(i as int).drop_first());
            }
            while j > 0 && requests[j - 1].deadline.0 > requests[j].deadline.0
                invariant
                    n == orig.len(),
                    requests@.len() == n,
                    i < n,
                    j <= i,
                    sorted.len() == i,
                    requests@[j as int] == r,
                    requests@.take(j as int) == sorted.take(j as int),
                    requests@.subrange(j + 1, i + 1) == sorted.subrange(j as int, i as int),
                    requests@.skip(i + 1) == orig.skip(i + 1),
                    insert_by_deadline(sorted, r) == insert_by_deadline(sorted.take(j as int), r)
                        + sorted.skip(j as int),
                decreases j,
            {
                let ghost before = requests@;
                let ghost t = sorted.take(j as int);
                proof {
                    assert(before[j - 1] == sorted[j - 1]);
                    assert(t.drop_last() == sorted.take(j - 1));
                    assert(t.last() == sorted[j - 1]);
                    assert(sorted.skip(j - 1) == seq![sorted[j - 1]] + sorted.skip(j as int));
                    assert(insert_by_deadline(t, r) == insert_by_deadline(sorted.take(j - 1), r).push(
                        sorted[j - 1],
                    ));
                    assert(insert_by_deadline(sorted.take(j - 1), r).push(sorted[j - 1]) + sorted.skip(
                        j as int,
                    ) == insert_by_deadline(sorted.take(j - 1), r) + sorted.skip(j - 1));
                }
                {
                    let (left, right) = requests.split_at_mut(j);
                    std::mem::swap(&mut left[j - 1], &mut right[0]);
                }
                proof {
                    let after = requests@;
                    assert(after =~= before.update(j - 1, before[j as int]).update(j as int, before[j - 1]));
                    assert(after.take(j - 1) =~= sorted.take(j - 1));
                    assert(after.subrange(j as int, i + 1) =~= sorted.subrange(j - 1, i as int));
                    assert(after.skip(i + 1) =~= before.skip(i + 1));
                }
                j = j - 1;
            }
            proof {
                let cur = requests@;
                assert(insert_by_deadline(sorted.take(j as int), r) == sorted.take(j as int).push(r));
                assert(cur.take(i + 1) =~= sorted.take(j as int).push(r) + sorted.skip(j as int));
                assert(orig.take(i + 1).drop_last() == orig.take(i as int));
                assert(orig.take(i + 1).last() == r);
                assert(cur.skip(i + 1) == orig.skip(i + 1));
            }
            i = i + 1;
        }
        proof {
            assert(orig.take(n as int) == orig);
            assert(requests@.take(n as int) == requests@);
            lemma_sort_by_deadline_permutes(orig);
        }
    }
}

/// Scheduler: ranks requests with its ranker and bounds the batches it builds.
#[derive(Debug)]
pub struct Scheduler<R: Ranker> {
    ranker: R,
    max_batch: usize,
}

impl<R: Ranker> Scheduler<R> {
    /// The ranker this scheduler orders requests with.
    pub closed spec fn ranker(&self) -> R {
        self.ranker
    }

    /// The largest batch this scheduler builds.
    pub closed spec fn max_batch(&self) -> usize {
        self.max_batch
    }

    /// Creates a scheduler that never builds batches larger than `max_batch`.
    pub fn new(ranker: R, max_batch: usize) -> (s: Self)
        ensures
            s.ranker() == ranker,
            s.max_batch() == max_batch,
    {
        Scheduler { ranker, max_batch }
    }

    /// Classifies a request relative to `now`: expired when its deadline is
    /// before `now`, ready otherwise.
    pub fn eligibility(&self, request: &Request, now: Deadline) -> (e: Eligibility)
        ensures
            e == (if request.deadline.0 < now.0 {
                Eligibility::Expired
            } else {
                Eligibility::Ready
            }),
    {
        if request.deadline.0 < now.0 {
            Eligibility::Expired
        } else {
            Eligibility::Ready
        }
    }

    /// Ranks the given requests and takes the first `max_batch` of them.
    pub fn build_batch(&self, requests: Vec<Request>) -> (b: Batch)
        ensures
            b.requests@ == self.ranker().ranked(requests@).take(
                if requests@.len() <= self.max_batch() {
                    requests@.len() as int
                } else {
                    self.max_batch() as int
                },
            ),
            b.requests@.len() <= self.max_batch(),
    {
        let mut requests = requests;
        self.ranker.rank(requests.as_mut_slice());
        proof {
            broadcast use vstd::seq_lib::group_to_multiset_ensures;
            assert(requests@.len() == requests@.to_multiset().len());
        }
        let ghost ranked = requests@;
        requests.truncate(self.max_batch);
        assert(requests@ == ranked.take(requests@.len() as int));
        Batch { requests }
    }

    /// Estimates the cost of a batch from the total size of its requests: that
    /// many microseconds of latency and that many bytes of memory.
    pub fn estimate(&self, batch: &Batch) -> (r: Result<CostEstimate, Error>)
        requires
            total_size(batch.requests@) <= u64::MAX,
        ensures
            r == Ok::<CostEstimate, Error>(
                CostEstimate {
                    latency: Quantity { value: total_size(batch.requests@) as u64, unit: Unit::Micros },
                    memory: Quantity { value: total_size(batch.requests@) as u64, unit: Unit::Bytes },
                },
            ),
    {
        let mut tokens: u64 = 0;
        let mut i: usize = 0;
        let n = batch.requests.len();
        while i < n
            invariant
                i <= n,
                n == batch.requests@.len(),
                tokens == total_size(batch.requests@.take(i as int)),
                total_size(batch.requests@) <= u64::MAX,
            decreases n - i,
        {
            assert(batch.requests@.take(i + 1).drop_last() == batch.requests@.take(i as int));
            proof {
                lemma_total_size_prefix(batch.requests@, i as int + 1);
            }
            tokens = tokens + batch.requests[i].size.value;
            i = i + 1;
        }
        assert(batch.requests@.take(n as int) == batch.requests@);
        Ok(
            CostEstimate {
                latency: Quantity { value: tokens, unit: Unit::Micros },
                memory: Quantity { value: tokens, unit: Unit::Bytes },
            },
        )
    }
}

proof fn lemma_total_size_prefix(s: Seq<Request>, k: int)
    requires
        0 <= k <= s.len(),
    ensures
        total_size(s.take(k)) <= total_size(s),
    decreases s.len() - k,
{
    if k < s.len() {
        lemma_total_size_prefix(s, k + 1);
        assert(s.take(k + 1).drop_last() == s.take(k));
    } else {
        assert(s.take(k) == s);
    }
}

} // verus!
