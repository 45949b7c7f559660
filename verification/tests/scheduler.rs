use celyrion::scheduler::{
    Batch, CostEstimate, Deadline, EarliestDeadline, Eligibility, Ranker, Request, Scheduler,
};
use celyrion::types::{Quantity, Unit, VersionedId};

fn req(name: &str, deadline: u64) -> Request {
    Request {
        id: VersionedId::new(name, 1),
        deadline: Deadline(deadline),
        size: Quantity {
            value: 1,
            unit: Unit::Tokens,
        },
    }
}

#[test]
fn batches_are_ranked_and_bounded() {
    let scheduler = Scheduler::new(EarliestDeadline, 2);
    let batch = scheduler.build_batch(vec![req("c", 30), req("a", 10), req("b", 20)]);
    let names: Vec<_> = batch.requests.iter().map(|r| r.id.name.as_str()).collect();
    assert_eq!(names, ["a", "b"]);
    assert_eq!(
        scheduler.eligibility(&req("x", 5), Deadline(6)),
        Eligibility::Expired
    );
}

#[test]
fn ranking_is_stable_for_equal_deadlines() {
    let mut requests = vec![req("x", 5), req("p", 1), req("y", 5), req("q", 1), req("z", 5)];
    EarliestDeadline.rank(&mut requests);
    let names: Vec<_> = requests.iter().map(|r| r.id.name.as_str()).collect();
    assert_eq!(names, ["p", "q", "x", "y", "z"]);
}

#[test]
fn small_input_fills_a_smaller_batch() {
    let scheduler = Scheduler::new(EarliestDeadline, 8);
    let batch = scheduler.build_batch(vec![req("b", 2), req("a", 1)]);
    let names: Vec<_> = batch.requests.iter().map(|r| r.id.name.as_str()).collect();
    assert_eq!(names, ["a", "b"]);
    let empty = scheduler.build_batch(Vec::new());
    assert!(empty.requests.is_empty());
}

#[test]
fn request_at_its_deadline_is_ready() {
    let scheduler = Scheduler::new(EarliestDeadline, 1);
    assert_eq!(scheduler.eligibility(&req("x", 6), Deadline(6)), Eligibility::Ready);
    assert_eq!(scheduler.eligibility(&req("x", 7), Deadline(6)), Eligibility::Ready);
}

#[test]
fn estimate_sums_sizes() {
    let scheduler = Scheduler::new(EarliestDeadline, 4);
    let mut a = req("a", 1);
    a.size.value = 7;
    let mut b = req("b", 2);
    b.size.value = 5;
    let batch = Batch { requests: vec![a, b] };
    assert_eq!(
        scheduler.estimate(&batch).unwrap(),
        CostEstimate {
            latency: Quantity { value: 12, unit: Unit::Micros },
            memory: Quantity { value: 12, unit: Unit::Bytes },
        }
    );
}
