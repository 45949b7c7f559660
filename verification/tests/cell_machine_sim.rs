use celyrion::cell::{Effect, EffectSink, RecordingSink};
use celyrion::machine::StateMachine;
use celyrion::sim::{Fault, Simulation, Trace};
use celyrion::types::{Error, Result};

#[test]
fn recording_sink_collects_effects() {
    let mut sink = RecordingSink::default();
    sink.dispatch(Effect::Timer(10)).unwrap();
    assert_eq!(sink.effects, vec![Effect::Timer(10)]);
}

struct Counter;

impl StateMachine for Counter {
    type State = u64;
    type Event = u64;

    fn transition_result(&self, state: u64, event: u64) -> Result<u64> {
        Ok(state + event)
    }

    fn transition(&self, state: &u64, event: u64) -> Result<u64> {
        Ok(state + event)
    }
}

#[test]
fn transition_is_pure() {
    assert_eq!(Counter.transition(&1, 2).unwrap(), 3);
}

struct Adder;

impl StateMachine for Adder {
    type State = i64;
    type Event = i64;

    fn transition_result(&self, state: i64, event: i64) -> Result<i64> {
        Ok(state + event)
    }

    fn transition(&self, state: &i64, event: i64) -> Result<i64> {
        Ok(state + event)
    }
}

/// Fails on negative events.
struct NonNegative;

impl StateMachine for NonNegative {
    type State = i64;
    type Event = i64;

    fn transition_result(&self, state: i64, event: i64) -> Result<i64> {
        self.transition(&state, event)
    }

    fn transition(&self, state: &i64, event: i64) -> Result<i64> {
        if event < 0 {
            Err(Error::NotImplemented("negative event"))
        } else {
            Ok(state + event)
        }
    }
}

#[test]
fn replay_is_deterministic() {
    let trace = Trace::new(vec![1, 2, 3]);
    let mut a = Simulation::new(Adder);
    let mut b = Simulation::new(Adder);
    assert_eq!(a.replay(0, &trace).unwrap(), 6);
    assert_eq!(b.replay(0, &trace).unwrap(), 6);
    assert_eq!(a.effects(), b.effects());
    assert_eq!(a.effects().len(), 3);
}

#[test]
fn faults_fire_at_their_step() {
    let mut trace = Trace::new(vec![1, 2]);
    trace.faults.push((1, Fault::TransitionError));
    assert!(Simulation::new(Adder).replay(0, &trace).is_err());
}

#[test]
fn replay_logs_each_step() {
    let trace = Trace::new(vec![5, 5]);
    let mut sim = Simulation::new(Adder);
    assert_eq!(sim.replay(1, &trace).unwrap(), 11);
    assert_eq!(
        sim.effects(),
        &[Effect::Log("step 0".to_string()), Effect::Log("step 1".to_string())]
    );
}

#[test]
fn dropped_effects_are_not_logged() {
    let mut trace = Trace::new(vec![1, 2, 3]);
    trace.faults.push((1, Fault::DropEffects));
    let mut sim = Simulation::new(Adder);
    assert_eq!(sim.replay(0, &trace).unwrap(), 6);
    assert_eq!(
        sim.effects(),
        &[Effect::Log("step 0".to_string()), Effect::Log("step 2".to_string())]
    );
}

#[test]
fn injected_fault_keeps_earlier_effects() {
    let mut trace = Trace::new(vec![1, 2, 3]);
    trace.faults.push((2, Fault::TransitionError));
    let mut sim = Simulation::new(Adder);
    match sim.replay(0, &trace) {
        Err(Error::NotImplemented(msg)) => assert_eq!(msg, "injected transition fault"),
        other => panic!("unexpected {other:?}"),
    }
    assert_eq!(sim.effects().len(), 2);
}

#[test]
fn failing_transition_ends_replay() {
    let trace = Trace::new(vec![1, -1, 3]);
    let mut sim = Simulation::new(NonNegative);
    match sim.replay(0, &trace) {
        Err(Error::NotImplemented(msg)) => assert_eq!(msg, "negative event"),
        other => panic!("unexpected {other:?}"),
    }
    assert_eq!(sim.effects(), &[Effect::Log("step 0".to_string())]);
}

#[test]
fn first_fault_for_a_step_wins() {
    let mut trace = Trace::new(vec![1]);
    trace.faults.push((0, Fault::DropEffects));
    trace.faults.push((0, Fault::TransitionError));
    assert_eq!(trace.fault_at(0), Some(&Fault::DropEffects));
    assert_eq!(trace.fault_at(1), None);
    let mut sim = Simulation::new(Adder);
    assert_eq!(sim.replay(0, &trace).unwrap(), 1);
    assert!(sim.effects().is_empty());
}

#[test]
fn step_numbers_are_decimal() {
    let trace = Trace::new(vec![0; 12]);
    let mut sim = Simulation::new(Adder);
    sim.replay(0, &trace).unwrap();
    assert_eq!(sim.effects()[11], Effect::Log("step 11".to_string()));
}

#[test]
fn mailbox_is_bounded() {
    let mut mailbox = celyrion::cell::Mailbox::bounded(1);
    mailbox.try_post(1u8).unwrap();
    assert!(mailbox.try_post(2u8).is_err());
    assert_eq!(mailbox.receiver().try_recv().ok(), Some(1));
}

#[test]
fn full_mailbox_names_its_capacity() {
    let mailbox = celyrion::cell::Mailbox::bounded(1);
    assert_eq!(mailbox.capacity(), 1);
    mailbox.try_post(1u8).unwrap();
    match mailbox.try_post(2u8) {
        Err(Error::CapacityExceeded(msg)) => assert_eq!(msg, "mailbox of 1"),
        other => panic!("unexpected {other:?}"),
    }
    let other = mailbox.sender();
    assert!(other.try_send(3u8).is_err());
}

#[test]
fn zero_capacity_mailbox_refuses_every_post() {
    let mut mailbox = celyrion::cell::Mailbox::bounded(0);
    assert_eq!(mailbox.capacity(), 0);
    for item in ['a', 'b'] {
        match mailbox.try_post(item) {
            Err(Error::CapacityExceeded(msg)) => assert_eq!(msg, "mailbox of 0"),
            other => panic!("unexpected {other:?}"),
        }
    }
    assert!(mailbox.receiver().try_recv().is_err());
}

#[test]
fn post_outcome_maps_refusals() {
    assert!(celyrion::cell::post_outcome(true, 3).is_ok());
    match celyrion::cell::post_outcome(false, 12) {
        Err(Error::CapacityExceeded(msg)) => assert_eq!(msg, "mailbox of 12"),
        other => panic!("unexpected {other:?}"),
    }
}
