use celyrion::gateway::{AuthContext, ReplayLog};
use celyrion::groups::{ExecutionGroup, GroupPlan};
use celyrion::pipeline::{Pipeline, Stage};
use celyrion::protocol::{Message, MessageKind, ProtocolVersion};
use celyrion::registry::ArtifactRef;
use celyrion::transport::{Endpoint, Loopback};
use celyrion::types::{Digest, Error, VersionedId};

fn message(version: u32) -> Message {
    Message {
        version: ProtocolVersion(version),
        id: VersionedId::new("req", 1),
        kind: MessageKind::Request,
        digest: Digest::zero(),
        payload: Vec::new(),
    }
}

#[test]
fn replay_log_is_bounded() {
    let ctx = AuthContext {
        principal: "p".into(),
        scopes: vec!["infer".into()],
    };
    assert!(ctx.has_scope("infer"));
    let msg = Message {
        version: ProtocolVersion::current(),
        id: VersionedId::new("req", 1),
        kind: MessageKind::Request,
        digest: Digest::zero(),
        payload: Vec::new(),
    };
    let mut log = ReplayLog::new(1);
    log.append(ctx.clone(), msg.clone()).unwrap();
    assert!(log.append(ctx, msg).is_err());
    assert_eq!(log.iter().count(), 1);
}

#[test]
fn missing_scope_is_reported() {
    let ctx = AuthContext {
        principal: "p".into(),
        scopes: vec!["infer".into(), "admin".into()],
    };
    assert!(ctx.has_scope("admin"));
    assert!(!ctx.has_scope("inf"));
    assert!(!ctx.has_scope(""));
}

#[test]
fn full_replay_log_names_its_capacity() {
    let ctx = AuthContext { principal: "p".into(), scopes: vec![] };
    let mut log = ReplayLog::new(0);
    match log.append(ctx, message(1)) {
        Err(Error::CapacityExceeded(msg)) => assert_eq!(msg, "replay log of 0"),
        other => panic!("unexpected {other:?}"),
    }
    assert_eq!(log.iter().count(), 0);
}

#[test]
fn replay_log_keeps_order() {
    let ctx = AuthContext { principal: "p".into(), scopes: vec![] };
    let mut log = ReplayLog::new(3);
    log.append(ctx.clone(), message(1)).unwrap();
    log.append(ctx.clone(), message(2)).unwrap();
    let versions: Vec<u32> = log.iter().map(|(_, m)| m.version.0).collect();
    assert_eq!(versions, [1, 2]);
}

#[test]
fn plan_must_cover_group() {
    let group = ExecutionGroup {
        id: VersionedId::new("g", 1),
        members: vec![Endpoint("a".into()), Endpoint("b".into())],
    };
    assert_eq!(group.rank_of(&Endpoint("b".into())), Some(1));
    let plan = GroupPlan {
        group: group.clone(),
        tensor_parallel: 2,
        pipeline_parallel: 1,
    };
    assert!(plan.validate().is_ok());
    let bad = GroupPlan {
        group,
        tensor_parallel: 2,
        pipeline_parallel: 2,
    };
    assert!(bad.validate().is_err());
}

#[test]
fn uncovered_plan_message_and_rank_of_stranger() {
    let group = ExecutionGroup {
        id: VersionedId::new("g", 1),
        members: vec![Endpoint("a".into()), Endpoint("b".into()), Endpoint("a".into())],
    };
    assert_eq!(group.size(), 3);
    assert_eq!(group.rank_of(&Endpoint("a".into())), Some(0));
    assert_eq!(group.rank_of(&Endpoint("c".into())), None);
    let plan = GroupPlan { group, tensor_parallel: 2, pipeline_parallel: 2 };
    match plan.validate() {
        Err(Error::CapacityExceeded(msg)) => assert_eq!(msg, "tp 2 x pp 2 != group size 3"),
        other => panic!("unexpected {other:?}"),
    }
}

#[test]
fn pipeline_is_bounded() {
    let mut pipeline = Pipeline::new(1);
    let stage = Stage {
        id: VersionedId::new("download", 1),
        inputs: Vec::new(),
        bound: 4,
    };
    pipeline.push(stage.clone()).unwrap();
    assert!(pipeline.push(stage).is_err());
    assert_eq!(pipeline.stages().len(), 1);
}

#[test]
fn full_pipeline_names_its_bound_and_run_is_unimplemented() {
    let mut pipeline = Pipeline::new(0);
    let stage = Stage { id: VersionedId::new("load", 1), inputs: Vec::new(), bound: 1 };
    match pipeline.push(stage) {
        Err(Error::CapacityExceeded(msg)) => assert_eq!(msg, "pipeline of 0 stages"),
        other => panic!("unexpected {other:?}"),
    }
    match pipeline.run() {
        Err(Error::NotImplemented(msg)) => assert_eq!(msg, "Pipeline::run"),
        other => panic!("unexpected {other:?}"),
    }
}

#[test]
fn current_version_passes_check() {
    let msg = Message {
        version: ProtocolVersion::current(),
        id: VersionedId::new("ping", 1),
        kind: MessageKind::Event,
        digest: Digest::zero(),
        payload: Vec::new(),
    };
    assert!(msg.check_version().is_ok());
}

#[test]
fn other_version_is_a_mismatch() {
    match message(7).check_version() {
        Err(Error::VersionMismatch { expected, found }) => {
            assert_eq!(expected, VersionedId::new("protocol", 1));
            assert_eq!(found, VersionedId::new("protocol", 7));
        }
        other => panic!("unexpected {other:?}"),
    }
}

#[test]
fn overflowing_plan_is_refused() {
    let members = vec![Endpoint("a".into()), Endpoint("b".into())];
    let huge: usize = (1usize << (usize::BITS - 1)) + 1;
    let plan = GroupPlan {
        group: ExecutionGroup { id: VersionedId::new("g", 1), members: members.clone() },
        tensor_parallel: huge,
        pipeline_parallel: 2,
    };
    match plan.validate() {
        Err(Error::CapacityExceeded(msg)) => {
            assert_eq!(msg, format!("tp {huge} x pp 2 != group size 2"))
        }
        other => panic!("unexpected {other:?}"),
    }
    let swapped = GroupPlan {
        group: ExecutionGroup { id: VersionedId::new("g", 1), members },
        tensor_parallel: 2,
        pipeline_parallel: huge,
    };
    assert!(swapped.validate().is_err());
}

#[test]
fn cloned_pipeline_keeps_its_stages_in_order() {
    let mut pipeline = Pipeline::new(3);
    let first = Stage {
        id: VersionedId::new("download", 1),
        inputs: vec![ArtifactRef { name: "weights".into(), digest: Digest([7; 32]), size_bytes: 42 }],
        bound: 4,
    };
    let second = Stage { id: VersionedId::new("compile", 2), inputs: Vec::new(), bound: 1 };
    pipeline.push(first.clone()).unwrap();
    pipeline.push(second.clone()).unwrap();
    let copy = pipeline.clone();
    assert_eq!(copy.stages(), &[first, second][..]);
    assert_eq!(copy, pipeline);
}

#[test]
fn loopback_has_the_requested_buffer() {
    assert_eq!(Loopback::new(0).sender().max_capacity(), 1);
    assert_eq!(Loopback::new(1).sender().max_capacity(), 1);
    assert_eq!(Loopback::new(5).sender().max_capacity(), 5);
}
