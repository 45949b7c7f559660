use celyrion::observe::Telemetry;
use celyrion::observe::{GenerationHealth, Health};
use celyrion::runtime::{ModelConfig, Runtime};
use celyrion::supervisor::{failed_generations, forget_generation, observe_signal};
use celyrion::types::{Digest, Error, VersionedId};
use celyrion::workers::{verify, CompletionEvent, NullWorker, WorkerKind};

#[test]
fn versioned_id_displays_name_and_version() {
    assert_eq!(VersionedId::new("model", 3).to_string(), "model@3");
}

#[test]
fn versioned_id_text_of_large_and_zero_versions() {
    assert_eq!(VersionedId::new("m", 0).to_string(), "m@0");
    assert_eq!(VersionedId::new("", u64::MAX).to_string(), "@18446744073709551615");
}

#[test]
fn zero_digest_debug_is_hex() {
    assert!(Digest::zero().to_debug_string().starts_with("Digest(0000"));
}

#[test]
fn digest_text_is_lower_case_hex() {
    let mut bytes = [0u8; 32];
    bytes[0] = 0xab;
    bytes[31] = 0x0f;
    let text = Digest(bytes).to_debug_string();
    assert_eq!(text.len(), "Digest()".len() + 64);
    assert!(text.starts_with("Digest(ab00"));
    assert!(text.ends_with("000f)"));
}

#[test]
fn digests_compare_by_bytes() {
    let mut bytes = [0u8; 32];
    assert_eq!(Digest(bytes), Digest::zero());
    bytes[5] = 1;
    assert_ne!(Digest(bytes), Digest::zero());
}

/// A telemetry sample as the engine records it.
#[derive(Debug, Clone, PartialEq)]
struct Sample {
    name: &'static str,
    value: f64,
}

#[test]
fn telemetry_drops_oldest() {
    let mut telemetry = Telemetry::new(2);
    for value in [1.0, 2.0, 3.0] {
        telemetry.record(Sample { name: "x", value });
    }
    let values: Vec<_> = telemetry.samples().map(|s| s.value).collect();
    assert_eq!(values, [2.0, 3.0]);
}

#[test]
fn zero_capacity_telemetry_keeps_none() {
    let mut telemetry = Telemetry::new(0);
    telemetry.record(1u32);
    telemetry.record(2u32);
    assert_eq!(telemetry.samples().count(), 0);
}

#[test]
fn telemetry_below_capacity_keeps_everything() {
    let mut telemetry = Telemetry::new(3);
    telemetry.record(1u32);
    telemetry.record(2u32);
    let values: Vec<_> = telemetry.samples().copied().collect();
    assert_eq!(values, [1, 2]);
}

#[test]
fn null_worker_round_trip() {
    let worker = NullWorker;
    let proposal = worker.propose(&VersionedId::new("adapter", 1)).unwrap();
    let variant = worker.prepare(proposal.variants[0].clone()).unwrap();
    let event = worker.complete(&variant).unwrap();
    assert!(!event.verified);
    assert!(verify(event, Some(Digest::zero())).unwrap().verified);
    assert_eq!(worker.kind(), WorkerKind::Native);
    assert_eq!(proposal.variants[0].id, VersionedId::new("null", 1));
    assert_eq!(variant.artifact, Some(Digest::zero()));
}

#[test]
fn verify_rejects_a_different_output() {
    let event = CompletionEvent {
        variant: VersionedId::new("v", 2),
        output: Digest([1; 32]),
        verified: false,
    };
    match verify(event.clone(), Some(Digest::zero())) {
        Err(Error::VersionMismatch { expected, found }) => {
            assert_eq!(expected, VersionedId::new("v", 2));
            assert_eq!(found, VersionedId::new("v", 2));
        }
        other => panic!("unexpected {other:?}"),
    }
    let accepted = verify(event, None).unwrap();
    assert!(accepted.verified);
    assert_eq!(accepted.output, Digest([1; 32]));
}

#[test]
fn failed_generations_are_reported_until_torn_down() {
    let mut generations = Vec::new();
    let generation = VersionedId::new("gen", 1);
    observe_signal(
        &mut generations,
        GenerationHealth {
            generation: generation.clone(),
            health: Health::Failed,
        },
    );
    assert_eq!(failed_generations(&generations), vec![generation.clone()]);
    forget_generation(&mut generations, &generation);
    assert!(failed_generations(&generations).is_empty());
}

#[test]
fn latest_signal_replaces_earlier_one() {
    let mut generations = Vec::new();
    let a = VersionedId::new("a", 1);
    let b = VersionedId::new("b", 1);
    observe_signal(&mut generations, GenerationHealth { generation: a.clone(), health: Health::Failed });
    observe_signal(&mut generations, GenerationHealth { generation: b.clone(), health: Health::Failed });
    observe_signal(&mut generations, GenerationHealth { generation: a.clone(), health: Health::Healthy });
    assert_eq!(generations.len(), 2);
    assert_eq!(failed_generations(&generations), vec![b]);
}

#[test]
fn runtime_keeps_its_config() {
    let config = ModelConfig {
        name: "tiny".into(),
        path: "./tiny".into(),
        workers: vec![WorkerKind::Python],
        memory_bytes: ModelConfig::default_memory_bytes(),
        max_batch: ModelConfig::default_max_batch(),
    };
    let runtime = Runtime::from_config(config.clone());
    assert_eq!(runtime.config(), &config);
    assert_eq!(runtime.config().memory_bytes, 1 << 30);
    assert_eq!(runtime.config().max_batch, 32);
}
