//! Celyrion: the verified core of an AI inference engine. Versioned identities,
//! protocol messages, pure state machines, bounded logs and buffers, memory
//! reservations, scheduling, declared transactions, registries and
//! deterministic replay, each with its behaviour stated as a contract.

pub mod text;
pub mod types;
pub mod scheduler;
pub mod machine;
pub mod cell;
pub mod sim;
pub mod authority;
pub mod state;
pub mod memory;
pub mod protocol;
pub mod transport;
pub mod groups;
pub mod registry;
pub mod pipeline;
pub mod gateway;
pub mod workers;
pub mod observe;
pub mod supervisor;
pub mod runtime;
