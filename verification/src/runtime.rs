//! The runtime: a loaded model configuration, ready to serve.

use vstd::prelude::*;

use std::path::PathBuf;

use crate::workers::WorkerKind;

verus! {

/// A filesystem path; the runtime only carries it.
#[verifier::external_type_specification]
#[verifier::external_body]
pub struct ExPathBuf(PathBuf);

/// std's `Clone` for `PathBuf`, which returns a duplicate of the path: the
/// contract claims that, as a value, the copy is the path it was made from.
pub assume_specification[ <PathBuf as Clone>::clone ](path: &PathBuf) -> (r: PathBuf)
    ensures
        r == *path,
;

/// Contents of a `model.yaml` file.
#[derive(Debug, PartialEq, Eq)]
pub struct ModelConfig {
    /// Name of the model to serve.
    pub name: String,
    /// Where the model package lives.
    pub path: PathBuf,
    /// Workers allowed to execute this model.
    pub workers: Vec<WorkerKind>,
    /// Memory budget for state bundles, in bytes.
    pub memory_bytes: u64,
    /// Maximum batch size the scheduler may build.
    pub max_batch: usize,
}

/// The contents of a [`ModelConfig`].
pub struct ModelConfigView {
    /// Name of the model to serve.
    pub name: Seq<char>,
    /// Where the model package lives.
    pub path: PathBuf,
    /// Workers allowed to execute this model, in order.
    pub workers: Seq<WorkerKind>,
    /// Memory budget for state bundles, in bytes.
    pub memory_bytes: u64,
    /// Maximum batch size the scheduler may build.
    pub max_batch: usize,
}

impl View for ModelConfig {
    type V = ModelConfigView;

    open spec fn view(&self) -> ModelConfigView {
        ModelConfigView {
            name: self.name@,
            path: self.path,
            workers: self.workers@,
            memory_bytes: self.memory_bytes,
            max_batch: self.max_batch,
        }
    }
}

impl Clone for ModelConfig {
    fn clone(&self) -> (r: Self)
        ensures
            r@ == self@,
    {
        let mut workers: Vec<WorkerKind> = Vec::new();
        let mut i: usize = 0;
        while i < self.workers.len()
            invariant
                i <= self.workers@.len(),
                workers@ == self.workers@.take(i as int),
            decreases self.workers@.len() - i,
        {
            workers.push(self.workers[i]);
            assert(self.workers@.take(i + 1) == self.workers@.take(i as int).push(self.workers@[i as int]));
            i = i + 1;
        }
        assert(self.workers@.take(self.workers@.len() as int) == self.workers@);
        ModelConfig {
            name: self.name.clone(),
            path: self.path.clone(),
            workers,
            memory_bytes: self.memory_bytes,
            max_batch: self.max_batch,
        }
    }
}

impl ModelConfig {
    /// The memory budget of a config that names none: one gibibyte.
    pub fn default_memory_bytes() -> (b: u64)
        ensures
            b == 1073741824,
    {
        assert(1u64 << 30u64 == 1073741824u64) by (bit_vector);
        1u64 << 30u64
    }

    /// The batch size of a config that names none: 32.
    pub fn default_max_batch() -> (n: usize)
        ensures
            n == 32,
    {
        32
    }
}

/// A loaded, not-yet-serving runtime.
#[derive(Debug)]
pub struct Runtime {
    config: ModelConfig,
}

impl Runtime {
    /// The config this runtime was built from.
    pub closed spec fn config_spec(&self) -> ModelConfig {
        self.config
    }

    /// Builds a runtime from an already-parsed config.
    pub fn from_config(config: ModelConfig) -> (r: Self)
        ensures
            r.config_spec() == config,
    {
        Runtime { config }
    }

    /// The config this runtime was built from.
    pub fn config(&self) -> (c: &ModelConfig)
        ensures
            *c == self.config_spec(),
    {
        &self.config
    }
}

/// A runtime gives back the config it was built from: when `copy` is a clone
/// of `config` (what `ModelConfig::clone` ensures) and `runtime` was built
/// from `copy` (what `Runtime::from_config` ensures), the config that
/// `runtime` reports has the contents of `config`.
pub proof fn lemma_config_round_trip(config: ModelConfig, copy: ModelConfig, runtime: Runtime)
    requires
        copy@ == config@,
        runtime.config_spec() == copy,
    ensures
        runtime.config_spec()@ == config@,
{
}

} // verus!
