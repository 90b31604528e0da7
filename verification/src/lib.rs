use vstd::prelude::*;

pub mod config;
pub mod expansions;
pub mod sequencer;
pub mod substitution;
pub mod tokenizer;

pub use tokenizer::tokenize_string;

verus! {

/// The errors this library reports. Spawn failures and unreadable
/// configuration files belong to the surrounding program, not to the
/// resolution and expansion engine, so they are not listed here.
#[derive(Clone, Copy, Debug, PartialEq, Eq, Structural)]
pub enum EpithetError {
    /// The requested alias name is not present in the configuration.
    AliasNotFound,
    /// A pipeline execution was requested; its semantics are deliberately
    /// left undefined, so it is rejected rather than guessed at.
    PipelineUnsupported,
}

impl EpithetError {
    /// A single human-readable line describing the error.
    pub fn message(&self) -> (r: String)
        ensures
            self is AliasNotFound ==> r@ == "Alias not found"@,
            self is PipelineUnsupported ==> r@ == "Pipeline executions are not supported"@,
    {
        match self {
            EpithetError::AliasNotFound => String::from_str("Alias not found"),
            EpithetError::PipelineUnsupported => String::from_str(
                "Pipeline executions are not supported",
            ),
        }
    }
}

} // verus!
