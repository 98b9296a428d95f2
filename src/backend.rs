//! The one-shot backend: one run of the lookup tool per batch, reading its
//! whole output once it has exited.
use crate::codec::{decode_output, output_lines, results_in};
use crate::text::{trim, view_set, views};
use crate::types::{Direction, LookupError};
use vstd::prelude::*;

verus! {

/// Seconds that a run of the tool may take when no timeout is configured.
pub const DEFAULT_TIMEOUT_SECS: u64 = 30;

/// How to run an external lookup program (`hfst-optimised-lookup`,
/// `flookup`, ...) on the transducers of both directions.
#[derive(Debug, Clone)]
pub struct ExternalBackend {
    pub lookup_cmd: String,
    pub generator_fst: Option<String>,
    pub analyzer_fst: Option<String>,
    /// Seconds that one run may take.
    pub timeout_secs: Option<u64>,
    /// Whether the tool's error output is discarded.
    pub quiet: bool,
}

/// `v` is the decoding of the tool output `text` for `inputs`: one
/// duplicate-free result list per input, holding the results that the
/// output gives for it.
pub open spec fn decodes(v: Seq<Vec<String>>, text: Seq<char>, inputs: Seq<String>) -> bool {
    &&& v.len() == inputs.len()
    &&& forall|i: int|
        0 <= i < v.len() ==> view_set(#[trigger] v[i]@) == results_in(
            output_lines(text),
            trim(inputs[i]@),
        ) && views(v[i]@).no_duplicates()
}

/// The transducer configured for direction `d`, if any.
pub open spec fn transducer_of(b: ExternalBackend, d: Direction) -> Option<String> {
    match d {
        Direction::Analyze => b.analyzer_fst,
        Direction::Generate => b.generator_fst,
    }
}

impl ExternalBackend {
    /// The transducer to load for direction `d`; without one the batch fails
    /// before any process is started.
    pub fn transducer_for(&self, d: Direction) -> (r: Result<String, LookupError>)
        ensures
            (match transducer_of(*self, d) {
                Some(p) => r matches Ok(x) && x@ == p@,
                None => r matches Err(LookupError::NotConfigured(e)) && e == d,
            }),
    {
        let configured = match d {
            Direction::Analyze => &self.analyzer_fst,
            Direction::Generate => &self.generator_fst,
        };
        match configured {
            Some(p) => Ok(p.clone()),
            None => Err(LookupError::NotConfigured(d)),
        }
    }

    /// The seconds that one run may take.
    pub fn timeout_or_default(&self) -> (r: u64)
        ensures
            r == (match self.timeout_secs {
                Some(t) => t,
                None => DEFAULT_TIMEOUT_SECS,
            }),
    {
        match self.timeout_secs {
            Some(t) => t,
            None => DEFAULT_TIMEOUT_SECS,
        }
    }
}

/// The answer to a batch from a run of the tool that has ended: the
/// decoded output when the run succeeded, else a failure carrying what the
/// tool wrote to its error output.
pub fn batch_from_run(succeeded: bool, stdout: &str, stderr: &str, inputs: &[String]) -> (r:
    Result<Vec<Vec<String>>, LookupError>)
    ensures
        succeeded ==> (r matches Ok(v) && decodes(v@, stdout@, inputs@)),
        !succeeded ==> (r matches Err(LookupError::Failed(d)) && d@ == stderr@),
{
    if succeeded {
        Ok(decode_output(stdout, inputs))
    } else {
        Err(LookupError::Failed(String::from_str(stderr)))
    }
}

} // verus!
