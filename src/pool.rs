//! Policy of the worker pool: how many workers it holds, and which idle
//! worker may be handed out again.
use vstd::prelude::*;

verus! {

/// How to start one worker: `lookup_cmd fst_path`, with the error output
/// discarded when `quiet` is set.
#[derive(Debug, Clone)]
pub struct FstProcessManager {
    pub lookup_cmd: String,
    pub fst_path: String,
    pub quiet: bool,
}

/// What a liveness probe of an idle worker's process found.
#[derive(Copy, Clone, Debug, PartialEq, Eq, Structural)]
pub enum Liveness {
    /// The process is still running.
    Running,
    /// The process has exited.
    Exited,
    /// The status of the process could not be read.
    Unknown,
}

/// Whether an idle worker may be handed out again: only while its process
/// runs. Any other worker is dropped, which kills its process, and a fresh
/// one is started in its place.
pub fn may_reuse(probe: Liveness) -> (r: bool)
    ensures
        r <==> probe == Liveness::Running,
{
    match probe {
        Liveness::Running => true,
        _ => false,
    }
}

/// Relies on `num_cpus::get` for the number of CPUs available to this
/// process; nothing is assumed of the number.
#[verifier::external_body]
fn available_cpus() -> usize {
    num_cpus::get()
}

/// The number of workers of a pool on a machine with `cpus` CPUs: that
/// number, and at least one.
pub fn capacity_for(cpus: usize) -> (r: usize)
    ensures
        r == (if cpus >= 1 {
            cpus
        } else {
            1
        }),
{
    if cpus >= 1 {
        cpus
    } else {
        1
    }
}

/// The number of workers of a pool: `capacity_for` the CPUs available to
/// this process, which are counted anew on each call.
pub fn pool_capacity() -> (r: usize)
    ensures
        r >= 1,
{
    capacity_for(available_cpus())
}

} // verus!
