//! Thread placement: CPU pinning policy and its checks.
//!
//! The operating-system calls stand behind trusted wrappers around the
//! core_affinity crate; which core is asked for, and when the request is
//! rejected, is verified logic.

use vstd::prelude::*;
use crate::runtime_cpu::Error;

verus! {

/// Thread pool configuration.
#[derive(Debug, Clone, PartialEq, Eq)]
pub struct ThreadConfig {
    /// Name prefix for spawned threads.
    pub name_prefix: String,
    /// CPU cores to pin to (empty = no pinning).
    pub pinned_cores: Vec<usize>,
    /// Stack size in bytes (0 = default).
    pub stack_size: usize,
    /// Scheduling priority (0 = normal).
    pub priority: i32,
}

impl Default for ThreadConfig {
    /// The documented defaults: worker name prefix, no pinning, default
    /// stack, normal priority.
    fn default() -> (r: ThreadConfig)
        ensures
            r.name_prefix@ == "zenith-worker"@,
            r.pinned_cores@ == Seq::<usize>::empty(),
            r.stack_size == 0,
            r.priority == 0,
    {
        ThreadConfig {
            name_prefix: String::from_str("zenith-worker"),
            pinned_cores: Vec::new(),
            stack_size: 0,
            priority: 0,
        }
    }
}

/// Relies on core_affinity's get_core_ids: the identifiers of the cores
/// this process may run on, or None when they cannot be determined. The
/// result depends on the machine, so nothing more is stated; the mapping
/// only extracts each identifier's index.
#[verifier::external_body]
fn get_core_id_list() -> (r: Option<Vec<usize>>) {
    core_affinity::get_core_ids().map(|v| v.into_iter().map(|c| c.id).collect())
}

/// Relies on core_affinity's set_for_current: asks the operating system
/// to pin the calling thread to the given core; returns whether the
/// request was honored.
#[verifier::external_body]
fn set_current_core(id: usize) -> (r: bool) {
    core_affinity::set_for_current(core_affinity::CoreId { id })
}

/// Pin the current thread to the core with the given index. Fails with an
/// affinity error when the cores cannot be enumerated or the index is out
/// of range; what the machine reports decides which.
pub fn pin_to_core(core_id: usize) -> (r: Result<(), Error>)
    ensures
        r matches Err(e) ==> e is Affinity,
{
    let core_ids = match get_core_id_list() {
        Some(v) => v,
        None => {
            return Err(Error::Affinity(String::from_str("failed to enumerate core identifiers")));
        },
    };
    if core_id >= core_ids.len() {
        return Err(Error::Affinity(String::from_str("core index out of range")));
    }
    let _ = set_current_core(core_ids[core_id]);
    Ok(())
}

/// Pin the current thread to the first core of the given set; an empty
/// set asks for nothing and succeeds.
pub fn pin_to_cores(core_ids: &[usize]) -> (r: Result<(), Error>)
    ensures
        core_ids@.len() == 0 ==> r is Ok,
        r matches Err(e) ==> e is Affinity,
{
    if core_ids.len() == 0 {
        return Ok(());
    }
    pin_to_core(core_ids[0])
}

} // verus!
