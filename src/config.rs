//! Sizing of the pool from the machine it runs on.
use vstd::prelude::*;

verus! {

/// Relies on `num_cpus::get`: the number of CPUs this process may use. The
/// count depends on the machine and on the process's affinity and cgroup
/// limits, so nothing is assumed of it.
#[verifier::external_body]
fn available_cpus() -> (r: usize) {
    num_cpus::get()
}

/// The default number of workers on a machine with `cpus` CPUs: half of
/// them, rounded down.
pub fn workers_for_cpus(cpus: usize) -> (r: usize)
    ensures
        r == cpus / 2,
{
    cpus / 2
}

/// The default number of workers on this machine: half of the CPUs that
/// this process may use, rounded down. On a single CPU that is zero, which
/// the pool refuses as a configuration error.
pub fn default_workers() -> (r: usize)
    ensures
        r <= usize::MAX / 2,
{
    workers_for_cpus(available_cpus())
}

} // verus!
