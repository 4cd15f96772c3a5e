//! The run's parameters that default from the machine: how many chunks the
//! video is split into and how many threads process them.
use vstd::prelude::*;

verus! {

/// Calls `num_cpus::get`, the number of logical CPUs this process may use.
/// The crate documents that it is at least one; nothing more is stated, as
/// it depends on the machine.
#[verifier::external_body]
fn cpu_count() -> (r: usize)
    ensures
        r >= 1,
{
    num_cpus::get()
}

/// The chunk count used when none is given: half the CPUs, and at least
/// four.
pub open spec fn chunks_for_cpus(cpus: usize) -> usize {
    if cpus / 2 > 4 {
        (cpus / 2) as usize
    } else {
        4
    }
}

/// The chunk count used on a machine with `cpus` CPUs when none is given.
pub fn default_chunk_count(cpus: usize) -> (r: usize)
    ensures
        r == chunks_for_cpus(cpus),
{
    if cpus / 2 > 4 {
        cpus / 2
    } else {
        4
    }
}

/// The chunk count asked for, or the default for this machine.
pub fn chunk_count_or_default(chunks: Option<usize>) -> (r: usize)
    ensures
        match chunks {
            Some(c) => r == c,
            None => r >= 4 && exists|cpus: usize| cpus >= 1 && r == chunks_for_cpus(cpus),
        },
{
    match chunks {
        Some(c) => c,
        None => {
            let cpus = cpu_count();
            default_chunk_count(cpus)
        },
    }
}

/// The thread count asked for, or one per CPU of this machine.
pub fn thread_count_or_default(threads: Option<usize>) -> (r: usize)
    ensures
        match threads {
            Some(t) => r == t,
            None => r >= 1,
        },
{
    match threads {
        Some(t) => t,
        None => cpu_count(),
    }
}

} // verus!
