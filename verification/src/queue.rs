//! The dispatch policy of the message queue: how many workers to run and
//! which worker each incoming message goes to. The channels and threads
//! themselves live outside the library.

use vstd::prelude::*;

verus! {

/// How many worker threads to run: the configured count, or one per host
/// CPU when the configuration says zero.
pub fn effective_thread_count(configured: usize, cpus: usize) -> (r: usize)
    ensures
        configured == 0 ==> r == cpus,
        configured != 0 ==> r == configured,
{
    if configured == 0 {
        cpus
    } else {
        configured
    }
}

/// Which worker the next message goes to: round-robin over the workers by
/// the running message count.
pub fn select_worker(message_count: usize, workers: usize) -> (r: usize)
    requires
        workers > 0,
    ensures
        r == message_count % workers,
        r < workers,
{
    message_count % workers
}

} // verus!
