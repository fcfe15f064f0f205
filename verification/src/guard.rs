//! The decision logic of the interrupt guard.
//!
//! A mutating operation raises a process-wide "operation done" flag only
//! after its rewrite has completed or failed terminally, and a prompt
//! raises an "input in flight" flag while it blocks on the terminal. The
//! asynchronous signal handler owns neither flag; it only reads them and
//! follows the protocol below, polling for a bounded number of
//! fixed-length intervals so that a termination signal does not truncate
//! a half-written vault. The handler loop itself lives with the caller;
//! each of its steps asks this module what to do next.

use vstd::prelude::*;

verus! {

/// How many one-interval waits the handler grants a running operation
/// before it gives up.
pub const MAX_INTERRUPT_POLLS: u8 = 5;

/// What the interrupt handler does at one poll step.
#[derive(Clone, Copy, Debug, PartialEq, Eq, Structural)]
pub enum InterruptDecision {
    /// Terminate at once: no file write can be in progress.
    Terminate,
    /// Wait one interval and ask again: a rewrite may be mid-flight.
    Wait,
    /// The wait budget is spent: warn that the vault may need the purge
    /// path, then terminate anyway.
    WarnAndTerminate,
}

/// One step of the interrupt protocol. While input is being collected
/// no write can be in progress, so the process may die at once; while
/// an operation is still running the handler waits, up to
/// `MAX_INTERRUPT_POLLS` intervals in all; after that it warns and
/// terminates anyway.
pub fn interrupt_step(input_in_flight: bool, operation_done: bool, polls_used: u8) -> (d:
    InterruptDecision)
    ensures
        input_in_flight ==> d == InterruptDecision::Terminate,
        !input_in_flight && operation_done ==> d == InterruptDecision::Terminate,
        !input_in_flight && !operation_done && polls_used < MAX_INTERRUPT_POLLS ==> d
            == InterruptDecision::Wait,
        !input_in_flight && !operation_done && polls_used >= MAX_INTERRUPT_POLLS ==> d
            == InterruptDecision::WarnAndTerminate,
{
    if input_in_flight {
        InterruptDecision::Terminate
    } else if operation_done {
        InterruptDecision::Terminate
    } else if polls_used < MAX_INTERRUPT_POLLS {
        InterruptDecision::Wait
    } else {
        InterruptDecision::WarnAndTerminate
    }
}

} // verus!
