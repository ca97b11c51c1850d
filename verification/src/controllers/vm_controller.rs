use vstd::prelude::*;

use crate::machine::memory::VmValue;
use crate::machine::vm_state::VmState;

verus! {

/// The external collaborator that owns all real asynchrony: it starts
/// functions, keeps their results, wakes suspended programs and cancels jobs.
/// The machine itself promises nothing about a controller's answers: every
/// outcome of these methods is handled.
///
/// Job handles are the 128 raw bits of a globally unique identifier minted by
/// the controller; the machine never interprets them.
pub trait VmController {
    /// Start the named function, optionally passing one argument, and hand
    /// back the job under which its result will be filed.
    fn call(&mut self, function: String, arg: Option<VmValue>) -> Result<u128, String>;

    /// Atomically take and clear the ready result of the job: at-most-once
    /// delivery, `None` while the job is still running.
    fn get_and_remove_result_of(&mut self, job: u128) -> Result<Option<VmValue>, String>;

    /// Arrange for the program to be resumed once all the jobs completed.
    fn suspend_until_all(&mut self, state: &VmState, jobs: Vec<u128>) -> Result<(), String>;

    /// Arrange for the program to be resumed once any of the jobs completed.
    fn suspend_until_any(&mut self, state: &VmState, jobs: Vec<u128>) -> Result<(), String>;

    /// Request cancellation of the jobs; cancellation is fire-and-forget and
    /// never verified.
    fn abort(&mut self, jobs: Vec<u128>) -> Result<(), String>;
}

} // verus!
