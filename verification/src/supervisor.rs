//! The recording session state machine and the shutdown protocol.
//!
//! The supervisor owns the single `Idle`/`Active` state cell. The shell
//! around the library keeps it behind a lock and performs the actual
//! process work (spawn, poll, kill); every decision is taken here.

use vstd::prelude::*;

use crate::errors::RecError;

verus! {

/// Number of exit polls made while waiting for a graceful shutdown.
pub const POLL_LIMIT: u64 = 50;

/// The process-wide recording state: at most one session is active.
pub enum RecorderState {
    Idle,
    /// An encoder process is running and writing to `output_path`.
    Active { output_path: String },
}

/// Owner of the recording state. The caller must hold it behind a
/// mutual-exclusion lock so that the transitions appear atomic.
pub struct Supervisor {
    pub state: RecorderState,
}

impl Supervisor {
    /// A fresh supervisor starts out idle.
    pub fn new() -> (r: Supervisor)
        ensures
            r.state is Idle,
    {
        Supervisor { state: RecorderState::Idle }
    }

    /// Gate of `start`: succeeds only while no session is active, and
    /// never changes the state.
    pub fn ensure_idle(&self) -> (r: Result<(), RecError>)
        ensures
            r is Ok <==> self.state is Idle,
            r is Err ==> r->Err_0 == RecError::AlreadyRecording,
    {
        match self.state {
            RecorderState::Idle => Ok(()),
            RecorderState::Active { .. } => Err(RecError::AlreadyRecording),
        }
    }

    /// Commit of `start`: records the spawned encoder's output artifact
    /// and moves to `Active`.
    pub fn activate(&mut self, output_path: String)
        requires
            old(self).state is Idle,
        ensures
            final(self).state is Active,
            final(self).state->output_path == output_path,
    {
        self.state = RecorderState::Active { output_path };
    }

    /// First half of `stop`: takes the active session's artifact path
    /// and moves back to `Idle`, or fails while idle without changing
    /// anything.
    pub fn take_stop(&mut self) -> (r: Result<String, RecError>)
        ensures
            old(self).state is Idle ==> r is Err && r->Err_0 == RecError::NotRecording
                && final(self).state is Idle,
            old(self).state is Active ==> r is Ok && r->Ok_0 == old(self).state->output_path
                && final(self).state is Idle,
    {
        match &self.state {
            RecorderState::Idle => Err(RecError::NotRecording),
            RecorderState::Active { output_path } => {
                let p = output_path.clone();
                self.state = RecorderState::Idle;
                Ok(p)
            },
        }
    }
}

/// What one exit poll of the encoder process reported.
#[derive(Clone, Copy, Debug, PartialEq, Eq, Structural)]
pub enum PollOutcome {
    /// The process has exited.
    Exited,
    /// The process is still running.
    Running,
    /// The poll itself failed.
    PollFailed,
}

/// What the shell must do after one exit poll.
#[derive(Clone, Copy, Debug, PartialEq, Eq, Structural)]
pub enum StopAction {
    /// Stop polling: the process is gone or can no longer be observed.
    Finish,
    /// Sleep one interval and poll again.
    Wait,
    /// Sleep one interval, then forcibly terminate the process; this
    /// is the last iteration.
    WaitThenKill,
}

/// Decision taken after the poll of iteration `i` (counted from 0)
/// reported `outcome`: keep waiting while the process runs, and force
/// termination on the final iteration.
pub fn stop_decision(i: u64, outcome: PollOutcome) -> (r: StopAction)
    requires
        i < POLL_LIMIT,
    ensures
        r == (if outcome is Running {
            if i == POLL_LIMIT - 1 { StopAction::WaitThenKill } else { StopAction::Wait }
        } else {
            StopAction::Finish
        }),
{
    match outcome {
        PollOutcome::Running => {
            if i == POLL_LIMIT - 1 {
                StopAction::WaitThenKill
            } else {
                StopAction::Wait
            }
        },
        _ => StopAction::Finish,
    }
}

/// Outcome of a whole graceful-shutdown wait.
pub struct ShutdownReport {
    /// How many polls were made before the wait ended.
    pub polls_used: u64,
    /// Whether the process had to be forcibly terminated.
    pub killed: bool,
}

/// The bounded wait of `stop`, run against a given sequence of poll
/// outcomes (`polls[i]` is what the `i`-th poll would report). The wait
/// never makes more than `POLL_LIMIT` polls, and a process that never
/// reports an exit is forcibly terminated on the final iteration.
pub fn shutdown_wait(polls: &Vec<PollOutcome>) -> (r: ShutdownReport)
    requires
        polls@.len() >= POLL_LIMIT,
    ensures
        1 <= r.polls_used <= POLL_LIMIT,
        forall|j: int| 0 <= j < r.polls_used - 1 ==> polls@[j] is Running,
        r.killed <==> (forall|j: int| 0 <= j < POLL_LIMIT ==> polls@[j] is Running),
        r.killed ==> r.polls_used == POLL_LIMIT,
        !r.killed ==> !(polls@[r.polls_used - 1] is Running),
{
    let mut i: u64 = 0;
    loop
        invariant
            0 <= i < POLL_LIMIT,
            polls@.len() >= POLL_LIMIT,
            forall|j: int| 0 <= j < i ==> polls@[j] is Running,
        decreases POLL_LIMIT - i,
    {
        let outcome = polls[i as usize];
        match stop_decision(i, outcome) {
            StopAction::Finish => {
                return ShutdownReport { polls_used: i + 1, killed: false };
            },
            StopAction::WaitThenKill => {
                return ShutdownReport { polls_used: i + 1, killed: true };
            },
            StopAction::Wait => {
                i = i + 1;
            },
        }
    }
}

} // verus!
