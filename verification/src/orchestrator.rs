//! DevOrchestrator: the state machine of one dev session.  Three
//! concurrent activities — watching, building, signal handling — plus a
//! supervised child server process are coordinated through it; the threads,
//! channels and the process live outside the library, which decides every
//! transition: what each event means in each phase and which actions the
//! runner must perform, in order.

use vstd::prelude::*;

verus! {

/// The lifetime of one dev session.
#[derive(Clone, Copy, Debug, PartialEq, Eq)]
pub enum Phase {
    /// Building the initial state; no child process yet.
    Starting,
    /// Watch, build and signal activities are live.
    Running,
    /// Shutdown was broadcast; waiting for threads to finish.
    ShuttingDown,
    /// Every thread joined; the session is over.
    Terminal,
}

/// What the runner can observe and hand to the machine.
#[derive(Clone, Copy, Debug, PartialEq, Eq)]
pub enum DevEvent {
    /// The initial build succeeded.
    InitialBuildOk,
    /// The initial build failed: the session must end without a child.
    InitialBuildFailed,
    /// A non-empty change batch arrived from the watch thread.
    Batch,
    /// An incremental rebuild failed: report and keep watching.
    RebuildFailed,
    /// The OS interrupt signal arrived.
    Interrupt,
    /// Every thread was joined and the child was reaped.
    ShutdownComplete,
}

/// What the runner must do after a transition, in the order given.
#[derive(Clone, Copy, Debug, PartialEq, Eq)]
pub enum DevAction {
    /// Spawn the child server process (exactly once, after the first build).
    SpawnChild,
    /// Re-invoke the compiler collaborator on the current tree.
    Rebuild,
    /// Push the batch to the running server (best-effort).
    NotifyReload,
    /// Duplicate the shutdown token into every listener's channel.
    BroadcastShutdown,
    /// Terminate the child process (an already-exited child is not an error).
    KillChild,
    /// Join every spawned thread before returning.
    JoinThreads,
    /// Surface a non-fatal error to the operator.
    ReportError,
}

/// One independent shutdown notification, as delivered to one listener.
#[derive(Clone, Copy, Debug, PartialEq, Eq)]
pub struct ShutdownSignal {}

/// The orchestrator's state: the phase, how many independent threads listen
/// for shutdown, whether the child process is believed running, and whether
/// the session ends in failure.
#[derive(Clone, Copy, Debug, PartialEq, Eq)]
pub struct DevOrchestrator {
    pub phase: Phase,
    pub listeners: usize,
    pub child_running: bool,
    pub failed: bool,
}

/// The transition table: the state after `ev` arrives in state `s`.
/// Events that make no sense in a phase are ignored: same state, no action.
pub open spec fn next_state(s: DevOrchestrator, ev: DevEvent) -> DevOrchestrator {
    match (s.phase, ev) {
        (Phase::Starting, DevEvent::InitialBuildOk) => DevOrchestrator {
            phase: Phase::Running,
            child_running: true,
            ..s
        },
        (Phase::Starting, DevEvent::InitialBuildFailed) => DevOrchestrator {
            phase: Phase::ShuttingDown,
            failed: true,
            ..s
        },
        (Phase::Running, DevEvent::Interrupt) => DevOrchestrator {
            phase: Phase::ShuttingDown,
            child_running: false,
            ..s
        },
        (Phase::ShuttingDown, DevEvent::ShutdownComplete) => DevOrchestrator {
            phase: Phase::Terminal,
            ..s
        },
        _ => s,
    }
}

/// The actions the runner performs for the transition, in order.
pub open spec fn step_actions(s: DevOrchestrator, ev: DevEvent) -> Seq<DevAction> {
    match (s.phase, ev) {
        (Phase::Starting, DevEvent::InitialBuildOk) => seq![DevAction::SpawnChild],
        (Phase::Starting, DevEvent::InitialBuildFailed) => seq![
            DevAction::BroadcastShutdown,
            DevAction::JoinThreads,
        ],
        (Phase::Running, DevEvent::Batch) => seq![DevAction::Rebuild, DevAction::NotifyReload],
        (Phase::Running, DevEvent::RebuildFailed) => seq![DevAction::ReportError],
        (Phase::Running, DevEvent::Interrupt) => seq![
            DevAction::BroadcastShutdown,
            DevAction::KillChild,
            DevAction::JoinThreads,
        ],
        _ => Seq::empty(),
    }
}

impl DevOrchestrator {
    /// A session about to start, with `listeners` independent threads that
    /// will each listen for the shutdown token.
    pub fn new(listeners: usize) -> (s: DevOrchestrator)
        ensures
            s.phase == Phase::Starting,
            s.listeners == listeners,
            !s.child_running,
            !s.failed,
    {
        DevOrchestrator { phase: Phase::Starting, listeners, child_running: false, failed: false }
    }

    /// Feed one event to the machine; the state advances and the returned
    /// actions are what the runner must perform, exactly as the transition
    /// table says.
    pub fn step(&mut self, ev: DevEvent) -> (actions: Vec<DevAction>)
        ensures
            *final(self) == next_state(*old(self), ev),
            actions@ == step_actions(*old(self), ev),
    {
        let mut actions: Vec<DevAction> = Vec::new();
        match (self.phase, ev) {
            (Phase::Starting, DevEvent::InitialBuildOk) => {
                self.phase = Phase::Running;
                self.child_running = true;
                actions.push(DevAction::SpawnChild);
            },
            (Phase::Starting, DevEvent::InitialBuildFailed) => {
                self.phase = Phase::ShuttingDown;
                self.failed = true;
                actions.push(DevAction::BroadcastShutdown);
                actions.push(DevAction::JoinThreads);
            },
            (Phase::Running, DevEvent::Batch) => {
                actions.push(DevAction::Rebuild);
                actions.push(DevAction::NotifyReload);
            },
            (Phase::Running, DevEvent::RebuildFailed) => {
                actions.push(DevAction::ReportError);
            },
            (Phase::Running, DevEvent::Interrupt) => {
                self.phase = Phase::ShuttingDown;
                self.child_running = false;
                actions.push(DevAction::BroadcastShutdown);
                actions.push(DevAction::KillChild);
                actions.push(DevAction::JoinThreads);
            },
            (Phase::ShuttingDown, DevEvent::ShutdownComplete) => {
                self.phase = Phase::Terminal;
            },
            _ => {},
        }
        proof {
            assert(actions@ =~= step_actions(*old(self), ev));
        }
        actions
    }

    /// The shutdown fan-out: one logical shutdown event duplicated into one
    /// independent token per registered listener.  The whole vector is built
    /// before anything is sent, so either every listener can be served its
    /// token or none is — never a partial set.
    pub fn shutdown_fanout(&self) -> (sigs: Vec<ShutdownSignal>)
        ensures
            sigs@.len() == self.listeners,
    {
        let mut sigs: Vec<ShutdownSignal> = Vec::new();
        let mut i: usize = 0;
        while i < self.listeners
            invariant
                0 <= i <= self.listeners,
                sigs@.len() == i,
            decreases self.listeners - i,
        {
            sigs.push(ShutdownSignal {  });
            i += 1;
        }
        sigs
    }
}

/// Shutdown termination: in every reachable Running state, the interrupt
/// broadcasts the shutdown token to the listeners, kills the child and
/// joins every thread, and the machine reaches Terminal as soon as the
/// runner reports the joins complete.  No Running state can ignore the
/// interrupt.
pub proof fn lemma_shutdown_terminates(s: DevOrchestrator)
    requires
        s.phase == Phase::Running,
    ensures
        next_state(s, DevEvent::Interrupt).phase == Phase::ShuttingDown,
        !next_state(s, DevEvent::Interrupt).child_running,
        step_actions(s, DevEvent::Interrupt).contains(DevAction::BroadcastShutdown),
        step_actions(s, DevEvent::Interrupt).contains(DevAction::KillChild),
        step_actions(s, DevEvent::Interrupt).contains(DevAction::JoinThreads),
        next_state(next_state(s, DevEvent::Interrupt), DevEvent::ShutdownComplete).phase
            == Phase::Terminal,
{
    let acts = step_actions(s, DevEvent::Interrupt);
    assert(acts[0] == DevAction::BroadcastShutdown);
    assert(acts[1] == DevAction::KillChild);
    assert(acts[2] == DevAction::JoinThreads);
}

/// Error policy at startup: a failed initial build never spawns the child
/// server, yet still broadcasts shutdown and joins the watch thread — the
/// watcher is never leaked, successful startup or not.
pub proof fn lemma_failed_startup_stops_watcher(s: DevOrchestrator)
    requires
        s.phase == Phase::Starting,
        !s.child_running,
    ensures
        next_state(s, DevEvent::InitialBuildFailed).phase == Phase::ShuttingDown,
        next_state(s, DevEvent::InitialBuildFailed).failed,
        !next_state(s, DevEvent::InitialBuildFailed).child_running,
        !step_actions(s, DevEvent::InitialBuildFailed).contains(DevAction::SpawnChild),
        step_actions(s, DevEvent::InitialBuildFailed).contains(DevAction::BroadcastShutdown),
        step_actions(s, DevEvent::InitialBuildFailed).contains(DevAction::JoinThreads),
{
    let acts = step_actions(s, DevEvent::InitialBuildFailed);
    assert(acts[0] == DevAction::BroadcastShutdown);
    assert(acts[1] == DevAction::JoinThreads);
    assert forall|i: int| 0 <= i < acts.len() implies acts[i] != DevAction::SpawnChild by {
        if i == 0 {
        } else {
            assert(i == 1);
        }
    }
}

} // verus!
