use vstd::prelude::*;

use crate::status::BuildResult;
use crate::status::ContainerState;
use crate::status::Status;
use crate::status::derive_status;
use crate::status::spec_status;

verus! {

/// What a deployment asks of the build queue when `ensure_built` is called.
#[derive(Clone, Copy, PartialEq, Eq, Structural, Debug)]
pub enum BuildAction {
    /// Start a fresh build: the caller owes the deployment a `finish_build`.
    StartBuild,
    /// A build is already in flight: wait for it, start nothing.
    Attach,
    /// The build already terminated: nothing runs and nothing is owed.
    NoBuild,
}

/// What a deployment asks of the container host when `ensure_running` is called.
#[derive(Clone, Copy, PartialEq, Eq, Structural, Debug)]
pub enum RunAction {
    /// Start (or restart) the container from the built image.
    StartContainer,
    /// Nothing to do: already running, still building, or failed for good.
    NoRun,
}

/// The in-memory state a deployment object keeps for its container handle.
#[derive(Clone, Copy, PartialEq, Eq, Structural, Debug)]
pub struct DeploymentHandle {
    /// The recorded build outcome, if the build terminated.
    pub result: Option<BuildResult>,
    /// What the container runtime reports.
    pub container: ContainerState,
    /// Whether a build is in flight for this deployment.
    pub build_in_flight: bool,
    /// When the deployment last served a request.
    pub last_activity: u64,
}

/// A handle is consistent: a build is in flight exactly while the container
/// state says the image is being built, and a terminated build is never also
/// in flight.
pub open spec fn handle_wf(h: DeploymentHandle) -> bool {
    &&& (h.build_in_flight <==> h.container is Building)
    &&& (h.build_in_flight ==> h.result is None)
}

impl DeploymentHandle {
    /// A deployment freshly taken from the store, with no container yet.
    pub fn new(result: Option<BuildResult>, now: u64) -> (r: Self)
        ensures
            r == (DeploymentHandle {
                result,
                container: ContainerState::Absent,
                build_in_flight: false,
                last_activity: now,
            }),
            handle_wf(r),
    {
        DeploymentHandle { result, container: ContainerState::Absent, build_in_flight: false, last_activity: now }
    }

    /// The status this deployment reports.
    pub fn status(&self) -> (s: Status)
        ensures
            s == spec_status(self.container, self.result),
    {
        derive_status(self.container, self.result)
    }

    /// Asks for the build to have happened. Idempotent and single-flight: a
    /// fresh build starts only when none terminated and none is in flight;
    /// otherwise the caller attaches to the running build or gets nothing.
    pub fn ensure_built(&mut self) -> (a: BuildAction)
        requires
            handle_wf(*old(self)),
        ensures
            handle_wf(*final(self)),
            a == spec_ensure_built_action(*old(self)),
            *final(self) == spec_ensure_built_state(*old(self)),
    {
        if self.result.is_some() {
            BuildAction::NoBuild
        } else if self.build_in_flight {
            BuildAction::Attach
        } else {
            self.build_in_flight = true;
            self.container = ContainerState::Building;
            BuildAction::StartBuild
        }
    }

    /// Records the outcome of the build that was in flight. A successful
    /// build leaves the image ready to run; a failed one leaves no container.
    pub fn finish_build(&mut self, result: BuildResult) -> (s: Status)
        requires
            handle_wf(*old(self)),
            old(self).build_in_flight,
        ensures
            handle_wf(*final(self)),
            final(self).result == Some(result),
            !final(self).build_in_flight,
            final(self).last_activity == old(self).last_activity,
            result == BuildResult::Failed ==> s == Status::Failed,
            result == BuildResult::Built ==> s == Status::StandBy,
            s == spec_status(final(self).container, final(self).result),
    {
        self.result = Some(result);
        self.build_in_flight = false;
        match result {
            BuildResult::Built => {
                self.container = ContainerState::Exited { code: 0 };
            },
            BuildResult::Failed => {
                self.container = ContainerState::Absent;
            },
        }
        self.status()
    }

    /// Asks for a running container. A deployment whose build failed is left
    /// alone; a stand-by or absent container of a successful build is
    /// started; anything already running or building is kept.
    pub fn ensure_running(&mut self) -> (a: RunAction)
        requires
            handle_wf(*old(self)),
        ensures
            handle_wf(*final(self)),
            a == spec_ensure_running_action(*old(self)),
            *final(self) == spec_ensure_running_state(*old(self)),
    {
        if self.result == Some(BuildResult::Built) {
            match self.container {
                ContainerState::Absent | ContainerState::Exited { .. } => {
                    self.container = ContainerState::Running { ready: false };
                    RunAction::StartContainer
                },
                _ => RunAction::NoRun,
            }
        } else {
            RunAction::NoRun
        }
    }

    /// Records that the started container now accepts traffic.
    pub fn container_ready(&mut self, now: u64)
        requires
            handle_wf(*old(self)),
            old(self).container == (ContainerState::Running { ready: false }),
        ensures
            handle_wf(*final(self)),
            *final(self) == (DeploymentHandle {
                container: ContainerState::Running { ready: true },
                last_activity: now,
                ..*old(self)
            }),
    {
        self.container = ContainerState::Running { ready: true };
        self.last_activity = now;
    }

    /// Notes traffic, so the idle sweeper keeps the container alive.
    pub fn record_activity(&mut self, now: u64)
        requires
            handle_wf(*old(self)),
        ensures
            handle_wf(*final(self)),
            *final(self) == (DeploymentHandle { last_activity: now, ..*old(self) }),
    {
        self.last_activity = now;
    }

    /// Stops a ready container, releasing the socket but not the image.
    pub fn stop(&mut self)
        requires
            handle_wf(*old(self)),
        ensures
            handle_wf(*final(self)),
            *final(self) == spec_stop_state(*old(self)),
    {
        match self.container {
            ContainerState::Running { .. } => {
                self.container = ContainerState::Exited { code: 0 };
            },
            _ => {},
        }
    }

    /// One pass of the idle sweeper: a ready container that served nothing
    /// for `idle_timeout` is stopped into stand-by.
    pub fn sweep_idle(&mut self, now: u64, idle_timeout: u64) -> (evicted: bool)
        requires
            handle_wf(*old(self)),
        ensures
            handle_wf(*final(self)),
            evicted == spec_idle(*old(self), now, idle_timeout),
            evicted ==> *final(self) == spec_stop_state(*old(self)) && spec_status(
                final(self).container,
                final(self).result,
            ) == Status::StandBy,
            !evicted ==> *final(self) == *old(self),
    {
        let status = self.status();
        if status == Status::Ready && now >= self.last_activity && now - self.last_activity
            >= idle_timeout {
            self.stop();
            true
        } else {
            false
        }
    }
}

/// The action `ensure_built` answers from a given state.
pub open spec fn spec_ensure_built_action(h: DeploymentHandle) -> BuildAction {
    if h.result is Some {
        BuildAction::NoBuild
    } else if h.build_in_flight {
        BuildAction::Attach
    } else {
        BuildAction::StartBuild
    }
}

/// The state `ensure_built` leaves behind.
pub open spec fn spec_ensure_built_state(h: DeploymentHandle) -> DeploymentHandle {
    if h.result is None && !h.build_in_flight {
        DeploymentHandle { build_in_flight: true, container: ContainerState::Building, ..h }
    } else {
        h
    }
}

/// The action `ensure_running` answers from a given state.
pub open spec fn spec_ensure_running_action(h: DeploymentHandle) -> RunAction {
    if h.result == Some(BuildResult::Built) && (h.container is Absent || h.container is Exited) {
        RunAction::StartContainer
    } else {
        RunAction::NoRun
    }
}

/// The state `ensure_running` leaves behind.
pub open spec fn spec_ensure_running_state(h: DeploymentHandle) -> DeploymentHandle {
    if h.result == Some(BuildResult::Built) && (h.container is Absent || h.container is Exited) {
        DeploymentHandle { container: ContainerState::Running { ready: false }, ..h }
    } else {
        h
    }
}

/// The state `stop` leaves behind.
pub open spec fn spec_stop_state(h: DeploymentHandle) -> DeploymentHandle {
    if h.container is Running {
        DeploymentHandle { container: ContainerState::Exited { code: 0 }, ..h }
    } else {
        h
    }
}

/// Whether the idle sweeper evicts this handle at `now`.
pub open spec fn spec_idle(h: DeploymentHandle, now: u64, idle_timeout: u64) -> bool {
    spec_status(h.container, h.result) == Status::Ready && now >= h.last_activity && now
        - h.last_activity >= idle_timeout
}

/// The calls a caller can make on a live deployment handle.
#[derive(Clone, Copy, PartialEq, Eq, Structural, Debug)]
pub enum LifecycleOp {
    EnsureBuilt,
    EnsureRunning,
    Stop,
    Activity { now: u64 },
    Ready { now: u64 },
    Sweep { now: u64, idle_timeout: u64 },
}

/// The state one call leaves behind.
pub open spec fn spec_step(h: DeploymentHandle, op: LifecycleOp) -> DeploymentHandle {
    match op {
        LifecycleOp::EnsureBuilt => spec_ensure_built_state(h),
        LifecycleOp::EnsureRunning => spec_ensure_running_state(h),
        LifecycleOp::Stop => spec_stop_state(h),
        LifecycleOp::Activity { now } => DeploymentHandle { last_activity: now, ..h },
        LifecycleOp::Ready { now } => if h.container == (ContainerState::Running {
            ready: false,
        }) {
            DeploymentHandle {
                container: ContainerState::Running { ready: true },
                last_activity: now,
                ..h
            }
        } else {
            h
        },
        LifecycleOp::Sweep { now, idle_timeout } => if spec_idle(h, now, idle_timeout) {
            spec_stop_state(h)
        } else {
            h
        },
    }
}

/// The state a whole sequence of calls leaves behind.
pub open spec fn spec_run(h: DeploymentHandle, ops: Seq<LifecycleOp>) -> DeploymentHandle
    decreases ops.len(),
{
    if ops.len() == 0 {
        h
    } else {
        spec_step(spec_run(h, ops.drop_last()), ops.last())
    }
}

/// Status monotonicity of failure: a deployment whose recorded result is
/// `Failed` reports `Failed` after any sequence of lifecycle calls; in
/// particular no amount of `ensure_running` revives it.
pub proof fn lemma_failed_stays_failed(h: DeploymentHandle, ops: Seq<LifecycleOp>)
    requires
        h.result == Some(BuildResult::Failed),
    ensures
        spec_run(h, ops).result == Some(BuildResult::Failed),
        spec_status(spec_run(h, ops).container, spec_run(h, ops).result) == Status::Failed,
    decreases ops.len(),
{
    if ops.len() > 0 {
        lemma_failed_stays_failed(h, ops.drop_last());
    }
}

/// Single-flight build: once `ensure_built` has answered `StartBuild`, any
/// further `ensure_built` before the matching `finish_build` answers `Attach`
/// or `NoBuild`, never a second `StartBuild`.
pub proof fn lemma_single_flight_build(h: DeploymentHandle)
    requires
        handle_wf(h),
        spec_ensure_built_action(h) == BuildAction::StartBuild,
    ensures
        spec_ensure_built_action(spec_ensure_built_state(h)) != BuildAction::StartBuild,
        spec_ensure_built_action(spec_ensure_running_state(spec_ensure_built_state(h)))
            != BuildAction::StartBuild,
        spec_ensure_built_action(spec_stop_state(spec_ensure_built_state(h)))
            != BuildAction::StartBuild,
{
}

/// A terminated build is never rebuilt: `ensure_built` on a deployment whose
/// result is recorded starts nothing, whatever the outcome was.
pub proof fn lemma_no_rebuild_after_result(h: DeploymentHandle)
    requires
        handle_wf(h),
        h.result is Some,
    ensures
        spec_ensure_built_action(h) == BuildAction::NoBuild,
        spec_ensure_built_state(h) == h,
{
}

} // verus!
