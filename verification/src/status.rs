use vstd::prelude::*;

verus! {

/// Outcome of one build attempt, as recorded in the store.
#[derive(Clone, Copy, PartialEq, Eq, Structural, Debug)]
pub enum BuildResult {
    Built,
    Failed,
}

/// What the container runtime reports for a deployment's container.
#[derive(Clone, Copy, PartialEq, Eq, Structural, Debug)]
pub enum ContainerState {
    /// No container has been created.
    Absent,
    /// The image is being built.
    Building,
    /// The container exited with the given code; the built image is kept.
    Exited { code: i64 },
    /// The container is running; `ready` says whether it accepts traffic.
    Running { ready: bool },
}

/// The status a deployment reports.
#[derive(Clone, Copy, PartialEq, Eq, Structural, Debug)]
pub enum Status {
    Built,
    StandBy,
    Queued,
    Building,
    Ready,
    Failed,
}

/// The status derived from the container state and the recorded build result.
/// A recorded failure dominates everything: such a deployment never reports
/// any other status again.
pub open spec fn spec_status(container: ContainerState, result: Option<BuildResult>) -> Status {
    if result == Some(BuildResult::Failed) {
        Status::Failed
    } else {
        match container {
            ContainerState::Absent => if result is None {
                Status::Queued
            } else {
                Status::Built
            },
            ContainerState::Building => Status::Building,
            ContainerState::Exited { code } => if code == 0 {
                Status::StandBy
            } else {
                Status::Failed
            },
            ContainerState::Running { ready } => if ready {
                Status::Ready
            } else {
                Status::Building
            },
        }
    }
}

/// Derives the reported status from the container state and build result.
pub fn derive_status(container: ContainerState, result: Option<BuildResult>) -> (s: Status)
    ensures
        s == spec_status(container, result),
{
    match result {
        Some(BuildResult::Failed) => Status::Failed,
        _ => match container {
            ContainerState::Absent => if result.is_none() {
                Status::Queued
            } else {
                Status::Built
            },
            ContainerState::Building => Status::Building,
            ContainerState::Exited { code } => if code == 0 {
                Status::StandBy
            } else {
                Status::Failed
            },
            ContainerState::Running { ready } => if ready {
                Status::Ready
            } else {
                Status::Building
            },
        },
    }
}

impl Status {
    /// The lower-case word shown for this status.
    pub fn to_string(&self) -> (r: String)
        ensures
            (*self == Status::Built ==> r@ == "built"@) && (*self == Status::Queued ==> r@
                == "queued"@) && (*self == Status::Building ==> r@ == "building"@) && (*self
                == Status::StandBy ==> r@ == "stand by"@) && (*self == Status::Ready ==> r@
                == "ready"@) && (*self == Status::Failed ==> r@ == "failed"@),
    {
        let string = match self {
            Self::Built => "built",
            Self::Queued => "queued",
            Self::Building => "building",
            Self::StandBy => "stand by",
            Self::Ready => "ready",
            Self::Failed => "failed",
        };
        string.to_owned()
    }
}

} // verus!
