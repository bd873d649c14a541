use prezel::lifecycle::BuildAction;
use prezel::lifecycle::DeploymentHandle;
use prezel::lifecycle::RunAction;
use prezel::status::BuildResult;
use prezel::status::ContainerState;
use prezel::status::Status;
use prezel::status::derive_status;

#[test]
fn status_table_matches_the_design() {
    assert_eq!(derive_status(ContainerState::Absent, None), Status::Queued);
    assert_eq!(derive_status(ContainerState::Building, None), Status::Building);
    assert_eq!(
        derive_status(ContainerState::Absent, Some(BuildResult::Failed)),
        Status::Failed
    );
    assert_eq!(
        derive_status(ContainerState::Exited { code: 0 }, Some(BuildResult::Built)),
        Status::StandBy
    );
    assert_eq!(
        derive_status(ContainerState::Running { ready: true }, Some(BuildResult::Built)),
        Status::Ready
    );
    assert_eq!(
        derive_status(ContainerState::Running { ready: false }, Some(BuildResult::Built)),
        Status::Building
    );
}

#[test]
fn status_words() {
    assert_eq!(Status::Built.to_string(), "built");
    assert_eq!(Status::Queued.to_string(), "queued");
    assert_eq!(Status::Building.to_string(), "building");
    assert_eq!(Status::StandBy.to_string(), "stand by");
    assert_eq!(Status::Ready.to_string(), "ready");
    assert_eq!(Status::Failed.to_string(), "failed");
}

#[test]
fn single_flight_build() {
    let mut handle = DeploymentHandle::new(None, 0);
    assert_eq!(handle.status(), Status::Queued);
    assert_eq!(handle.ensure_built(), BuildAction::StartBuild);
    assert_eq!(handle.status(), Status::Building);
    assert_eq!(handle.ensure_built(), BuildAction::Attach);
    assert_eq!(handle.ensure_built(), BuildAction::Attach);
    assert_eq!(handle.finish_build(BuildResult::Built), Status::StandBy);
    assert_eq!(handle.ensure_built(), BuildAction::NoBuild);
}

#[test]
fn build_failure_is_final() {
    let mut handle = DeploymentHandle::new(None, 0);
    assert_eq!(handle.ensure_built(), BuildAction::StartBuild);
    assert_eq!(handle.finish_build(BuildResult::Failed), Status::Failed);
    assert_eq!(handle.ensure_built(), BuildAction::NoBuild);
    assert_eq!(handle.ensure_running(), RunAction::NoRun);
    assert_eq!(handle.ensure_running(), RunAction::NoRun);
    assert_eq!(handle.status(), Status::Failed);
    handle.stop();
    assert_eq!(handle.status(), Status::Failed);
}

#[test]
fn idle_eviction_and_rewake() {
    let mut handle = DeploymentHandle::new(None, 0);
    handle.ensure_built();
    handle.finish_build(BuildResult::Built);
    assert_eq!(handle.ensure_running(), RunAction::StartContainer);
    handle.container_ready(100);
    assert_eq!(handle.status(), Status::Ready);

    // No eviction while recently active.
    assert!(!handle.sweep_idle(400, 600));
    assert_eq!(handle.status(), Status::Ready);

    // Idle for longer than the timeout: evicted to stand-by.
    assert!(handle.sweep_idle(701, 600));
    assert_eq!(handle.status(), Status::StandBy);

    // The next request wakes it up again.
    assert_eq!(handle.ensure_running(), RunAction::StartContainer);
    handle.container_ready(800);
    assert_eq!(handle.status(), Status::Ready);
}

#[test]
fn stop_releases_only_the_socket() {
    let mut handle = DeploymentHandle::new(None, 0);
    handle.ensure_built();
    handle.finish_build(BuildResult::Built);
    handle.ensure_running();
    handle.container_ready(5);
    handle.stop();
    assert_eq!(handle.status(), Status::StandBy);
    assert_eq!(handle.ensure_built(), BuildAction::NoBuild);
    assert_eq!(handle.ensure_running(), RunAction::StartContainer);
}
