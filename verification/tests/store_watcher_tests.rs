use prezel::status::BuildResult;
use prezel::store::InsertDeployment;
use prezel::store::Store;
use prezel::store::StoreError;
use prezel::store::mint_url_id;
use prezel::watcher::BranchObs;
use prezel::watcher::CommitObs;
use prezel::watcher::ProjectObs;
use prezel::watcher::SourceErr;
use prezel::watcher::watch_cycle;

fn insert_spec(project: i64, sha: &str) -> InsertDeployment {
    InsertDeployment {
        env: "".to_owned(),
        sha: sha.to_owned(),
        timestamp: 1,
        branch: None,
        project,
    }
}

#[test]
fn url_ids_are_long_unique_and_dash_free() {
    let a = mint_url_id(0);
    let b = mint_url_id(1);
    assert_eq!(a, "d100000");
    assert_eq!(b, "d100001");
    assert!(a.len() >= 6);
    assert!(!a.contains('-'));
    assert_ne!(a, b);
}

#[test]
fn duplicate_project_name_conflicts() {
    let mut store = Store::new();
    let first = store.insert_project("p".to_owned(), "r".to_owned(), "".to_owned(), 0);
    assert!(first.is_ok());
    let second = store.insert_project("p".to_owned(), "r2".to_owned(), "".to_owned(), 1);
    assert_eq!(second, Err(StoreError::Conflict));
}

#[test]
fn duplicate_sha_for_a_project_conflicts() {
    let mut store = Store::new();
    assert!(store.insert_deployment(insert_spec(1, "abc")).is_ok());
    assert_eq!(
        store.insert_deployment(insert_spec(1, "abc")),
        Err(StoreError::Conflict)
    );
    assert!(store.hash_exists("abc"));
    assert!(!store.hash_exists("def"));
}

#[test]
fn build_result_is_recorded_once() {
    let mut store = Store::new();
    let id = store.insert_deployment(insert_spec(1, "abc")).unwrap();
    assert!(store.set_build_started(id, 10).is_ok());
    assert!(store.set_build_result(id, 20, BuildResult::Built).is_ok());
    assert_eq!(
        store.set_build_result(id, 30, BuildResult::Failed),
        Err(StoreError::Conflict)
    );
    assert_eq!(store.set_build_started(77, 10), Err(StoreError::NotFound));
}

#[test]
fn promotion_needs_a_built_deployment_of_the_project() {
    let mut store = Store::new();
    let project = store
        .insert_project("p".to_owned(), "r".to_owned(), "".to_owned(), 0)
        .unwrap();
    let dep = store.insert_deployment(insert_spec(project, "abc")).unwrap();
    assert_eq!(store.promote_prod(project, dep), Err(StoreError::NotFound));
    store.set_build_result(dep, 20, BuildResult::Built).unwrap();
    assert!(store.promote_prod(project, dep).is_ok());
}

fn single_commit_obs(project_id: i64, sha: &str) -> ProjectObs {
    ProjectObs {
        project_id,
        env: "".to_owned(),
        default_head: Ok(Some(CommitObs { sha: sha.to_owned(), timestamp: 7 })),
        pulls: Ok(vec![]),
    }
}

#[test]
fn cold_start_inserts_one_production_candidate() {
    let mut store = Store::new();
    let project = store
        .insert_project("p".to_owned(), "r".to_owned(), "".to_owned(), 0)
        .unwrap();
    let obs = vec![single_commit_obs(project, "abc")];
    let aborted = watch_cycle(&mut store, &obs);
    assert!(!aborted);
    assert_eq!(store.deployments.len(), 1);
    assert_eq!(store.deployments[0].sha, "abc");
    assert_eq!(store.deployments[0].branch, None);
    assert_eq!(store.deployments[0].project, project);
    assert_eq!(store.deployments[0].result, None);
}

#[test]
fn repeated_cycles_insert_nothing_new() {
    let mut store = Store::new();
    let obs = vec![ProjectObs {
        project_id: 1,
        env: "".to_owned(),
        default_head: Ok(Some(CommitObs { sha: "abc".to_owned(), timestamp: 7 })),
        pulls: Ok(vec![BranchObs {
            branch: "feat".to_owned(),
            head: Ok(Some(CommitObs { sha: "def".to_owned(), timestamp: 8 })),
        }]),
    }];
    assert!(!watch_cycle(&mut store, &obs));
    assert_eq!(store.deployments.len(), 2);

    let obs_again = vec![ProjectObs {
        project_id: 1,
        env: "".to_owned(),
        default_head: Ok(Some(CommitObs { sha: "abc".to_owned(), timestamp: 7 })),
        pulls: Ok(vec![BranchObs {
            branch: "feat".to_owned(),
            head: Ok(Some(CommitObs { sha: "def".to_owned(), timestamp: 8 })),
        }]),
    }];
    assert!(!watch_cycle(&mut store, &obs_again));
    assert_eq!(store.deployments.len(), 2);
}

#[test]
fn pull_request_preview_gets_its_own_row() {
    let mut store = Store::new();
    assert!(!watch_cycle(&mut store, &vec![single_commit_obs(1, "abc")]));
    let obs = vec![ProjectObs {
        project_id: 1,
        env: "".to_owned(),
        default_head: Ok(Some(CommitObs { sha: "abc".to_owned(), timestamp: 7 })),
        pulls: Ok(vec![BranchObs {
            branch: "feat".to_owned(),
            head: Ok(Some(CommitObs { sha: "def".to_owned(), timestamp: 9 })),
        }]),
    }];
    assert!(!watch_cycle(&mut store, &obs));
    assert_eq!(store.deployments.len(), 2);
    assert_eq!(store.deployments[0].sha, "abc");
    assert_eq!(store.deployments[0].branch, None);
    assert_eq!(store.deployments[1].sha, "def");
    assert_eq!(store.deployments[1].branch, Some("feat".to_owned()));
    assert_ne!(store.deployments[0].url_id, store.deployments[1].url_id);
}

#[test]
fn transient_error_aborts_the_cycle() {
    let mut store = Store::new();
    let obs = vec![
        ProjectObs {
            project_id: 1,
            env: "".to_owned(),
            default_head: Err(SourceErr::Transient),
            pulls: Ok(vec![]),
        },
        single_commit_obs(2, "abc"),
    ];
    assert!(watch_cycle(&mut store, &obs));
    assert_eq!(store.deployments.len(), 0);
}

#[test]
fn not_found_skips_only_that_project() {
    let mut store = Store::new();
    let obs = vec![
        ProjectObs {
            project_id: 1,
            env: "".to_owned(),
            default_head: Err(SourceErr::NotFound),
            pulls: Ok(vec![]),
        },
        single_commit_obs(2, "abc"),
    ];
    assert!(!watch_cycle(&mut store, &obs));
    assert_eq!(store.deployments.len(), 1);
    assert_eq!(store.deployments[0].project, 2);
}

#[test]
fn deleting_the_prod_deployment_clears_the_pointer() {
    let mut store = Store::new();
    let project = store
        .insert_project("p".to_owned(), "r".to_owned(), "".to_owned(), 0)
        .unwrap();
    let dep = store.insert_deployment(insert_spec(project, "abc")).unwrap();
    store.set_build_result(dep, 20, BuildResult::Built).unwrap();
    store.promote_prod(project, dep).unwrap();
    assert_eq!(store.projects[0].prod_deployment_id, Some(dep));

    assert!(store.delete_deployment(dep).is_ok());
    assert_eq!(store.deployments.len(), 0);
    assert_eq!(store.projects[0].prod_deployment_id, None);
    assert_eq!(store.delete_deployment(dep), Err(StoreError::NotFound));
}

#[test]
fn later_build_wins_promotion_and_ties_break_by_id() {
    assert!(Store::promotion_wins(10, 3, 11, 2));
    assert!(!Store::promotion_wins(10, 3, 9, 4));
    assert!(Store::promotion_wins(10, 3, 10, 4));
    assert!(!Store::promotion_wins(10, 3, 10, 3));
    assert!(!Store::promotion_wins(10, 3, 10, 2));
}
