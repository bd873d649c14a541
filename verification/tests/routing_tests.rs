use prezel::api::api_deployment_view;
use prezel::hostname::get_app_hostname;
use prezel::hostname::get_db_hostname;
use prezel::hostname::get_prod_hostname;
use prezel::lifecycle::DeploymentHandle;
use prezel::routing::AccessOutcome;
use prezel::routing::AccessResponse;
use prezel::routing::HostEntry;
use prezel::routing::Level;
use prezel::routing::PlainResponse;
use prezel::routing::RouteDecision;
use prezel::routing::SocketV4;
use prezel::routing::api_socket;
use prezel::routing::build_request_log;
use prezel::routing::filter_request;
use prezel::routing::is_authenticated;
use prezel::routing::loading_page;
use prezel::routing::log_level;
use prezel::routing::lookup_host;
use prezel::routing::plan_http_redirect;
use prezel::routing::respond_to_access;
use prezel::status::BuildResult;
use prezel::status::Status;
use prezel::store::InsertDeployment;
use prezel::store::Store;

fn index() -> Vec<HostEntry> {
    vec![
        HostEntry {
            hostname: "d100000-p.box.dev".to_owned(),
            deployment_id: 7,
            public: false,
        },
        HostEntry {
            hostname: "p.box.dev".to_owned(),
            deployment_id: 7,
            public: true,
        },
    ]
}

#[test]
fn hostnames_are_derived_from_the_url_id() {
    assert_eq!(get_app_hostname("d100000", "box.dev", "p"), "d100000-p.box.dev");
    assert_eq!(get_db_hostname("d100000", "box.dev", "p"), "d100000-db-p.box.dev");
    assert_eq!(get_prod_hostname("box.dev", "p"), "p.box.dev");
}

#[test]
fn app_and_db_hostnames_of_distinct_deployments_differ() {
    let mut store = Store::new();
    for sha in ["abc", "def"] {
        store
            .insert_deployment(InsertDeployment {
                env: "".to_owned(),
                sha: sha.to_owned(),
                timestamp: 0,
                branch: None,
                project: 1,
            })
            .unwrap();
    }
    let u0 = store.deployments[0].url_id.clone();
    let u1 = store.deployments[1].url_id.clone();
    assert_ne!(
        get_app_hostname(&u0, "box.dev", "p"),
        get_app_hostname(&u1, "box.dev", "p")
    );
    assert_ne!(
        get_db_hostname(&u0, "box.dev", "p"),
        get_db_hostname(&u1, "box.dev", "p")
    );
    assert_ne!(
        get_app_hostname(&u0, "box.dev", "p"),
        get_db_hostname(&u0, "box.dev", "p")
    );
}

#[test]
fn the_api_listener_is_loopback() {
    let socket = api_socket();
    assert_eq!(
        socket,
        SocketV4 { ip0: 127, ip1: 0, ip2: 0, ip3: 1, port: 5045 }
    );
}

#[test]
fn lookup_finds_bound_hostnames() {
    let idx = index();
    assert_eq!(lookup_host(&idx, "d100000-p.box.dev"), Some((7, false)));
    assert_eq!(lookup_host(&idx, "p.box.dev"), Some((7, true)));
    assert_eq!(lookup_host(&idx, "missing.box.dev"), None);
}

#[test]
fn cookie_authentication_checks_name_and_value() {
    let header = "other=1; box.dev=tok123; x=y".to_owned();
    assert!(is_authenticated(Some(&header), "box.dev", "tok123"));
    assert!(!is_authenticated(Some(&header), "box.dev", "wrong"));
    assert!(!is_authenticated(Some(&header), "elsewhere.dev", "tok123"));
    assert!(!is_authenticated(None, "box.dev", "tok123"));
}

#[test]
fn missing_host_has_no_peer() {
    let decision = filter_request(
        None,
        "/",
        None,
        "box.dev",
        "tok",
        "https://coordinator.example",
        &index(),
    );
    assert!(matches!(decision, RouteDecision::NoPeer));
}

#[test]
fn management_hostname_goes_to_the_api() {
    let host = "box.dev".to_owned();
    let decision = filter_request(
        Some(&host),
        "/",
        None,
        "box.dev",
        "tok",
        "https://coordinator.example",
        &index(),
    );
    assert!(matches!(decision, RouteDecision::ForwardApi));
}

#[test]
fn public_deployment_needs_no_cookie() {
    let host = "p.box.dev".to_owned();
    let decision = filter_request(
        Some(&host),
        "/",
        None,
        "box.dev",
        "tok",
        "https://coordinator.example",
        &index(),
    );
    assert!(matches!(
        decision,
        RouteDecision::FetchAccess { deployment_id: 7 }
    ));
}

#[test]
fn authenticated_request_reaches_a_private_deployment() {
    let host = "d100000-p.box.dev".to_owned();
    let cookies = "box.dev=tok".to_owned();
    let decision = filter_request(
        Some(&host),
        "/",
        Some(&cookies),
        "box.dev",
        "tok",
        "https://coordinator.example",
        &index(),
    );
    assert!(matches!(
        decision,
        RouteDecision::FetchAccess { deployment_id: 7 }
    ));
}

#[test]
fn unauthenticated_request_is_redirected_to_the_coordinator() {
    let host = "d100000-p.box.dev".to_owned();
    let decision = filter_request(
        Some(&host),
        "/some/path",
        None,
        "box.dev",
        "tok",
        "https://coordinator.example",
        &index(),
    );
    match decision {
        RouteDecision::Redirect { location } => {
            assert_eq!(
                location,
                "https://coordinator.example/api/instance/auth?callback=https%3A%2F%2Fd100000-p.box.dev%2Fsome%2Fpath"
            );
        }
        other => panic!("expected a redirect, got {:?}", other),
    }
}

#[test]
fn loading_deployment_serves_the_interstitial() {
    match respond_to_access(&AccessOutcome::Loading) {
        AccessResponse::ServeLoading {
            status,
            header_name,
            header_value,
            keepalive,
            body,
        } => {
            assert_eq!(status, 200);
            assert_eq!(header_name, "Prezel-Loading");
            assert_eq!(header_value, "true");
            assert!(!keepalive);
            assert_eq!(body, loading_page());
        }
        other => panic!("expected the loading page, got {:?}", other),
    }
}

#[test]
fn ready_socket_is_proxied_and_errors_are_502() {
    let socket = SocketV4 { ip0: 127, ip1: 0, ip2: 0, ip3: 1, port: 8000 };
    assert!(matches!(
        respond_to_access(&AccessOutcome::Socket { socket }),
        AccessResponse::Proxy { socket: s } if s == socket
    ));
    assert!(matches!(
        respond_to_access(&AccessOutcome::Error),
        AccessResponse::BadGateway { status: 502 }
    ));
}

#[test]
fn plain_http_redirects_to_https() {
    let host = "p.box.dev".to_owned();
    match plan_http_redirect(Some(&host), "/a/b") {
        PlainResponse::Moved { status, location, body } => {
            assert_eq!(status, 301);
            assert_eq!(location, "https://p.box.dev/a/b");
            assert_eq!(body, "<html><body>301 Moved Permanently</body></html>");
        }
        other => panic!("expected a redirect, got {:?}", other),
    }
    assert!(matches!(
        plan_http_redirect(None, "/a"),
        PlainResponse::NotFound { status: 404 }
    ));
}

#[test]
fn request_logs_carry_the_right_level() {
    assert_eq!(log_level(200), Level::INFO);
    assert_eq!(log_level(302), Level::INFO);
    assert_eq!(log_level(404), Level::ERROR);
    assert_eq!(log_level(502), Level::ERROR);

    let host = "p.box.dev".to_owned();
    let log = build_request_log(Some(&host), "GET", "/x", Some(7), Some(404), 99).unwrap();
    assert_eq!(log.level, Level::ERROR);
    assert_eq!(log.deployment, 7);
    assert_eq!(log.time, 99);
    assert_eq!(log.host, "p.box.dev");
    assert_eq!(log.method, "GET");
    assert_eq!(log.path, "/x");
    assert_eq!(log.status, 404);

    assert!(build_request_log(None, "GET", "/x", Some(7), Some(200), 0).is_none());
    assert!(build_request_log(Some(&host), "GET", "/x", None, Some(200), 0).is_none());
    assert!(build_request_log(Some(&host), "GET", "/x", Some(7), None, 0).is_none());
}

#[test]
fn api_view_of_a_live_ready_deployment() {
    let mut store = Store::new();
    let id = store
        .insert_deployment(InsertDeployment {
            env: "".to_owned(),
            sha: "abc".to_owned(),
            timestamp: 3,
            branch: None,
            project: 1,
        })
        .unwrap();
    store.set_build_result(id, 9, BuildResult::Built).unwrap();

    let mut handle = DeploymentHandle::new(Some(BuildResult::Built), 0);
    handle.ensure_running();
    handle.container_ready(10);

    let view = api_deployment_view(
        &store.deployments[0],
        Some(&handle),
        Some("container-1".to_owned()),
        true,
        "box.dev",
        "p",
        "main",
    );
    assert_eq!(view.id, id);
    assert_eq!(view.sha, "abc");
    assert_eq!(view.gitref, "main");
    assert_eq!(view.status, Status::Ready);
    assert_eq!(view.url, Some("https://d100000-p.box.dev".to_owned()));
    assert_eq!(view.db_url, Some("https://d100000-db-p.box.dev".to_owned()));
    assert_eq!(view.target_url, Some("https://p.box.dev".to_owned()));
    assert_eq!(view.build_finished, Some(9));

    assert_eq!(view.app_container, Some("container-1".to_owned()));

    let queued = api_deployment_view(
        &store.deployments[0],
        None,
        None,
        false,
        "box.dev",
        "p",
        "main",
    );
    assert_eq!(queued.status, Status::Built);
    assert_eq!(queued.url, None);
    assert_eq!(queued.target_url, None);
    assert_eq!(queued.app_container, None);
}

#[test]
fn unparsable_coordinator_reports_redirect_unavailable() {
    let host = "d100000-p.box.dev".to_owned();
    let decision = filter_request(
        Some(&host),
        "/x",
        None,
        "box.dev",
        "tok",
        "not a url base",
        &index(),
    );
    assert!(matches!(decision, RouteDecision::RedirectUnavailable));
}
