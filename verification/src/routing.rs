use vstd::prelude::*;

verus! {

/// The loopback port of the management API listener.
pub const API_PORT: u16 = 5045;

/// A host-local IPv4 socket a request can be proxied to.
#[derive(Clone, Copy, PartialEq, Eq, Structural, Debug)]
pub struct SocketV4 {
    pub ip0: u8,
    pub ip1: u8,
    pub ip2: u8,
    pub ip3: u8,
    pub port: u16,
}

/// The loopback socket of the management API.
pub fn api_socket() -> (r: SocketV4)
    ensures
        r == (SocketV4 { ip0: 127, ip1: 0, ip2: 0, ip3: 1, port: API_PORT }),
{
    SocketV4 { ip0: 127, ip1: 0, ip2: 0, ip3: 1, port: API_PORT }
}

/// One binding of the manager's hostname index.
#[derive(Clone, Debug)]
pub struct HostEntry {
    pub hostname: String,
    pub deployment_id: i64,
    pub public: bool,
}

/// The index is well formed when no hostname is bound twice.
pub open spec fn index_wf(index: Seq<HostEntry>) -> bool {
    forall|i: int, j: int| 0 <= i < j < index.len() ==> index[i].hostname@ != index[j].hostname@
}

/// Whether some entry of the index binds this hostname.
pub open spec fn index_binds(index: Seq<HostEntry>, host: Seq<char>) -> bool {
    exists|i: int| 0 <= i < index.len() && index[i].hostname@ == host
}

/// The entry binding this hostname.
pub open spec fn index_entry_for(index: Seq<HostEntry>, host: Seq<char>) -> HostEntry {
    index[choose|i: int| 0 <= i < index.len() && index[i].hostname@ == host]
}

/// Looks a hostname up in the index.
pub fn lookup_host(index: &Vec<HostEntry>, host: &str) -> (r: Option<(i64, bool)>)
    requires
        index_wf(index@),
    ensures
        match r {
            Some(e) => index_binds(index@, host@) && e.0 == index_entry_for(index@, host@)
                .deployment_id && e.1 == index_entry_for(index@, host@).public,
            None => !index_binds(index@, host@),
        },
{
    let host_owned = host.to_owned();
    let n = index.len();
    let mut i: usize = 0;
    while i < n
        invariant
            0 <= i <= n,
            n == index@.len(),
            index_wf(index@),
            host_owned@ == host@,
            forall|j: int| 0 <= j < i ==> index@[j].hostname@ != host@,
        decreases n - i,
    {
        if index[i].hostname.eq(&host_owned) {
            return Some((index[i].deployment_id, index[i].public));
        }
        i = i + 1;
    }
    None
}

/// The cookie pairs that the `Cookie` header text parses into, in order,
/// invalid fragments left out.
pub uninterp spec fn cookies_of(header: Seq<char>) -> Seq<(Seq<char>, Seq<char>)>;

/// Relies on cookie::Cookie::split_parse: parsing a `Cookie` header is a
/// function of the header text alone; each well-formed `name=value` fragment
/// yields one pair and the rest are dropped.
#[verifier::external_body]
fn split_cookies(header: &str) -> (r: Vec<(String, String)>)
    ensures
        r@.map_values(|p: (String, String)| (p.0@, p.1@)) == cookies_of(header@),
{
    cookie::Cookie::split_parse(header)
        .filter_map(|c| c.ok())
        .map(|c| (c.name().to_owned(), c.value().to_owned()))
        .collect()
}

/// Whether the parsed cookies hold one named `name` with value `token`.
pub open spec fn has_auth_cookie(
    cookies: Seq<(Seq<char>, Seq<char>)>,
    name: Seq<char>,
    token: Seq<char>,
) -> bool {
    exists|i: int| 0 <= i < cookies.len() && cookies[i].0 == name && cookies[i].1 == token
}

/// Scans parsed cookie pairs for one named `name` carrying exactly `token`.
pub fn pairs_authenticate(pairs: &Vec<(String, String)>, name: &str, token: &str) -> (r: bool)
    ensures
        r == has_auth_cookie(
            pairs@.map_values(|p: (String, String)| (p.0@, p.1@)),
            name@,
            token@,
        ),
{
    let ghost views = pairs@.map_values(|p: (String, String)| (p.0@, p.1@));
    let name_owned = name.to_owned();
    let token_owned = token.to_owned();
    let n = pairs.len();
    let mut i: usize = 0;
    while i < n
        invariant
            0 <= i <= n,
            n == pairs@.len(),
            views == pairs@.map_values(|p: (String, String)| (p.0@, p.1@)),
            name_owned@ == name@,
            token_owned@ == token@,
            forall|j: int| 0 <= j < i ==> !(views[j].0 == name@ && views[j].1 == token@),
        decreases n - i,
    {
        if pairs[i].0.eq(&name_owned) && pairs[i].1.eq(&token_owned) {
            proof {
                assert(views[i as int].0 == name@ && views[i as int].1 == token@);
            }
            return true;
        }
        i = i + 1;
    }
    false
}

/// Whether the request carries the auth cookie: a cookie whose name is the
/// management hostname and whose value is the configured token.
pub fn is_authenticated(cookie_header: Option<&String>, hostname: &str, token: &str) -> (r: bool)
    ensures
        r == match cookie_header {
            Some(h) => has_auth_cookie(cookies_of(h@), hostname@, token@),
            None => false,
        },
{
    match cookie_header {
        Some(header) => {
            let pairs = split_cookies(header.as_str());
            pairs_authenticate(&pairs, hostname, token)
        },
        None => false,
    }
}

/// The URL that `base` becomes when a `callback` query pair is appended,
/// with its percent-encoding applied.
pub uninterp spec fn with_callback_of(base: Seq<char>, callback: Seq<char>) -> Seq<char>;

/// Whether url::Url::parse accepts this text as a URL base: a function of
/// the text alone.
pub uninterp spec fn url_base_ok(base: Seq<char>) -> bool;

/// Relies on url::Url::parse and url::Url::query_pairs_mut (form_urlencoded's
/// Serializer::append_pair): both are functions of their text arguments
/// alone; parse accepts a base or rejects it with an error, depending only
/// on the base text, and appending the pair never fails.
#[verifier::external_body]
fn append_callback_query(base: &str, callback: &str) -> (r: Option<String>)
    ensures
        (r is Some) == url_base_ok(base@),
        r matches Some(u) ==> u@ == with_callback_of(base@, callback@),
{
    let mut url = match url::Url::parse(base) {
        Ok(u) => u,
        Err(_) => {
            return None;
        },
    };
    url.query_pairs_mut().append_pair("callback", callback);
    Some(String::from(url))
}

/// The base the auth redirect is built on: `<coordinator>/api/instance/auth`.
pub open spec fn auth_base_spec(coordinator: Seq<char>) -> Seq<char> {
    coordinator + "/api/instance/auth"@
}

/// The URL the client is told to come back to: `https://<host><path>`.
pub open spec fn callback_spec(host: Seq<char>, path: Seq<char>) -> Seq<char> {
    "https://"@ + host + path
}

/// Builds the location of the auth redirect:
/// `<coordinator>/api/instance/auth?callback=<https://host+path, encoded>`.
/// Yields the location exactly when the configured coordinator makes a
/// parsable URL base, and nothing otherwise.
pub fn auth_redirect_location(coordinator: &str, host: &str, path: &str) -> (r: Option<String>)
    ensures
        (r is Some) == url_base_ok(auth_base_spec(coordinator@)),
        r matches Some(u) ==> u@ == with_callback_of(
            auth_base_spec(coordinator@),
            callback_spec(host@, path@),
        ),
{
    let mut base = coordinator.to_owned();
    base.append("/api/instance/auth");
    let mut callback = String::new();
    callback.append("https://");
    callback.append(host);
    callback.append(path);
    append_callback_query(base.as_str(), callback.as_str())
}

/// What the data plane decides to do with one HTTPS request, before asking
/// the deployment for its socket.
#[derive(Clone, Debug)]
pub enum RouteDecision {
    /// No Host header, or no deployment bound to it: fail the request.
    NoPeer,
    /// The management hostname: forward to the API listener on loopback.
    ForwardApi,
    /// A deployment the caller may reach: ask it for access.
    FetchAccess { deployment_id: i64 },
    /// A non-public deployment without the auth cookie: redirect here.
    Redirect { location: String },
    /// The redirect was owed but the configured coordinator is no URL base.
    RedirectUnavailable,
}

/// Decides the route of one request: the management hostname goes to the
/// API; a hostname bound to a public deployment, or any bound hostname with
/// the auth cookie, goes to that deployment; a bound non-public hostname
/// without the cookie is redirected to the coordinator's auth endpoint; an
/// absent or unbound hostname has no peer.
pub fn filter_request(
    host: Option<&String>,
    path: &str,
    cookie_header: Option<&String>,
    api_hostname: &str,
    token: &str,
    coordinator: &str,
    index: &Vec<HostEntry>,
) -> (r: RouteDecision)
    requires
        index_wf(index@),
    ensures
        match host {
            None => r is NoPeer,
            Some(h) => {
                if h@ == api_hostname@ {
                    r is ForwardApi
                } else if !index_binds(index@, h@) {
                    r is NoPeer
                } else {
                    let entry = index_entry_for(index@, h@);
                    let authed = match cookie_header {
                        Some(c) => has_auth_cookie(cookies_of(c@), api_hostname@, token@),
                        None => false,
                    };
                    if entry.public || authed {
                        r == (RouteDecision::FetchAccess { deployment_id: entry.deployment_id })
                    } else {
                        match r {
                            RouteDecision::Redirect { location } => url_base_ok(
                                auth_base_spec(coordinator@),
                            ) && location@ == with_callback_of(
                                auth_base_spec(coordinator@),
                                callback_spec(h@, path@),
                            ),
                            RouteDecision::RedirectUnavailable => !url_base_ok(
                                auth_base_spec(coordinator@),
                            ),
                            _ => false,
                        }
                    }
                }
            },
        },
{
    let h = match host {
        Some(h) => h,
        None => {
            return RouteDecision::NoPeer;
        },
    };
    let api_owned = api_hostname.to_owned();
    if h.eq(&api_owned) {
        return RouteDecision::ForwardApi;
    }
    match lookup_host(index, h.as_str()) {
        None => RouteDecision::NoPeer,
        Some((deployment_id, public)) => {
            if public || is_authenticated(cookie_header, api_hostname, token) {
                RouteDecision::FetchAccess { deployment_id }
            } else {
                match auth_redirect_location(coordinator, h.as_str(), path) {
                    Some(location) => RouteDecision::Redirect { location },
                    None => RouteDecision::RedirectUnavailable,
                }
            }
        },
    }
}

/// What a deployment answers when asked for access.
#[derive(Clone, Copy, PartialEq, Eq, Structural, Debug)]
pub enum AccessOutcome {
    /// The container is ready behind this socket.
    Socket { socket: SocketV4 },
    /// The container is still starting: show the loading page.
    Loading,
    /// The socket could not be acquired.
    Error,
}

/// The response the data plane sends for one access outcome.
#[derive(Clone, Debug)]
pub enum AccessResponse {
    /// Proxy the request to the container socket.
    Proxy { socket: SocketV4 },
    /// Serve the loading interstitial and close the connection.
    ServeLoading {
        status: u16,
        header_name: String,
        header_value: String,
        keepalive: bool,
        body: String,
    },
    /// The deployment could not hand out a socket.
    BadGateway { status: u16 },
}

/// The static page served while a container is starting.
pub open spec fn loading_page_spec() -> Seq<char> {
    "<html><head><meta http-equiv=\"refresh\" content=\"5\"></head><body>Your deployment is starting</body></html>"@
}

/// Serves the loading interstitial page text.
pub fn loading_page() -> (r: String)
    ensures
        r@ == loading_page_spec(),
{
    let page =
        "<html><head><meta http-equiv=\"refresh\" content=\"5\"></head><body>Your deployment is starting</body></html>";
    page.to_owned()
}

/// Turns what the deployment answered into the response the data plane
/// sends: a socket is proxied to; a loading deployment gets the
/// interstitial, 200, marked `Prezel-Loading: true`, keepalive off; an
/// error is a 502.
pub fn respond_to_access(access: &AccessOutcome) -> (r: AccessResponse)
    ensures
        match *access {
            AccessOutcome::Socket { socket } => r == (AccessResponse::Proxy { socket }),
            AccessOutcome::Loading => match r {
                AccessResponse::ServeLoading {
                    status,
                    header_name,
                    header_value,
                    keepalive,
                    body,
                } => status == 200 && header_name@ == "Prezel-Loading"@ && header_value@
                    == "true"@ && keepalive == false && body@ == loading_page_spec(),
                _ => false,
            },
            AccessOutcome::Error => r == (AccessResponse::BadGateway { status: 502 }),
        },
{
    match access {
        AccessOutcome::Socket { socket } => AccessResponse::Proxy { socket: *socket },
        AccessOutcome::Loading => AccessResponse::ServeLoading {
            status: 200,
            header_name: "Prezel-Loading".to_owned(),
            header_value: "true".to_owned(),
            keepalive: false,
            body: loading_page(),
        },
        AccessOutcome::Error => AccessResponse::BadGateway { status: 502 },
    }
}

/// The response of the plain HTTP listener on port 80.
#[derive(Clone, Debug)]
pub enum PlainResponse {
    /// Permanently moved to the HTTPS origin.
    Moved { status: u16, location: String, body: String },
    /// The request line carried no usable host.
    NotFound { status: u16 },
}

/// The body of the permanent-redirect page.
pub open spec fn moved_body_spec() -> Seq<char> {
    "<html><body>301 Moved Permanently</body></html>"@
}

/// Plans the port-80 answer: a parsable host is told to come back over
/// HTTPS at the same host and path, anything else is a 404.
pub fn plan_http_redirect(host: Option<&String>, path: &str) -> (r: PlainResponse)
    ensures
        match host {
            Some(h) => match r {
                PlainResponse::Moved { status, location, body } => status == 301 && location@
                    == callback_spec(h@, path@) && body@ == moved_body_spec(),
                _ => false,
            },
            None => r == (PlainResponse::NotFound { status: 404 }),
        },
{
    match host {
        Some(h) => {
            let mut location = String::new();
            location.append("https://");
            location.append(h.as_str());
            location.append(path);
            PlainResponse::Moved {
                status: 301,
                location,
                body: "<html><body>301 Moved Permanently</body></html>".to_owned(),
            }
        },
        None => PlainResponse::NotFound { status: 404 },
    }
}

/// The level a request is logged at.
#[allow(non_camel_case_types)]
#[derive(Clone, Copy, PartialEq, Eq, Structural, Debug)]
pub enum Level {
    INFO,
    ERROR,
}

/// Client and server errors are logged at `ERROR`, everything else at `INFO`.
pub open spec fn spec_log_level(status: u16) -> Level {
    if 400 <= status < 600 {
        Level::ERROR
    } else {
        Level::INFO
    }
}

/// Picks the log level of a response status.
pub fn log_level(status: u16) -> (l: Level)
    ensures
        l == spec_log_level(status),
{
    if 400 <= status && status < 600 {
        Level::ERROR
    } else {
        Level::INFO
    }
}

/// One request-log record.
#[derive(Clone, Debug)]
pub struct RequestLog {
    pub level: Level,
    pub deployment: i64,
    pub time: i64,
    pub host: String,
    pub method: String,
    pub path: String,
    pub status: u16,
}

/// Builds the log record of a finished request, if there is anything to
/// log: a request without a host, without a resolved deployment or without
/// a written response is not logged.
pub fn build_request_log(
    host: Option<&String>,
    method: &str,
    path: &str,
    deployment: Option<i64>,
    status: Option<u16>,
    now: i64,
) -> (r: Option<RequestLog>)
    ensures
        match (host, deployment, status) {
            (Some(h), Some(d), Some(st)) => r matches Some(log) && log.level == spec_log_level(st)
                && log.deployment == d && log.time == now && log.host@ == h@ && log.method@
                == method@ && log.path@ == path@ && log.status == st,
            _ => r is None,
        },
{
    match (host, deployment, status) {
        (Some(h), Some(d), Some(st)) => Some(
            RequestLog {
                level: log_level(st),
                deployment: d,
                time: now,
                host: h.clone(),
                method: method.to_owned(),
                path: path.to_owned(),
                status: st,
            },
        ),
        _ => None,
    }
}

} // verus!
