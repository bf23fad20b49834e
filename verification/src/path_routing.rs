//! Routes by path, and the annotations that set them.
use crate::config::{AccessLevel, ProxyAnnotations};
use crate::headers::{
    get_header, header_content, header_name_of, insert_header, law_names_are_names,
    lemma_plain_name, parse_header_name, remove_header, SAFE_NAMES,
};
use crate::net::SocketAddress;
use crate::text::{
    bounded_value, chars_of, concat, concat3, ends_with, parse_unsigned, same,
    slice_string, starts_with,
};
use crate::text_map::{text_values, TextMap};
use crate::tracestate::{check_header_value, is_header_text};
use vstd::prelude::*;
use vstd::utf8::encode_utf8;

verus! {

// ---------------------------------------------------------------------------
// Routes
// ---------------------------------------------------------------------------

/// What a route leads to.
#[derive(Debug)]
pub enum RouteTarget {
    Address(SocketAddress),
    Service { name: String, namespace: Option<String>, port: u16 },
    LoadBalance(Vec<RouteTarget>),
    DevboxTunnel { intercept_id: u128, session_id: u128, target_port: u16, auth_token: String },
}

/// A route for the paths that match a pattern.
#[derive(Debug)]
pub struct RouteConfig {
    pub path: String,
    pub target: RouteTarget,
    pub headers: TextMap<String>,
    pub timeout_ms: Option<u64>,
    pub requires_auth: bool,
    pub access_level: AccessLevel,
}

/// The routes, in the order in which they are tried, and the target of paths
/// that match none.
#[derive(Debug)]
pub struct ProxyConfig {
    pub default_target: SocketAddress,
    pub routes: Vec<RouteConfig>,
}

/// A pattern that ends in `/*` matches the paths that start with what stands
/// before; any other matches itself.
pub open spec fn matches_path(pattern: Seq<char>, path: Seq<char>) -> bool {
    if "/*"@.is_suffix_of(pattern) {
        pattern.take(pattern.len() - 2).is_prefix_of(path)
    } else {
        pattern == path
    }
}

pub fn path_matches(pattern: &str, path: &str) -> (r: bool)
    ensures
        r == matches_path(pattern@, path@),
{
    if ends_with(pattern, "/*") {
        proof {
            reveal_strlit("/*");
        }
        let chars: Vec<char> = chars_of(pattern);
        let prefix: String = slice_string(&chars, 0, chars.len() - 2);
        proof {
            assert(prefix@ =~= pattern@.take(pattern@.len() - 2));
        }
        starts_with(path, prefix.as_str())
    } else {
        same(pattern, path)
    }
}

/// Every path matches `/*`.
pub proof fn law_wildcard_matches_all(path: Seq<char>)
    ensures
        matches_path("/*"@, path),
{
    reveal_strlit("/*");
    assert("/*"@.take(0) =~= Seq::<char>::empty());
    assert(Seq::<char>::empty() =~= path.take(0));
}

/// The index of the first route that matches a path.
pub open spec fn first_match(routes: Seq<RouteConfig>, path: Seq<char>) -> nat
    decreases routes.len(),
{
    if routes.len() == 0 || matches_path(routes[0].path@, path) {
        0
    } else {
        1 + first_match(routes.drop_first(), path)
    }
}

/// The route of a path.
#[derive(Debug)]
pub enum RouteMatch<'a> {
    Configured(&'a RouteConfig),
    Default(RouteConfig),
}

/// A route for all paths, for the owner.
pub open spec fn is_owner_route(route: RouteConfig, target: SocketAddress) -> bool {
    &&& route.path@ == "/*"@
    &&& route.target == RouteTarget::Address(target)
    &&& route.timeout_ms is None
    &&& route.requires_auth
    &&& route.access_level == AccessLevel::Personal
}

/// Finds the route of a path: the first that matches, or one to the default
/// target.
pub fn find_matching_route<'a>(config: &'a ProxyConfig, path: &str) -> (r: RouteMatch<'a>)
    ensures
        ({
            let i = first_match(config.routes@, path@) as int;
            match r {
                RouteMatch::Configured(route) => i < config.routes@.len() && *route
                    == config.routes@[i],
                RouteMatch::Default(route) => {
                    &&& i == config.routes@.len()
                    &&& is_owner_route(route, config.default_target)
                    &&& route.headers@ == Map::<Seq<char>, String>::empty()
                },
            }
        }),
{
    let ghost all = config.routes@;
    let mut i: usize = 0;
    proof {
        assert(all.skip(0) =~= all);
    }
    while i < config.routes.len()
        invariant
            i <= config.routes@.len(),
            all == config.routes@,
            first_match(all, path@) == i + first_match(all.skip(i as int), path@),
        decreases config.routes@.len() - i,
    {
        proof {
            assert(all.skip(i as int)[0] == all[i as int]);
            assert(all.skip(i as int).drop_first() =~= all.skip(i as int + 1));
        }
        if path_matches(config.routes[i].path.as_str(), path) {
            return RouteMatch::Configured(&config.routes[i]);
        }
        i = i + 1;
    }
    RouteMatch::Default(
        RouteConfig {
            path: "/*".to_owned(),
            target: RouteTarget::Address(config.default_target),
            headers: TextMap::new(),
            timeout_ms: None,
            requires_auth: true,
            access_level: AccessLevel::Personal,
        },
    )
}

// ---------------------------------------------------------------------------
// Errors
// ---------------------------------------------------------------------------

/// What can go wrong in a sidecar proxy. Failures of other libraries are kept
/// as the text that they show.
#[derive(Debug)]
pub enum SidecarProxyError {
    Config(String),
    Kubernetes(String),
    Http(String),
    HttpRequest(String),
    Watcher(String),
    ServiceDiscovery(String),
    TargetNotFound { service_name: String },
    Authorization(String),
    Io(String),
    Json(String),
    Yaml(String),
    Connection(String),
    Rpc(String),
    Generic(String),
}

/// What an error shows.
pub open spec fn error_text(e: SidecarProxyError) -> Seq<char> {
    match e {
        SidecarProxyError::Config(t) => "Configuration error: "@ + t@,
        SidecarProxyError::Kubernetes(t) => "Kubernetes API error: "@ + t@,
        SidecarProxyError::Http(t) => "HTTP proxy error: "@ + t@,
        SidecarProxyError::HttpRequest(t) => "HTTP error: "@ + t@,
        SidecarProxyError::Watcher(t) => "Kubernetes watcher error: "@ + t@,
        SidecarProxyError::ServiceDiscovery(t) => "Service discovery error: "@ + t@,
        SidecarProxyError::TargetNotFound { service_name } => "Target service not found: "@
            + service_name@,
        SidecarProxyError::Authorization(t) => "Authorization error: "@ + t@,
        SidecarProxyError::Io(t) => "IO error: "@ + t@,
        SidecarProxyError::Json(t) => "JSON error: "@ + t@,
        SidecarProxyError::Yaml(t) => "YAML error: "@ + t@,
        SidecarProxyError::Connection(t) => "Connection error: "@ + t@,
        SidecarProxyError::Rpc(t) => "RPC error: "@ + t@,
        SidecarProxyError::Generic(t) => "Generic error: "@ + t@,
    }
}

/// The status and the body of the answer to a request that is not passed on.
pub open spec fn error_answer(e: SidecarProxyError) -> (u16, Seq<char>) {
    match e {
        SidecarProxyError::TargetNotFound { .. } => (502u16, "Target not found: "@ + error_text(e)),
        SidecarProxyError::Authorization(_) => (401u16, "Unauthorized"@),
        _ => (500u16, "Internal server error"@),
    }
}

impl SidecarProxyError {
    pub fn message(&self) -> (r: String)
        ensures
            r@ == error_text(*self),
    {
        match self {
            SidecarProxyError::Config(t) => concat("Configuration error: ", t.as_str()),
            SidecarProxyError::Kubernetes(t) => concat("Kubernetes API error: ", t.as_str()),
            SidecarProxyError::Http(t) => concat("HTTP proxy error: ", t.as_str()),
            SidecarProxyError::HttpRequest(t) => concat("HTTP error: ", t.as_str()),
            SidecarProxyError::Watcher(t) => concat("Kubernetes watcher error: ", t.as_str()),
            SidecarProxyError::ServiceDiscovery(t) => concat(
                "Service discovery error: ",
                t.as_str(),
            ),
            SidecarProxyError::TargetNotFound { service_name } => concat(
                "Target service not found: ",
                service_name.as_str(),
            ),
            SidecarProxyError::Authorization(t) => concat("Authorization error: ", t.as_str()),
            SidecarProxyError::Io(t) => concat("IO error: ", t.as_str()),
            SidecarProxyError::Json(t) => concat("JSON error: ", t.as_str()),
            SidecarProxyError::Yaml(t) => concat("YAML error: ", t.as_str()),
            SidecarProxyError::Connection(t) => concat("Connection error: ", t.as_str()),
            SidecarProxyError::Rpc(t) => concat("RPC error: ", t.as_str()),
            SidecarProxyError::Generic(t) => concat("Generic error: ", t.as_str()),
        }
    }

    /// The status and the body of the answer to a request that is not passed
    /// on.
    pub fn answer(&self) -> (r: (u16, String))
        ensures
            (r.0, r.1@) == error_answer(*self),
    {
        match self {
            SidecarProxyError::TargetNotFound { .. } => {
                let text: String = self.message();
                (502, concat("Target not found: ", text.as_str()))
            },
            SidecarProxyError::Authorization(_) => (401, "Unauthorized".to_owned()),
            _ => (500, "Internal server error".to_owned()),
        }
    }
}

// ---------------------------------------------------------------------------
// Resolving a target
// ---------------------------------------------------------------------------

/// What has to be done to learn the address of a target.
#[derive(Debug)]
pub enum ResolveStep {
    /// The address is known.
    Found(SocketAddress),
    /// The endpoints of the service have to be looked up: that of the target
    /// itself, or that of a member of a balanced target.
    LookUp { member: Option<usize> },
    Failed(SidecarProxyError),
}

/// The first member at or after an index that can be tried. Members that are
/// balanced themselves or lead through a tunnel are passed over.
pub open spec fn next_member(targets: Seq<RouteTarget>, from: nat) -> nat
    decreases targets.len() - from,
{
    if from >= targets.len() || targets[from as int] is Address || targets[from as int] is Service {
        from
    } else {
        next_member(targets, from + 1)
    }
}

/// `r` is what the members from an index on ask for.
pub open spec fn is_member_step(targets: Seq<RouteTarget>, from: nat, r: ResolveStep) -> bool {
    let n = next_member(targets, from);
    if n >= targets.len() {
        r matches ResolveStep::Failed(SidecarProxyError::ServiceDiscovery(m)) && m@
            == "No healthy targets available"@
    } else {
        match targets[n as int] {
            RouteTarget::Address(a) => r == ResolveStep::Found(a),
            _ => r matches ResolveStep::LookUp { member } && member == Some(n as usize),
        }
    }
}

fn member_step(targets: &Vec<RouteTarget>, from: usize) -> (r: ResolveStep)
    requires
        from <= targets@.len(),
    ensures
        is_member_step(targets@, from as nat, r),
{
    let mut i: usize = from;
    while i < targets.len()
        invariant
            from <= i <= targets@.len(),
            next_member(targets@, from as nat) == next_member(targets@, i as nat),
        decreases targets@.len() - i,
    {
        match &targets[i] {
            RouteTarget::Address(a) => {
                return ResolveStep::Found(*a);
            },
            RouteTarget::Service { name: _, namespace: _, port: _ } => {
                return ResolveStep::LookUp { member: Some(i) };
            },
            _ => {},
        }
        i = i + 1;
    }
    ResolveStep::Failed(SidecarProxyError::ServiceDiscovery("No healthy targets available".to_owned()))
}

/// The answer to a request whose route leads through a devbox tunnel: such
/// routes are known but not served, whoever asks. Nothing of any other route.
pub fn tunnel_route_answer(target: &RouteTarget) -> (r: Option<SidecarProxyError>)
    ensures
        match *target {
            RouteTarget::DevboxTunnel { intercept_id, session_id, target_port, auth_token } => r
                matches Some(SidecarProxyError::Generic(m)) && m@
                == "Devbox tunnel proxying not yet fully implemented. This requires RPC client access and WebSocket tunnel streaming."@,
            _ => r is None,
        },
{
    match target {
        RouteTarget::DevboxTunnel {
            intercept_id: _,
            session_id: _,
            target_port: _,
            auth_token: _,
        } => Some(
            SidecarProxyError::Generic(
                "Devbox tunnel proxying not yet fully implemented. This requires RPC client access and WebSocket tunnel streaming.".to_owned(),
            ),
        ),
        _ => None,
    }
}

/// Starts to resolve a target.
pub fn resolve_target(target: &RouteTarget) -> (r: ResolveStep)
    ensures
        match *target {
            RouteTarget::Address(a) => r == ResolveStep::Found(a),
            RouteTarget::Service { name, namespace, port } => r == (ResolveStep::LookUp {
                member: None,
            }),
            RouteTarget::LoadBalance(targets) => is_member_step(targets@, 0, r),
            RouteTarget::DevboxTunnel { intercept_id, session_id, target_port, auth_token } => r
                matches ResolveStep::Failed(SidecarProxyError::Generic(m)) && m@
                == "DevboxTunnel routing requires tunnel establishment, not direct resolution"@,
        },
{
    match target {
        RouteTarget::Address(a) => ResolveStep::Found(*a),
        RouteTarget::Service { name: _, namespace: _, port: _ } => ResolveStep::LookUp {
            member: None,
        },
        RouteTarget::LoadBalance(targets) => member_step(targets, 0),
        RouteTarget::DevboxTunnel {
            intercept_id: _,
            session_id: _,
            target_port: _,
            auth_token: _,
        } => ResolveStep::Failed(
            SidecarProxyError::Generic(
                "DevboxTunnel routing requires tunnel establishment, not direct resolution".to_owned(),
            ),
        ),
    }
}

/// Goes on after a lookup of a member of a balanced target: its first
/// endpoint is taken, and without one the next member is tried.
pub fn after_member_lookup(
    targets: &Vec<RouteTarget>,
    member: usize,
    endpoints: &Vec<SocketAddress>,
) -> (r: ResolveStep)
    requires
        member < targets@.len(),
    ensures
        if endpoints@.len() > 0 {
            r == ResolveStep::Found(endpoints@[0])
        } else {
            is_member_step(targets@, member as nat + 1, r)
        },
{
    if endpoints.len() > 0 {
        ResolveStep::Found(endpoints[0])
    } else {
        let count: usize = targets.len();
        assert(member < count);
        member_step(targets, member + 1)
    }
}

/// Goes on after a lookup of a service: its first endpoint is taken.
pub fn after_service_lookup(name: &str, endpoints: &Vec<SocketAddress>) -> (r: Result<
    SocketAddress,
    SidecarProxyError,
>)
    ensures
        match r {
            Ok(a) => endpoints@.len() > 0 && a == endpoints@[0],
            Err(e) => endpoints@.len() == 0 && (e matches SidecarProxyError::TargetNotFound {
                service_name,
            } && service_name@ == name@),
        },
{
    if endpoints.len() > 0 {
        Ok(endpoints[0])
    } else {
        Err(SidecarProxyError::TargetNotFound { service_name: name.to_owned() })
    }
}

/// A member that was passed over leads nowhere itself, and balancing never
/// goes back: the next member that is tried lies behind.
pub proof fn law_members_in_order(targets: Seq<RouteTarget>, from: nat)
    ensures
        from <= next_member(targets, from),
        next_member(targets, from) < targets.len() ==> targets[next_member(
            targets,
            from,
        ) as int] is Address || targets[next_member(targets, from) as int] is Service,
        forall|i: int|
            from <= i < next_member(targets, from) && i < targets.len() ==> !(
            #[trigger] targets[i] is Address) && !(targets[i] is Service),
    decreases targets.len() - from,
{
    if from < targets.len() && !(targets[from as int] is Address) && !(
    targets[from as int] is Service) {
        law_members_in_order(targets, from + 1);
    }
}

/// The addresses that could be read, in order.
pub open spec fn readable(addresses: Seq<Option<SocketAddress>>) -> Seq<SocketAddress>
    decreases addresses.len(),
{
    if addresses.len() == 0 {
        seq![]
    } else {
        match addresses.last() {
            Some(a) => readable(addresses.drop_last()).push(a),
            None => readable(addresses.drop_last()),
        }
    }
}

/// The endpoints of a service. Addresses that cannot be read are passed over.
pub fn service_endpoints(name: &str, addresses: &Vec<Option<SocketAddress>>) -> (r: Result<
    Vec<SocketAddress>,
    SidecarProxyError,
>)
    ensures
        match r {
            Ok(list) => list@.len() > 0 && list@ == readable(addresses@),
            Err(e) => readable(addresses@).len() == 0 && (e matches SidecarProxyError::TargetNotFound {
                service_name,
            } && service_name@ == name@),
        },
{
    let mut out: Vec<SocketAddress> = Vec::new();
    let mut i: usize = 0;
    proof {
        assert(addresses@.take(0) =~= Seq::<Option<SocketAddress>>::empty());
    }
    while i < addresses.len()
        invariant
            i <= addresses@.len(),
            out@ == readable(addresses@.take(i as int)),
        decreases addresses@.len() - i,
    {
        proof {
            assert(addresses@.take(i as int + 1).drop_last() =~= addresses@.take(i as int));
        }
        if let Some(a) = addresses[i] {
            out.push(a);
        }
        i = i + 1;
    }
    proof {
        assert(addresses@.take(addresses@.len() as int) =~= addresses@);
    }
    if out.len() == 0 {
        Err(SidecarProxyError::TargetNotFound { service_name: name.to_owned() })
    } else {
        Ok(out)
    }
}

// ---------------------------------------------------------------------------
// Requests
// ---------------------------------------------------------------------------

/// Tests whether a request may be passed on.
pub fn check_authorization(
    headers: &http::HeaderMap<http::HeaderValue>,
    access_level: AccessLevel,
) -> (r: Result<(), SidecarProxyError>)
    ensures
        ({
            let allowed = access_level == AccessLevel::Public || header_content(
                *headers,
            ).contains_key("authorization"@) || header_content(*headers).contains_key("cookie"@);
            match r {
                Ok(_) => allowed,
                Err(e) => !allowed && (e matches SidecarProxyError::Authorization(m) && m@
                    == "Authentication required"@),
            }
        }),
{
    proof {
        reveal_strlit("authorization");
        reveal_strlit("cookie");
        lemma_plain_name("authorization"@);
        lemma_plain_name("cookie"@);
    }
    match access_level {
        AccessLevel::Public => Ok(()),
        AccessLevel::Personal | AccessLevel::Shared => {
            if get_header(headers, "authorization").is_some() || get_header(
                headers,
                "cookie",
            ).is_some() {
                Ok(())
            } else {
                Err(SidecarProxyError::Authorization("Authentication required".to_owned()))
            }
        },
    }
}

/// What `http` reads in a text as a URI, as `http` writes it; the text of its
/// error where the text is none.
pub uninterp spec fn uri_reading(text: Seq<char>) -> Result<Seq<char>, Seq<char>>;

/// `http::Uri` out of a text, and back into text by `Display`.
#[verifier::external_body]
fn parse_uri(text: &str) -> (r: Result<String, String>)
    ensures
        match r {
            Ok(t) => uri_reading(text@) == Ok::<Seq<char>, Seq<char>>(t@),
            Err(e) => uri_reading(text@) == Err::<Seq<char>, Seq<char>>(e@),
        },
{
    let uri: http::Uri = text.parse().map_err(|e: http::uri::InvalidUri| e.to_string())?;
    Ok(uri.to_string())
}

/// The text under which a target gets a request.
pub open spec fn target_uri_text(target_addr: Seq<char>, path_and_query: Option<Seq<char>>) -> Seq<
    char,
> {
    "http://"@ + target_addr + (match path_and_query {
        Some(p) => p,
        None => "/"@,
    })
}

/// What a text that was read as a URI comes to.
pub fn target_uri_from(reading: Result<String, String>) -> (r: Result<String, SidecarProxyError>)
    ensures
        match reading {
            Ok(uri) => r matches Ok(t) && t == uri,
            Err(e) => r matches Err(SidecarProxyError::Generic(m)) && m@ == "Invalid target URI: "@
                + e@,
        },
{
    match reading {
        Ok(uri) => Ok(uri),
        Err(e) => Err(SidecarProxyError::Generic(concat("Invalid target URI: ", e.as_str()))),
    }
}

/// The URI under which a target gets a request.
pub fn build_target_uri(target_addr: &str, path_and_query: Option<&str>) -> (r: Result<
    String,
    SidecarProxyError,
>)
    ensures
        match uri_reading(
            target_uri_text(
                target_addr@,
                match path_and_query {
                    Some(p) => Some(p@),
                    None => None,
                },
            ),
        ) {
            Ok(uri) => r matches Ok(t) && t@ == uri,
            Err(e) => r matches Err(SidecarProxyError::Generic(m)) && m@ == "Invalid target URI: "@
                + e,
        },
{
    let text: String = match path_and_query {
        Some(p) => concat3("http://", target_addr, p),
        None => concat3("http://", target_addr, "/"),
    };
    target_uri_from(parse_uri(text.as_str()))
}

/// How long a target may take, in milliseconds.
pub fn request_timeout(route: &RouteConfig) -> (r: u64)
    ensures
        r == (match route.timeout_ms {
            Some(ms) => ms,
            None => 30000,
        }),
{
    match route.timeout_ms {
        Some(ms) => ms,
        None => 30000,
    }
}

/// A list of headers by name and value.
pub open spec fn pairs(headers: Seq<(String, String)>) -> Seq<(Seq<char>, Seq<char>)> {
    headers.map_values(|h: (String, String)| (h.0@, h.1@))
}

/// The values of each header name of a request.
pub type HeaderValues = Map<Seq<char>, Seq<Seq<u8>>>;

/// The headers but for those that concern one connection only.
pub open spec fn end_to_end(headers: HeaderValues) -> HeaderValues {
    headers.remove("connection"@).remove("proxy-connection"@).remove("te"@).remove(
        "trailers"@,
    ).remove("upgrade"@)
}

/// Why a header of a route cannot be set.
pub enum HeaderFault {
    Name,
    Value,
}

/// The headers once those of a route were set, in order, up to the first that
/// cannot be set.
pub open spec fn with_route_headers(headers: HeaderValues, route: Seq<(String, String)>) -> Result<
    HeaderValues,
    HeaderFault,
>
    decreases route.len(),
{
    if route.len() == 0 {
        Ok(headers)
    } else {
        match with_route_headers(headers, route.drop_last()) {
            Err(e) => Err(e),
            Ok(h) => match header_name_of(route.last().0@) {
                None => Err(HeaderFault::Name),
                Some(name) => if is_header_text(route.last().1@) {
                    Ok(h.insert(name, seq![encode_utf8(route.last().1@)]))
                } else {
                    Err(HeaderFault::Value)
                },
            },
        }
    }
}

proof fn lemma_route_fault(headers: HeaderValues, route: Seq<(String, String)>, n: int)
    requires
        0 <= n <= route.len(),
        with_route_headers(headers, route.take(n)) is Err,
    ensures
        with_route_headers(headers, route) == with_route_headers(headers, route.take(n)),
    decreases route.len() - n,
{
    if n < route.len() {
        assert(route.take(n + 1).drop_last() =~= route.take(n));
        lemma_route_fault(headers, route, n + 1);
    } else {
        assert(route.take(n) =~= route);
    }
}

/// The headers with which a request is passed on.
pub open spec fn forwarded_headers(headers: HeaderValues) -> HeaderValues {
    let hosted = if headers.contains_key("host"@) {
        headers.insert("x-forwarded-host"@, seq![headers["host"@][0]])
    } else {
        headers
    };
    hosted.insert("x-forwarded-proto"@, seq![seq![104u8, 116u8, 116u8, 112u8]])
}

/// A request and its route have so many headers that a map might not take
/// them.
pub open spec fn too_many_headers(headers: HeaderValues, route: Seq<(String, String)>) -> bool {
    headers.dom().len() + route.len() + 1 > SAFE_NAMES
}

fn full_map() -> (r: SidecarProxyError)
    ensures
        r matches SidecarProxyError::Generic(m) && m@ == "max size reached"@,
{
    SidecarProxyError::Generic("max size reached".to_owned())
}

/// Makes the headers with which a request is passed on: without those that
/// concern one connection only, with those of the route, and with the host
/// and the protocol that were asked for. May fail where there are very many
/// headers.
pub fn prepare_headers(original: http::HeaderMap<http::HeaderValue>, route: &RouteConfig) -> (r:
    Result<http::HeaderMap<http::HeaderValue>, SidecarProxyError>)
    ensures
        ({
            let given = header_content(original);
            let full = r matches Err(SidecarProxyError::Generic(m)) && m@ == "max size reached"@;
            if full {
                too_many_headers(given, route.headers.entry_seq())
            } else {
                match with_route_headers(end_to_end(given), route.headers.entry_seq()) {
                    Ok(h) => r matches Ok(map) && header_content(map) == forwarded_headers(h),
                    Err(HeaderFault::Name) => r matches Err(SidecarProxyError::Generic(m)) && m@
                        == "Invalid header name: "@ + "invalid HTTP header name"@,
                    Err(HeaderFault::Value) => r matches Err(SidecarProxyError::Generic(m)) && m@
                        == "Invalid header value: "@ + "failed to parse header value"@,
                }
            }
        }),
{
    let ghost given = header_content(original);
    let mut headers = original;
    proof {
        reveal_strlit("connection");
        reveal_strlit("proxy-connection");
        reveal_strlit("te");
        reveal_strlit("trailers");
        reveal_strlit("upgrade");
        reveal_strlit("host");
        reveal_strlit("x-forwarded-host");
        reveal_strlit("x-forwarded-proto");
        lemma_plain_name("connection"@);
        lemma_plain_name("proxy-connection"@);
        lemma_plain_name("te"@);
        lemma_plain_name("trailers"@);
        lemma_plain_name("upgrade"@);
        lemma_plain_name("host"@);
        lemma_plain_name("x-forwarded-host"@);
        lemma_plain_name("x-forwarded-proto"@);
    }
    remove_header(&mut headers, "connection");
    remove_header(&mut headers, "proxy-connection");
    remove_header(&mut headers, "te");
    remove_header(&mut headers, "trailers");
    remove_header(&mut headers, "upgrade");
    let ghost start = header_content(headers);
    let ghost list = route.headers.entry_seq();
    let mut i: usize = 0;
    proof {
        assert(list.take(0) =~= Seq::<(String, String)>::empty());
        assert(start.dom().subset_of(given.dom()));
        vstd::set_lib::lemma_len_subset(start.dom(), given.dom());
    }
    while i < route.headers.len()
        invariant
            i <= list.len(),
            list == route.headers.entry_seq(),
            given == header_content(original),
            start == end_to_end(given),
            header_content(headers).dom().finite(),
            header_content(headers).dom().len() <= given.dom().len() + i,
            with_route_headers(start, list.take(i as int)) == Ok::<_, HeaderFault>(
                header_content(headers),
            ),
        decreases list.len() - i,
    {
        proof {
            assert(list.take(i as int + 1).drop_last() =~= list.take(i as int));
            assert(list.take(i as int + 1).last() == list[i as int]);
        }
        let (name, value) = route.headers.entry(i);
        match parse_header_name(name) {
            Err(fault) => {
                proof {
                    lemma_route_fault(start, list, i as int + 1);
                    lemma_messages_differ();
                }
                return Err(
                    SidecarProxyError::Generic(concat("Invalid header name: ", fault.as_str())),
                );
            },
            Ok(parsed) => {
                if let Err(fault) = check_header_value(value.as_str()) {
                    proof {
                        lemma_route_fault(start, list, i as int + 1);
                        lemma_messages_differ();
                    }
                    return Err(
                        SidecarProxyError::Generic(concat("Invalid header value: ", fault.as_str())),
                    );
                }
                proof {
                    law_names_are_names(name@);
                }
                if !insert_header(&mut headers, parsed.as_str(), value.as_str().as_bytes()) {
                    return Err(full_map());
                }
            },
        }
        i = i + 1;
    }
    proof {
        assert(list.take(list.len() as int) =~= list);
    }
    if let Some(host) = get_header(&headers, "host") {
        if !insert_header(&mut headers, "x-forwarded-host", host.as_slice()) {
            return Err(full_map());
        }
    }
    let scheme: [u8; 4] = [104, 116, 116, 112];
    proof {
        assert(scheme@ =~= seq![104u8, 116u8, 116u8, 112u8]);
    }
    if !insert_header(&mut headers, "x-forwarded-proto", scheme.as_slice()) {
        return Err(full_map());
    }
    Ok(headers)
}

proof fn lemma_messages_differ()
    ensures
        "Invalid header name: "@ + "invalid HTTP header name"@ != "max size reached"@,
        "Invalid header value: "@ + "failed to parse header value"@ != "max size reached"@,
{
    reveal_strlit("Invalid header name: ");
    reveal_strlit("Invalid header value: ");
    reveal_strlit("max size reached");
    assert(("Invalid header name: "@ + "invalid HTTP header name"@)[0] == 'I');
    assert(("Invalid header value: "@ + "failed to parse header value"@)[0] == 'I');
}

/// The header concerns one connection only.
pub open spec fn is_hop_header(name: Seq<char>) -> bool {
    ||| name == "connection"@
    ||| name == "proxy-connection"@
    ||| name == "te"@
    ||| name == "trailers"@
    ||| name == "upgrade"@
}

/// Some header of a route has the name.
pub open spec fn sets_header(route: Seq<(String, String)>, name: Seq<char>) -> bool {
    exists|i: int| 0 <= i < route.len() && header_name_of((#[trigger] route[i]).0@) == Some(name)
}

proof fn lemma_route_adds_its_own(
    headers: HeaderValues,
    route: Seq<(String, String)>,
    name: Seq<char>,
)
    requires
        !headers.contains_key(name),
        !sets_header(route, name),
    ensures
        with_route_headers(headers, route) matches Ok(h) ==> !h.contains_key(name),
    decreases route.len(),
{
    if route.len() > 0 {
        let earlier = route.drop_last();
        assert(!sets_header(earlier, name)) by {
            if sets_header(earlier, name) {
                let i = choose|i: int|
                    0 <= i < earlier.len() && header_name_of((#[trigger] earlier[i]).0@) == Some(
                        name,
                    );
                assert(header_name_of(route[i].0@) == Some(name));
            }
        }
        lemma_route_adds_its_own(headers, earlier, name);
        assert(header_name_of(route[route.len() - 1].0@) != Some(name));
    }
}

/// None of the headers that concern one connection only is passed on, unless
/// the route sets it.
pub proof fn law_hop_headers_removed(
    headers: HeaderValues,
    route: Seq<(String, String)>,
    name: Seq<char>,
)
    requires
        is_hop_header(name),
        !sets_header(route, name),
    ensures
        with_route_headers(end_to_end(headers), route) matches Ok(h) ==> !forwarded_headers(
            h,
        ).contains_key(name),
{
    lemma_route_adds_its_own(end_to_end(headers), route, name);
    reveal_strlit("connection");
    reveal_strlit("proxy-connection");
    reveal_strlit("te");
    reveal_strlit("trailers");
    reveal_strlit("upgrade");
    reveal_strlit("x-forwarded-host");
    reveal_strlit("x-forwarded-proto");
    assert("proxy-connection"@[0] == 'p' && "x-forwarded-host"@[0] == 'x');
    assert(name.len() != "x-forwarded-proto"@.len());
    assert(name != "x-forwarded-host"@);
}


// ---------------------------------------------------------------------------
// Annotations
// ---------------------------------------------------------------------------

/// Some of the names is one that configures the proxy.
pub open spec fn some_configure_proxy(names: Set<Seq<char>>) -> bool {
    exists|k: Seq<char>| #[trigger] names.contains(k) && "lapdev.io/proxy-"@.is_prefix_of(k)
}

/// Tells whether some annotation configures the proxy.
pub fn has_proxy_annotations(annotations: &TextMap<String>) -> (r: bool)
    ensures
        r == some_configure_proxy(annotations@.dom()),
{
    let mut i: usize = 0;
    proof {
        annotations.lemma_entries();
    }
    while i < annotations.len()
        invariant
            i <= annotations.entry_seq().len(),
            forall|k: int|
                0 <= k < i ==> !"lapdev.io/proxy-"@.is_prefix_of(
                    (#[trigger] annotations.entry_seq()[k]).0@,
                ),
        decreases annotations.entry_seq().len() - i,
    {
        let (key, _value) = annotations.entry(i);
        if starts_with(key, "lapdev.io/proxy-") {
            proof {
                annotations.lemma_entries();
                assert(annotations@.contains_key(annotations.entry_seq()[i as int].0@));
            }
            return true;
        }
        i = i + 1;
    }
    proof {
        annotations.lemma_entries();
    }
    false
}

/// The value of an annotation.
pub open spec fn annotation(annotations: Map<Seq<char>, String>, name: Seq<char>) -> Option<
    Seq<char>,
> {
    if annotations.contains_key(name) {
        Some(annotations[name]@)
    } else {
        None
    }
}

/// The access level that an annotation names; an unknown one counts as the
/// owner's.
pub open spec fn annotated_access(value: Option<Seq<char>>) -> AccessLevel {
    match value {
        Some(v) => if v == "shared"@ {
            AccessLevel::Shared
        } else if v == "public"@ {
            AccessLevel::Public
        } else {
            AccessLevel::Personal
        },
        None => AccessLevel::Personal,
    }
}

/// `route` is what the annotations of a service say.
pub open spec fn is_service_route(
    route: RouteConfig,
    name: Seq<char>,
    namespace: Option<Seq<char>>,
    annotations: Map<Seq<char>, String>,
) -> bool {
    &&& route.path@ == "/"@ + name + "/*"@
    &&& route.target matches RouteTarget::Service { name: n, namespace: ns, port } && {
        &&& n@ == name
        &&& ns matches Some(t) && t@ == (match namespace {
            Some(given) => given,
            None => "default"@,
        })
        &&& port == (match annotation(annotations, ProxyAnnotations::TARGET_PORT@) {
            Some(v) => match bounded_value(v, 65535) {
                Some(p) => p as u16,
                None => 80u16,
            },
            None => 80u16,
        })
    }
    &&& route.headers@ == Map::<Seq<char>, String>::empty()
    &&& route.timeout_ms == (match annotation(annotations, ProxyAnnotations::TIMEOUT_MS@) {
        Some(v) => match bounded_value(v, u64::MAX as nat) {
            Some(t) => Some(t as u64),
            None => None,
        },
        None => None,
    })
    &&& route.requires_auth == (match annotation(annotations, ProxyAnnotations::REQUIRE_AUTH@) {
        Some(v) => v == "true"@,
        None => true,
    })
    &&& route.access_level == annotated_access(
        annotation(annotations, ProxyAnnotations::ACCESS_LEVEL@),
    )
}

/// A route leads to a service.
pub open spec fn leads_to_service(route: RouteConfig, name: Seq<char>) -> bool {
    route.target matches RouteTarget::Service { name: n, namespace, port } && n@ == name
}

/// The routes that do not lead to a service.
pub open spec fn other_routes(routes: Seq<RouteConfig>, name: Seq<char>) -> Seq<RouteConfig>
    decreases routes.len(),
{
    if routes.len() == 0 {
        seq![]
    } else {
        let earlier = other_routes(routes.drop_last(), name);
        if leads_to_service(routes.last(), name) {
            earlier
        } else {
            earlier.push(routes.last())
        }
    }
}

fn service_route(name: &str, namespace: Option<&str>, annotations: &TextMap<String>) -> (r:
    RouteConfig)
    ensures
        is_service_route(
            r,
            name@,
            match namespace {
                Some(n) => Some(n@),
                None => None,
            },
            annotations@,
        ),
{
    let port: u16 = match annotations.get(ProxyAnnotations::TARGET_PORT) {
        Some(v) => match parse_unsigned(v.as_str(), 65535) {
            Some(p) => p as u16,
            None => 80,
        },
        None => 80,
    };
    let access_level: AccessLevel = match annotations.get(ProxyAnnotations::ACCESS_LEVEL) {
        Some(v) => if same(v.as_str(), "shared") {
            AccessLevel::Shared
        } else if same(v.as_str(), "public") {
            AccessLevel::Public
        } else {
            AccessLevel::Personal
        },
        None => AccessLevel::Personal,
    };
    let requires_auth: bool = match annotations.get(ProxyAnnotations::REQUIRE_AUTH) {
        Some(v) => same(v.as_str(), "true"),
        None => true,
    };
    let timeout_ms: Option<u64> = match annotations.get(ProxyAnnotations::TIMEOUT_MS) {
        Some(v) => parse_unsigned(v.as_str(), u64::MAX),
        None => None,
    };
    let ns: String = match namespace {
        Some(n) => n.to_owned(),
        None => "default".to_owned(),
    };
    RouteConfig {
        path: concat3("/", name, "/*"),
        target: RouteTarget::Service { name: name.to_owned(), namespace: Some(ns), port },
        headers: TextMap::new(),
        timeout_ms,
        requires_auth,
        access_level,
    }
}

/// Replaces the routes to a service by the one that its annotations describe,
/// which is tried last.
pub fn update_service_routes(
    config: &mut ProxyConfig,
    name: &str,
    namespace: Option<&str>,
    annotations: &TextMap<String>,
)
    ensures
        final(config).default_target == old(config).default_target,
        final(config).routes@.len() == other_routes(old(config).routes@, name@).len() + 1,
        final(config).routes@.drop_last() == other_routes(old(config).routes@, name@),
        is_service_route(
            final(config).routes@.last(),
            name@,
            match namespace {
                Some(n) => Some(n@),
                None => None,
            },
            annotations@,
        ),
{
    let route: RouteConfig = service_route(name, namespace, annotations);
    let mut routes: Vec<RouteConfig> = Vec::new();
    core::mem::swap(&mut routes, &mut config.routes);
    let ghost all = routes@;
    let mut kept: Vec<RouteConfig> = Vec::new();
    proof {
        assert(all.take(0) =~= Seq::<RouteConfig>::empty());
    }
    for r in it: routes
        invariant
            it.seq() == all,
            kept@ == other_routes(all.take(it.index() as int), name@),
    {
        let ghost i = it.index() as int;
        proof {
            assert(all.take(i + 1).drop_last() =~= all.take(i));
            assert(all.take(i + 1).last() == r);
        }
        let leads: bool = match &r.target {
            RouteTarget::Service { name: n, namespace: _, port: _ } => same(n.as_str(), name),
            _ => false,
        };
        if !leads {
            kept.push(r);
        }
    }
    proof {
        assert(all.take(all.len() as int) =~= all);
    }
    let ghost before = kept@;
    kept.push(route);
    proof {
        assert(kept@.drop_last() =~= before);
    }
    config.routes = kept;
}

proof fn lemma_other_routes(routes: Seq<RouteConfig>, name: Seq<char>)
    ensures
        forall|i: int|
            0 <= i < other_routes(routes, name).len() ==> !leads_to_service(
                #[trigger] other_routes(routes, name)[i],
                name,
            ),
    decreases routes.len(),
{
    if routes.len() > 0 {
        lemma_other_routes(routes.drop_last(), name);
        let shorter = other_routes(routes.drop_last(), name);
        let w = other_routes(routes, name);
        assert forall|i: int| 0 <= i < w.len() implies !leads_to_service(#[trigger] w[i], name) by {
            if i < shorter.len() {
                assert(w[i] == shorter[i]);
            }
        }
    }
}

/// After an update one route leads to the service, the last one.
pub proof fn law_one_route_per_service(routes: Seq<RouteConfig>, name: Seq<char>, added: RouteConfig)
    requires
        leads_to_service(added, name),
    ensures
        forall|i: int|
            0 <= i < other_routes(routes, name).push(added).len() ==> (leads_to_service(
                #[trigger] other_routes(routes, name).push(added)[i],
                name,
            ) <==> i == other_routes(routes, name).len()),
{
    lemma_other_routes(routes, name);
    let w = other_routes(routes, name);
    assert forall|i: int| 0 <= i < w.push(added).len() implies (leads_to_service(
        #[trigger] w.push(added)[i],
        name,
    ) <==> i == w.len()) by {
        if i < w.len() {
            assert(w.push(added)[i] == w[i]);
        }
    }
}

/// `after` is `before` with more headers.
pub open spec fn is_extended(
    after: RouteConfig,
    before: RouteConfig,
    extra: Map<Seq<char>, String>,
) -> bool {
    &&& after.path == before.path
    &&& after.target == before.target
    &&& after.headers@ == before.headers@.union_prefer_right(extra)
    &&& after.timeout_ms == before.timeout_ms
    &&& after.requires_auth == before.requires_auth
    &&& after.access_level == before.access_level
}

/// `after` is `before` with more headers, by their text.
pub open spec fn has_extended_texts(
    after: RouteConfig,
    before: RouteConfig,
    extra: Map<Seq<char>, Seq<char>>,
) -> bool {
    &&& after.path == before.path
    &&& after.target == before.target
    &&& after.headers.texts() == before.headers.texts().union_prefer_right(extra)
    &&& after.timeout_ms == before.timeout_ms
    &&& after.requires_auth == before.requires_auth
    &&& after.access_level == before.access_level
}

/// Sets a default target, and headers for all routes. Where there is no route,
/// the headers make one to the default target. Tells whether anything was set.
pub fn apply_pod_config(
    config: &mut ProxyConfig,
    target: Option<SocketAddress>,
    headers: Option<TextMap<String>>,
) -> (r: bool)
    ensures
        r == (target is Some || headers is Some),
        final(config).default_target == (match target {
            Some(a) => a,
            None => old(config).default_target,
        }),
        match headers {
            None => final(config).routes == old(config).routes,
            Some(extra) => if old(config).routes@.len() == 0 {
                &&& final(config).routes@.len() == 1
                &&& is_owner_route(final(config).routes@[0], final(config).default_target)
                &&& final(config).routes@[0].headers == extra
            } else {
                &&& final(config).routes@.len() == old(config).routes@.len()
                &&& forall|i: int|
                    0 <= i < old(config).routes@.len() ==> is_extended(
                        #[trigger] final(config).routes@[i],
                        old(config).routes@[i],
                        extra@,
                    )
            },
        },
{
    let mut updated: bool = false;
    if let Some(addr) = target {
        config.default_target = addr;
        updated = true;
    }
    if let Some(extra) = headers {
        if config.routes.len() == 0 {
            let default_target: SocketAddress = config.default_target;
            config.routes.push(
                RouteConfig {
                    path: "/*".to_owned(),
                    target: RouteTarget::Address(default_target),
                    headers: extra,
                    timeout_ms: None,
                    requires_auth: true,
                    access_level: AccessLevel::Personal,
                },
            );
        } else {
            let mut routes: Vec<RouteConfig> = Vec::new();
            core::mem::swap(&mut routes, &mut config.routes);
            let ghost all = routes@;
            let mut out: Vec<RouteConfig> = Vec::new();
            for route in it: routes
                invariant
                    it.seq() == all,
                    out@.len() == it.index(),
                    forall|i: int|
                        0 <= i < out@.len() ==> is_extended(#[trigger] out@[i], all[i], extra@),
            {
                let mut route: RouteConfig = route;
                route.headers.extend_from(&extra);
                out.push(route);
            }
            config.routes = out;
        }
        updated = true;
    }
    updated
}

/// The texts that `serde_json` reads in a JSON object of texts, by key in the
/// order of the keys; nothing where it is no such object.
pub uninterp spec fn json_texts(text: Seq<char>) -> Option<Seq<(Seq<char>, Seq<char>)>>;

/// `serde_json::from_str` into a map from text to text, as the list of its
/// entries.
#[verifier::external_body]
fn parse_json_texts(text: &str) -> (r: Option<Vec<(String, String)>>)
    ensures
        match r {
            Some(list) => json_texts(text@) == Some(pairs(list@)),
            None => json_texts(text@) is None,
        },
{
    let map = serde_json::from_str::<std::collections::BTreeMap<String, String>>(text).ok()?;
    Some(map.into_iter().collect())
}

/// A map with the given entries. A later entry replaces an earlier one.
pub open spec fn text_map_of(entries: Seq<(Seq<char>, Seq<char>)>) -> Map<Seq<char>, Seq<char>>
    decreases entries.len(),
{
    if entries.len() == 0 {
        Map::empty()
    } else {
        text_map_of(entries.drop_last()).insert(entries.last().0, entries.last().1)
    }
}

/// Collects headers in a map.
pub fn header_map(list: Vec<(String, String)>) -> (r: TextMap<String>)
    ensures
        r.texts() == text_map_of(pairs(list@)),
{
    let ghost all = list@;
    let ghost views = pairs(list@);
    let mut out: TextMap<String> = TextMap::new();
    proof {
        assert(views.take(0) =~= Seq::<(Seq<char>, Seq<char>)>::empty());
        assert(out.texts() =~= Map::<Seq<char>, Seq<char>>::empty());
    }
    for pair in it: list
        invariant
            it.seq() == all,
            views == pairs(all),
            out.texts() == text_map_of(views.take(it.index() as int)),
    {
        let ghost i = it.index() as int;
        let ghost before = out@;
        proof {
            assert(views.take(i + 1).drop_last() =~= views.take(i));
            assert(views[i] == (pair.0@, pair.1@));
        }
        let (name, value) = pair;
        let ghost key = name@;
        let ghost shown = value@;
        out.insert(name, value);
        proof {
            assert(out.texts() =~= text_values(before).insert(key, shown));
        }
    }
    proof {
        assert(views.take(views.len() as int) =~= views);
    }
    out
}

/// The headers that the annotations of the proxy's own pod ask for.
pub open spec fn pod_headers(annotations: Map<Seq<char>, String>) -> Option<
    Map<Seq<char>, Seq<char>>,
> {
    match annotation(annotations, ProxyAnnotations::CUSTOM_HEADERS@) {
        Some(text) => match json_texts(text) {
            Some(entries) => Some(text_map_of(entries)),
            None => None,
        },
        None => None,
    }
}

/// Applies the annotations of the proxy's own pod: a default target, which is
/// given as it was read, and headers for all routes. What cannot be read is
/// passed over. Tells whether anything was set.
pub fn update_pod_config(
    config: &mut ProxyConfig,
    target: Option<SocketAddress>,
    annotations: &TextMap<String>,
) -> (r: bool)
    ensures
        r == (target is Some || pod_headers(annotations@) is Some),
        final(config).default_target == (match target {
            Some(a) => a,
            None => old(config).default_target,
        }),
        match pod_headers(annotations@) {
            None => final(config).routes == old(config).routes,
            Some(extra) => if old(config).routes@.len() == 0 {
                &&& final(config).routes@.len() == 1
                &&& is_owner_route(final(config).routes@[0], final(config).default_target)
                &&& final(config).routes@[0].headers.texts() == extra
            } else {
                &&& final(config).routes@.len() == old(config).routes@.len()
                &&& forall|i: int|
                    0 <= i < old(config).routes@.len() ==> has_extended_texts(
                        #[trigger] final(config).routes@[i],
                        old(config).routes@[i],
                        extra,
                    )
            },
        },
{
    let headers: Option<TextMap<String>> = match annotations.get(ProxyAnnotations::CUSTOM_HEADERS) {
        Some(text) => match parse_json_texts(text.as_str()) {
            Some(list) => Some(header_map(list)),
            None => None,
        },
        None => None,
    };
    let ghost before = *config;
    let r: bool = apply_pod_config(config, target, headers);
    proof {
        if headers is Some {
            let extra = headers->0;
            if before.routes@.len() > 0 {
                assert forall|i: int| 0 <= i < before.routes@.len() implies has_extended_texts(
                    #[trigger] config.routes@[i],
                    before.routes@[i],
                    extra.texts(),
                ) by {
                    assert(is_extended(config.routes@[i], before.routes@[i], extra@));
                    assert(config.routes@[i].headers.texts()
                        =~= before.routes@[i].headers.texts().union_prefer_right(extra.texts()));
                }
            }
        }
    }
    r
}

// ---------------------------------------------------------------------------
// Laws
// ---------------------------------------------------------------------------

/// The pattern stands for the path: it is the path, or it ends in `/*` and the
/// path starts with what stands before.
pub open spec fn covers(pattern: Seq<char>, path: Seq<char>) -> bool {
    if pattern.len() >= 2 && pattern[pattern.len() - 2] == '/' && pattern.last() == '*' {
        pattern.len() - 2 <= path.len() && forall|i: int|
            0 <= i < pattern.len() - 2 ==> #[trigger] pattern[i] == path[i]
    } else {
        pattern == path
    }
}

proof fn lemma_covers(pattern: Seq<char>, path: Seq<char>)
    ensures
        covers(pattern, path) == matches_path(pattern, path),
{
    reveal_strlit("/*");
    let star = "/*"@;
    if pattern.len() >= 2 {
        let end = pattern.subrange(pattern.len() - 2, pattern.len() as int);
        if pattern[pattern.len() - 2] == '/' && pattern.last() == '*' {
            assert(star =~= end);
        }
        if star.is_suffix_of(pattern) {
            assert(end[0] == '/' && end[1] == '*');
        }
        let base = pattern.take(pattern.len() - 2);
        if base.is_prefix_of(path) {
            assert forall|i: int| 0 <= i < pattern.len() - 2 implies #[trigger] pattern[i]
                == path[i] by {
                assert(base[i] == path.subrange(0, base.len() as int)[i]);
            }
        }
        if pattern.len() - 2 <= path.len() && forall|i: int|
            0 <= i < pattern.len() - 2 ==> #[trigger] pattern[i] == path[i] {
            assert(base =~= path.subrange(0, base.len() as int));
        }
    }
}

/// A path matches just the patterns that stand for it.
pub proof fn law_pattern_stands_for_paths(pattern: &str, path: &str, r: bool)
    requires
        call_ensures(path_matches, (pattern, path), r),
    ensures
        r == covers(pattern@, path@),
{
    lemma_covers(pattern@, path@);
}

proof fn lemma_first_match(routes: Seq<RouteConfig>, path: Seq<char>)
    ensures
        first_match(routes, path) <= routes.len(),
        forall|i: int|
            0 <= i < first_match(routes, path) ==> !covers((#[trigger] routes[i]).path@, path),
        first_match(routes, path) < routes.len() ==> covers(
            routes[first_match(routes, path) as int].path@,
            path,
        ),
    decreases routes.len(),
{
    if routes.len() > 0 {
        lemma_covers(routes[0].path@, path);
        if !matches_path(routes[0].path@, path) {
            let rest = routes.drop_first();
            lemma_first_match(rest, path);
            assert forall|i: int| 0 <= i < first_match(routes, path) implies !covers(
                (#[trigger] routes[i]).path@,
                path,
            ) by {
                if i > 0 {
                    assert(rest[i - 1] == routes[i]);
                }
            }
        }
    }
}

/// A path takes the first route whose pattern stands for it. Where there is
/// none, it goes to the default target, for the owner alone.
pub proof fn law_first_route_is_taken(config: &ProxyConfig, path: &str, r: RouteMatch<'_>)
    requires
        call_ensures(find_matching_route, (config, path), r),
    ensures
        match r {
            RouteMatch::Configured(route) => exists|i: int|
                0 <= i < config.routes@.len() && *route == (#[trigger] config.routes@[i]) && covers(
                    route.path@,
                    path@,
                ) && forall|j: int|
                    0 <= j < i ==> !covers((#[trigger] config.routes@[j]).path@, path@),
            RouteMatch::Default(route) => {
                &&& forall|j: int|
                    0 <= j < config.routes@.len() ==> !covers(
                        (#[trigger] config.routes@[j]).path@,
                        path@,
                    )
                &&& route.target == RouteTarget::Address(config.default_target)
                &&& route.requires_auth
                &&& route.access_level == AccessLevel::Personal
                &&& route.timeout_ms is None
                &&& forall|k: Seq<char>| !#[trigger] route.headers@.contains_key(k)
            },
        },
{
    lemma_first_match(config.routes@, path@);
    if let RouteMatch::Configured(route) = r {
        let i = first_match(config.routes@, path@) as int;
        assert(*route == config.routes@[i]);
    }
}

/// A request that may not be passed on is answered with 401, one whose target
/// is unknown with 502, and any other failure with 500 and no detail.
pub proof fn law_failures_are_answered(e: SidecarProxyError, r: (u16, String))
    requires
        call_ensures(SidecarProxyError::answer, (&e,), r),
    ensures
        e is Authorization ==> r.0 == 401 && r.1@ == "Unauthorized"@,
        e matches SidecarProxyError::TargetNotFound { service_name } ==> r.0 == 502 && r.1@
            == "Target not found: "@ + ("Target service not found: "@ + service_name@),
        !(e is Authorization || e is TargetNotFound) ==> r.0 == 500 && r.1@
            == "Internal server error"@,
{
}

/// The member can be tried: it is an address or a service.
pub open spec fn is_usable(target: RouteTarget) -> bool {
    target is Address || target is Service
}

/// The step is that of the first member at or behind `from` that can be tried;
/// it is a failure where there is none.
pub open spec fn tries_next(targets: Seq<RouteTarget>, from: int, r: ResolveStep) -> bool {
    match r {
        ResolveStep::Found(a) => exists|n: int|
            from <= n < targets.len() && (#[trigger] targets[n]) == RouteTarget::Address(a)
                && forall|j: int| from <= j < n ==> !is_usable(#[trigger] targets[j]),
        ResolveStep::LookUp { member } => member matches Some(n) && from <= n < targets.len()
            && targets[n as int] is Service && forall|j: int|
            from <= j < n ==> !is_usable(#[trigger] targets[j]),
        ResolveStep::Failed(e) => e is ServiceDiscovery && forall|j: int|
            from <= j < targets.len() ==> !is_usable(#[trigger] targets[j]),
    }
}

proof fn lemma_tries_next(targets: Vec<RouteTarget>, from: nat, r: ResolveStep)
    requires
        is_member_step(targets@, from, r),
    ensures
        tries_next(targets@, from as int, r),
{
    law_members_in_order(targets@, from);
    let n = next_member(targets@, from) as int;
    assert(targets@.len() == targets.len());
    assert forall|j: int| from <= j < n && j < targets@.len() implies !is_usable(
        #[trigger] targets@[j],
    ) by {}
    if n < targets@.len() {
        if let RouteTarget::Address(a) = targets@[n] {
            assert(targets@[n] == RouteTarget::Address(a));
        }
    }
}

/// An address is its own target, a service is looked up, a balanced target
/// tries its first member that can be tried, and a tunnel is no address.
pub proof fn law_target_is_resolved(target: RouteTarget, r: ResolveStep)
    requires
        call_ensures(resolve_target, (&target,), r),
    ensures
        match target {
            RouteTarget::Address(a) => r == ResolveStep::Found(a),
            RouteTarget::Service { name: _, namespace: _, port: _ } => r
                matches ResolveStep::LookUp { member } && member is None,
            RouteTarget::LoadBalance(targets) => tries_next(targets@, 0, r),
            RouteTarget::DevboxTunnel {
                intercept_id: _,
                session_id: _,
                target_port: _,
                auth_token: _,
            } => r is Failed,
        },
{
    if let RouteTarget::LoadBalance(targets) = target {
        lemma_tries_next(targets, 0, r);
    }
}

/// A member with an endpoint is taken at its first one; one without is passed
/// over for the next that can be tried.
pub proof fn law_member_without_endpoints_is_passed_over(
    targets: Vec<RouteTarget>,
    member: usize,
    endpoints: Vec<SocketAddress>,
    r: ResolveStep,
)
    requires
        member < targets@.len(),
        call_ensures(after_member_lookup, (&targets, member, &endpoints), r),
    ensures
        endpoints@.len() > 0 ==> r == ResolveStep::Found(endpoints@[0]),
        endpoints@.len() == 0 ==> tries_next(targets@, member + 1, r),
{
    if endpoints@.len() == 0 {
        lemma_tries_next(targets, member as nat + 1, r);
    }
}

proof fn lemma_readable(addresses: Seq<Option<SocketAddress>>)
    ensures
        readable(addresses) == addresses.filter(
            |a: Option<SocketAddress>| a is Some,
        ).map_values(|a: Option<SocketAddress>| a->0),
    decreases addresses.len(),
{
    let there = |a: Option<SocketAddress>| a is Some;
    let value = |a: Option<SocketAddress>| a->0;
    reveal(Seq::filter);
    if addresses.len() == 0 {
        assert(addresses.filter(there).map_values(value) =~= Seq::<SocketAddress>::empty());
    } else {
        let shorter = addresses.drop_last();
        lemma_readable(shorter);
        let earlier = shorter.filter(there);
        assert(earlier.push(addresses.last()).map_values(value) =~= earlier.map_values(value).push(
            addresses.last()->0,
        ));
    }
}

/// The endpoints of a service are all its addresses that could be read, in
/// their order; a service without any is not found.
pub proof fn law_endpoints_are_the_readable_addresses(
    name: &str,
    addresses: Vec<Option<SocketAddress>>,
    r: Result<Vec<SocketAddress>, SidecarProxyError>,
)
    requires
        call_ensures(service_endpoints, (name, &addresses), r),
    ensures
        ({
            let there = addresses@.filter(|a: Option<SocketAddress>| a is Some);
            match r {
                Ok(list) => list@ == there.map_values(|a: Option<SocketAddress>| a->0)
                    && there.len() > 0,
                Err(e) => there.len() == 0 && (e matches SidecarProxyError::TargetNotFound {
                    service_name,
                } && service_name@ == name@),
            }
        }),
{
    lemma_readable(addresses@);
}

/// A route that is not public needs a request that says who sends it, in an
/// `authorization` or a `cookie` header; a public one needs nothing.
pub proof fn law_requests_are_authorized(
    headers: http::HeaderMap<http::HeaderValue>,
    level: AccessLevel,
    r: Result<(), SidecarProxyError>,
)
    requires
        call_ensures(check_authorization, (&headers, level), r),
    ensures
        level == AccessLevel::Public ==> r is Ok,
        level != AccessLevel::Public ==> (r is Ok) == (header_content(headers).contains_key(
            "authorization"@,
        ) || header_content(headers).contains_key("cookie"@)),
        r matches Err(e) ==> e is Authorization,
{
}

proof fn lemma_route_header_kept(
    headers: HeaderValues,
    route: Seq<(String, String)>,
    name: Seq<char>,
)
    requires
        !sets_header(route, name),
    ensures
        with_route_headers(headers, route) matches Ok(h) ==> h.contains_key(name)
            == headers.contains_key(name) && (headers.contains_key(name) ==> h[name]
            == headers[name]),
    decreases route.len(),
{
    if route.len() > 0 {
        let earlier = route.drop_last();
        assert(!sets_header(earlier, name)) by {
            if sets_header(earlier, name) {
                let i = choose|i: int|
                    0 <= i < earlier.len() && header_name_of((#[trigger] earlier[i]).0@) == Some(
                        name,
                    );
                assert(header_name_of(route[i].0@) == Some(name));
            }
        }
        lemma_route_header_kept(headers, earlier, name);
        assert(header_name_of(route[route.len() - 1].0@) != Some(name));
    }
}

proof fn lemma_route_header_set(
    headers: HeaderValues,
    route: Seq<(String, String)>,
    name: Seq<char>,
    i: int,
)
    requires
        0 <= i < route.len(),
        header_name_of(route[i].0@) == Some(name),
        forall|j: int| i < j < route.len() ==> header_name_of((#[trigger] route[j]).0@) != Some(
            name,
        ),
    ensures
        with_route_headers(headers, route) matches Ok(h) ==> h.contains_key(name) && h[name]
            == seq![encode_utf8(route[i].1@)],
    decreases route.len(),
{
    if i < route.len() - 1 {
        let earlier = route.drop_last();
        assert(earlier[i] == route[i]);
        assert forall|j: int| i < j < earlier.len() implies header_name_of(
            (#[trigger] earlier[j]).0@,
        ) != Some(name) by {
            assert(earlier[j] == route[j]);
        }
        lemma_route_header_set(headers, earlier, name, i);
        assert(header_name_of(route[route.len() - 1].0@) != Some(name));
    }
}

/// A header that concerns more than one connection, and that neither the route
/// sets nor the proxy itself, is passed on with all its values, and none is
/// made up. The protocol that was asked for is told.
pub proof fn law_other_headers_are_passed_on(
    original: http::HeaderMap<http::HeaderValue>,
    route: RouteConfig,
    r: http::HeaderMap<http::HeaderValue>,
    name: Seq<char>,
)
    requires
        call_ensures(
            prepare_headers,
            (original, &route),
            Ok::<http::HeaderMap<http::HeaderValue>, SidecarProxyError>(r),
        ),
        name != "connection"@,
        name != "proxy-connection"@,
        name != "te"@,
        name != "trailers"@,
        name != "upgrade"@,
        name != "x-forwarded-host"@,
        name != "x-forwarded-proto"@,
        !sets_header(route.headers.entry_seq(), name),
    ensures
        header_content(r).contains_key(name) == header_content(original).contains_key(name),
        header_content(original).contains_key(name) ==> header_content(r)[name]
            == header_content(original)[name],
        header_content(r).contains_key("x-forwarded-proto"@),
        header_content(r)["x-forwarded-proto"@] == seq![seq![104u8, 116u8, 116u8, 112u8]],
{
    lemma_route_header_kept(
        end_to_end(header_content(original)),
        route.headers.entry_seq(),
        name,
    );
}

/// The header of a route replaces all values that the request had under its
/// name, and of several with the same name the last one counts.
pub proof fn law_route_headers_are_set(
    original: http::HeaderMap<http::HeaderValue>,
    route: RouteConfig,
    r: http::HeaderMap<http::HeaderValue>,
    name: Seq<char>,
    i: int,
)
    requires
        call_ensures(
            prepare_headers,
            (original, &route),
            Ok::<http::HeaderMap<http::HeaderValue>, SidecarProxyError>(r),
        ),
        name != "x-forwarded-host"@,
        name != "x-forwarded-proto"@,
        0 <= i < route.headers.entry_seq().len(),
        header_name_of(route.headers.entry_seq()[i].0@) == Some(name),
        forall|j: int|
            i < j < route.headers.entry_seq().len() ==> header_name_of(
                (#[trigger] route.headers.entry_seq()[j]).0@,
            ) != Some(name),
    ensures
        header_content(r).contains_key(name),
        header_content(r)[name] == seq![encode_utf8(route.headers.entry_seq()[i].1@)],
{
    lemma_route_header_set(
        end_to_end(header_content(original)),
        route.headers.entry_seq(),
        name,
        i,
    );
}

/// The host that was asked for is told where there is one, as the route leaves
/// it.
pub proof fn law_host_is_told(
    original: http::HeaderMap<http::HeaderValue>,
    route: RouteConfig,
    r: http::HeaderMap<http::HeaderValue>,
)
    requires
        call_ensures(
            prepare_headers,
            (original, &route),
            Ok::<http::HeaderMap<http::HeaderValue>, SidecarProxyError>(r),
        ),
        header_content(original).contains_key("host"@),
        !sets_header(route.headers.entry_seq(), "host"@),
    ensures
        header_content(r).contains_key("x-forwarded-host"@),
        header_content(r)["x-forwarded-host"@] == seq![header_content(original)["host"@][0]],
{
    reveal_strlit("connection");
    reveal_strlit("proxy-connection");
    reveal_strlit("te");
    reveal_strlit("trailers");
    reveal_strlit("upgrade");
    reveal_strlit("host");
    reveal_strlit("x-forwarded-host");
    reveal_strlit("x-forwarded-proto");
    assert("host"@.len() == 4 && "connection"@.len() == 10 && "proxy-connection"@.len() == 16
        && "te"@.len() == 2 && "trailers"@.len() == 8 && "upgrade"@.len() == 7);
    assert("x-forwarded-host"@.len() != "x-forwarded-proto"@.len());
    lemma_route_header_kept(
        end_to_end(header_content(original)),
        route.headers.entry_seq(),
        "host"@,
    );
}

proof fn lemma_other_routes_filtered(routes: Seq<RouteConfig>, name: Seq<char>)
    ensures
        other_routes(routes, name) == routes.filter(
            |route: RouteConfig|
                !(route.target matches RouteTarget::Service { name: n, namespace: _, port: _ }
                    && n@ == name),
        ),
    decreases routes.len(),
{
    reveal(Seq::filter);
    if routes.len() > 0 {
        lemma_other_routes_filtered(routes.drop_last(), name);
    }
}

/// The annotations of a service replace the routes to it by one, which is tried
/// last, and leave all other routes as they are. That route takes the paths
/// under the name of the service to the annotated port, or to port 80; it needs
/// no sign-in just where an annotation says otherwise than true; and only the
/// annotations `shared` and `public` open it to others.
pub proof fn law_annotations_make_one_route(
    config: &mut ProxyConfig,
    name: &str,
    namespace: Option<&str>,
    annotations: &TextMap<String>,
)
    requires
        call_ensures(update_service_routes, (config, name, namespace, annotations), ()),
    ensures
        final(config).default_target == old(config).default_target,
        final(config).routes@.len() > 0,
        ({
            let service = name@;
            final(config).routes@.drop_last() == old(config).routes@.filter(
                |route: RouteConfig|
                    !(route.target matches RouteTarget::Service { name: n, namespace: _, port: _ }
                        && n@ == service),
            )
        }),
        ({
            let route = final(config).routes@.last();
            let texts = annotations.texts();
            &&& route.path@ == "/"@ + name@ + "/*"@
            &&& route.target matches RouteTarget::Service { name: n, namespace: ns, port } && {
                &&& n@ == name@
                &&& ns matches Some(t) && t@ == (match namespace {
                    Some(given) => given@,
                    None => "default"@,
                })
                &&& port == (if texts.contains_key("lapdev.io/proxy-target-port"@) {
                    match bounded_value(texts["lapdev.io/proxy-target-port"@], 65535) {
                        Some(p) => p as u16,
                        None => 80u16,
                    }
                } else {
                    80u16
                })
            }
            &&& route.requires_auth == (texts.contains_key("lapdev.io/proxy-require-auth"@)
                ==> texts["lapdev.io/proxy-require-auth"@] == "true"@)
            &&& (route.access_level == AccessLevel::Shared) == (texts.contains_key(
                "lapdev.io/proxy-access-level"@,
            ) && texts["lapdev.io/proxy-access-level"@] == "shared"@)
            &&& (route.access_level == AccessLevel::Public) == (texts.contains_key(
                "lapdev.io/proxy-access-level"@,
            ) && texts["lapdev.io/proxy-access-level"@] == "public"@)
            &&& route.timeout_ms == (if texts.contains_key("lapdev.io/proxy-timeout-ms"@) {
                match bounded_value(texts["lapdev.io/proxy-timeout-ms"@], u64::MAX as nat) {
                    Some(t) => Some(t as u64),
                    None => None,
                }
            } else {
                None
            })
        }),
{
    lemma_other_routes_filtered(old(config).routes@, name@);
    reveal_strlit("shared");
    reveal_strlit("public");
    assert("shared"@[0] == 's' && "public"@[0] == 'p');
    let texts = annotations.texts();
    assert forall|k: Seq<char>| #[trigger] texts.contains_key(k) == annotations@.contains_key(
        k,
    ) by {}
}

/// The headers of the proxy's own pod are added to those of every route, and
/// replace those with the same name; nothing else of a route changes. Where
/// there is no route, they make one to the default target, for the owner.
pub proof fn law_pod_headers_are_added(
    config: &mut ProxyConfig,
    target: Option<SocketAddress>,
    extra: TextMap<String>,
    r: bool,
    i: int,
    key: Seq<char>,
)
    requires
        call_ensures(apply_pod_config, (config, target, Some(extra)), r),
    ensures
        r,
        target matches Some(a) ==> final(config).default_target == a,
        target is None ==> final(config).default_target == old(config).default_target,
        old(config).routes@.len() == 0 ==> final(config).routes@.len() == 1
            && final(config).routes@[0].target == RouteTarget::Address(
            final(config).default_target,
        ) && final(config).routes@[0].headers == extra && final(config).routes@[0].requires_auth
            && final(config).routes@[0].access_level == AccessLevel::Personal,
        old(config).routes@.len() > 0 ==> final(config).routes@.len() == old(config).routes@.len(),
        0 <= i < old(config).routes@.len() ==> {
            let before = old(config).routes@[i];
            let after = final(config).routes@[i];
            &&& after.path == before.path
            &&& after.target == before.target
            &&& after.timeout_ms == before.timeout_ms
            &&& after.requires_auth == before.requires_auth
            &&& after.access_level == before.access_level
            &&& after.headers@.contains_key(key) == (before.headers@.contains_key(key)
                || extra@.contains_key(key))
            &&& extra@.contains_key(key) ==> after.headers@[key] == extra@[key]
            &&& before.headers@.contains_key(key) && !extra@.contains_key(key)
                ==> after.headers@[key] == before.headers@[key]
        },
{
    if 0 <= i < old(config).routes@.len() {
        assert(is_extended(final(config).routes@[i], old(config).routes@[i], extra@));
    }
}

/// A route through a devbox tunnel is answered at once, and no other is.
pub proof fn law_tunnel_routes_are_answered(target: RouteTarget, r: Option<SidecarProxyError>)
    requires
        call_ensures(tunnel_route_answer, (&target,), r),
    ensures
        r is Some <==> target is DevboxTunnel,
{
}

/// A service is reached at its first endpoint; one without endpoints is not
/// found, and it is told which.
pub proof fn law_first_endpoint_is_taken(
    name: &str,
    endpoints: Vec<SocketAddress>,
    r: Result<SocketAddress, SidecarProxyError>,
)
    requires
        call_ensures(after_service_lookup, (name, &endpoints), r),
    ensures
        r is Ok <==> endpoints@.len() > 0,
        r matches Ok(a) ==> a == endpoints@[0],
        r matches Err(e) ==> (e matches SidecarProxyError::TargetNotFound { service_name }
            && service_name@ == name@),
{
}

/// A target gets a request under its own address and the path that was asked
/// for, or the root where none was: what is read as a URI is these behind the
/// scheme.
pub proof fn law_request_keeps_its_path(
    address: &str,
    path: Option<&str>,
    r: Result<String, SidecarProxyError>,
    text: Seq<char>,
)
    requires
        call_ensures(build_target_uri, (address, path), r),
        text == seq!['h', 't', 't', 'p', ':', '/', '/'] + address@ + (if path is Some {
            (path->0)@
        } else {
            seq!['/']
        }),
    ensures
        r is Ok <==> uri_reading(text) is Ok,
        r matches Ok(uri) ==> uri@ == uri_reading(text)->Ok_0,
        r matches Err(e) ==> e is Generic,
{
    reveal_strlit("http://");
    reveal_strlit("/");
    assert("http://"@ =~= seq!['h', 't', 't', 'p', ':', '/', '/']);
    assert("/"@ =~= seq!['/']);
}

/// A target may take as long as its route allows, and half a minute where the
/// route does not say.
pub proof fn law_routes_limit_time(route: RouteConfig, r: u64)
    requires
        call_ensures(request_timeout, (&route,), r),
    ensures
        route.timeout_ms matches Some(ms) ==> r == ms,
        route.timeout_ms is None ==> r == 30_000,
{
}

proof fn lemma_text_map_keys(entries: Seq<(Seq<char>, Seq<char>)>, key: Seq<char>)
    ensures
        text_map_of(entries).contains_key(key) <==> exists|i: int|
            0 <= i < entries.len() && (#[trigger] entries[i]).0 == key,
    decreases entries.len(),
{
    if entries.len() > 0 {
        let n = entries.len() - 1;
        let shorter = entries.drop_last();
        lemma_text_map_keys(shorter, key);
        assert(entries[n] == entries.last());
        if text_map_of(shorter).contains_key(key) {
            let i = choose|i: int| 0 <= i < shorter.len() && (#[trigger] shorter[i]).0 == key;
            assert(entries[i].0 == key);
        }
        if exists|i: int| 0 <= i < entries.len() && (#[trigger] entries[i]).0 == key {
            let i = choose|i: int| 0 <= i < entries.len() && (#[trigger] entries[i]).0 == key;
            if i < n {
                assert(shorter[i].0 == key);
            }
        }
    }
}

proof fn lemma_text_map_value(entries: Seq<(Seq<char>, Seq<char>)>, key: Seq<char>, i: int)
    requires
        0 <= i < entries.len(),
        entries[i].0 == key,
        forall|k: int| i < k < entries.len() ==> (#[trigger] entries[k]).0 != key,
    ensures
        text_map_of(entries)[key] == entries[i].1,
    decreases entries.len(),
{
    let n = entries.len() - 1;
    if i < n {
        let shorter = entries.drop_last();
        assert(entries[n].0 != key);
        assert forall|k: int| i < k < shorter.len() implies (#[trigger] shorter[k]).0 != key by {
            assert(entries[k].0 != key);
        }
        lemma_text_map_value(shorter, key, i);
    }
}

/// Headers are collected by name: the last value of each name counts, and no
/// name is made up.
pub proof fn law_last_header_of_a_name_counts(
    list: Vec<(String, String)>,
    r: TextMap<String>,
    name: Seq<char>,
)
    requires
        call_ensures(header_map, (list,), r),
    ensures
        r.texts().contains_key(name) <==> exists|i: int|
            0 <= i < list@.len() && (#[trigger] list@[i]).0@ == name,
        forall|i: int|
            0 <= i < list@.len() && (#[trigger] list@[i]).0@ == name && (forall|k: int|
                i < k < list@.len() ==> (#[trigger] list@[k]).0@ != name) ==> r.texts()[name]
                == list@[i].1@,
{
    let entries = pairs(list@);
    lemma_text_map_keys(entries, name);
    assert forall|i: int| 0 <= i < list@.len() implies #[trigger] entries[i] == (
        list@[i].0@,
        list@[i].1@,
    ) by {}
    if exists|i: int| 0 <= i < list@.len() && (#[trigger] list@[i]).0@ == name {
        let i = choose|i: int| 0 <= i < list@.len() && (#[trigger] list@[i]).0@ == name;
        assert(entries[i].0 == name);
    }
    if exists|i: int| 0 <= i < entries.len() && (#[trigger] entries[i]).0 == name {
        let i = choose|i: int| 0 <= i < entries.len() && (#[trigger] entries[i]).0 == name;
        assert(list@[i].0@ == name);
    }
    assert forall|i: int|
        0 <= i < list@.len() && (#[trigger] list@[i]).0@ == name && (forall|k: int|
            i < k < list@.len() ==> (#[trigger] list@[k]).0@ != name) implies r.texts()[name]
        == list@[i].1@ by {
        assert(entries[i].0 == name);
        assert forall|k: int| i < k < entries.len() implies (#[trigger] entries[k]).0 != name by {
            assert(list@[k].0@ != name);
        }
        lemma_text_map_value(entries, name, i);
    }
}

/// An annotation configures the proxy just where its name starts as those of
/// the proxy do.
pub proof fn law_proxy_annotations_are_told(annotations: TextMap<String>, r: bool, key: Seq<char>)
    requires
        call_ensures(has_proxy_annotations, (&annotations,), r),
    ensures
        annotations@.contains_key(key) && "lapdev.io/proxy-"@.is_prefix_of(key) ==> r,
        (forall|k: Seq<char>| #[trigger]
            annotations@.contains_key(k) ==> !"lapdev.io/proxy-"@.is_prefix_of(k)) ==> !r,
{
    let names = annotations@.dom();
    assert(names.contains(key) == annotations@.contains_key(key));
    if r {
        let k = choose|k: Seq<char>| #[trigger]
            names.contains(k) && "lapdev.io/proxy-"@.is_prefix_of(k);
        assert(annotations@.contains_key(k));
    }
}

} // verus!
