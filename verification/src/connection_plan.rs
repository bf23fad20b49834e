//! Where the sidecar proxy sends a connection.
use crate::config::{
    branch_route_of, is_service_target, mapped_port, port_route_map, service_target, BranchMode,
    BranchRoute, DefaultRoute, DevboxConnection, ProxyPortRoute, RouteDecision, RoutingTable,
    SidecarSettings,
};
use crate::http_parser::{
    header_map_to_vec, header_views, lossy_headers, raw_views, ParsedHttpRequest, RawHeader,
};
use crate::ids::{id_from_str, id_reading, id_text, id_to_string, parse_id, parsed_id};
use crate::net::SocketAddress;
use crate::otel_routing::{header_ignoring_case, TRACESTATE_HEADER};
use crate::text::{concat, concat3, decimal, format_u64, split};
use crate::tracestate::{environment_in, environment_of_request, environment_text};
use std::sync::Arc;
use vstd::prelude::*;

verus! {

/// The environment that a request with these headers belongs to.
pub open spec fn environment_of(headers: Seq<(Seq<char>, Seq<char>)>) -> Option<u128> {
    environment_in(header_ignoring_case(headers, TRACESTATE_HEADER@))
}

/// Where a connection goes.
#[derive(Debug)]
pub enum ConnectionPlan {
    /// To a port of this host.
    Local { port: u16 },
    /// To a service of a branch; where that fails, to a port of this host.
    Branch { service_name: String, port: u16, fallback_port: u16 },
    /// Through the tunnel of a devbox.
    Devbox { connection: Arc<DevboxConnection>, service_port: u16, target_port: u16 },
}

/// The service port behind a proxy port.
pub open spec fn service_port_of(table: RoutingTable, proxy_port: u16) -> u16 {
    match table.spec_port_route(proxy_port) {
        Some(route) => route.service_port,
        None => proxy_port,
    }
}

/// `r` is where a connection of no branch goes.
pub open spec fn is_default_plan(table: RoutingTable, proxy_port: u16, r: ConnectionPlan) -> bool {
    let service_port = service_port_of(table, proxy_port);
    match table.default_route {
        DefaultRoute::Devbox(connection) => r == (ConnectionPlan::Devbox {
            connection,
            service_port,
            target_port: mapped_port(connection.spec_metadata().port_mappings@, service_port),
        }),
        DefaultRoute::Local => is_local_plan(table, service_port, r),
    }
}

/// `r` leads to the port of this host behind a service port.
pub open spec fn is_local_plan(table: RoutingTable, service_port: u16, r: ConnectionPlan) -> bool {
    &&& r == (ConnectionPlan::Local { port: service_target(table, service_port) })
    &&& is_service_target(table.port_routes@, service_port, service_target(table, service_port))
}

/// `r` is where an HTTP connection of a branch goes.
pub open spec fn is_http_plan(
    table: RoutingTable,
    proxy_port: u16,
    branch: Option<u128>,
    r: ConnectionPlan,
) -> bool {
    let service_port = service_port_of(table, proxy_port);
    match branch_route_of(table.branch_routes@, branch) {
        Some(route) => match route.mode {
            BranchMode::Devbox(connection) => r == (ConnectionPlan::Devbox {
                connection,
                service_port,
                target_port: mapped_port(connection.spec_metadata().port_mappings@, service_port),
            }),
            BranchMode::Service => if route.service.service_names@.contains_key(service_port) {
                r matches ConnectionPlan::Branch { service_name, port, fallback_port }
                    && service_name@ == route.service.service_names@[service_port]@ && port
                    == service_port && fallback_port == service_port
            } else {
                r == (ConnectionPlan::Local { port: service_port })
            },
        },
        None => is_default_plan(table, proxy_port, r),
    }
}

/// Decides where an HTTP connection goes, by its first request. One whose
/// request could not be read goes to the port behind the service.
pub fn plan_http_connection(
    table: &RoutingTable,
    proxy_port: u16,
    request: Option<&ParsedHttpRequest>,
) -> (r: ConnectionPlan)
    ensures
        match request {
            Some(req) => is_http_plan(
                *table,
                proxy_port,
                environment_of(header_views(req.headers@)),
                r,
            ),
            None => is_local_plan(*table, service_port_of(*table, proxy_port), r),
        },
        forall|id: u128|
            #![trigger id_text(id)]
            (request matches Some(req) && (match header_ignoring_case(
                header_views(req.headers@),
                TRACESTATE_HEADER@,
            ) {
                Some(v) => environment_text(split(v, ',')) == Some(id_text(id)),
                None => false,
            })) ==> is_http_plan(*table, proxy_port, Some(id), r),
{
    let service_port: u16 = table.service_port_for_proxy(proxy_port);
    match request {
        None => ConnectionPlan::Local { port: table.target_port_for_service(service_port) },
        Some(req) => {
            let branch: Option<u128> = environment_of_request(req.headers.as_slice());
            match table.resolve_http(service_port, branch) {
                RouteDecision::BranchService { service } => {
                    match service.service_name_for_port(service_port) {
                        Some(name) => ConnectionPlan::Branch {
                            service_name: name.to_owned(),
                            port: service_port,
                            fallback_port: service_port,
                        },
                        None => ConnectionPlan::Local { port: service_port },
                    }
                },
                RouteDecision::BranchDevbox { connection, target_port } => {
                    ConnectionPlan::Devbox { connection, service_port, target_port }
                },
                RouteDecision::DefaultDevbox { connection, target_port } => {
                    ConnectionPlan::Devbox { connection, service_port, target_port }
                },
                RouteDecision::DefaultLocal { target_port } => ConnectionPlan::Local {
                    port: target_port,
                },
            }
        },
    }
}

/// Decides where a connection of another protocol goes.
pub fn plan_tcp_connection(table: &RoutingTable, proxy_port: u16) -> (r: ConnectionPlan)
    ensures
        is_default_plan(*table, proxy_port, r),
{
    let service_port: u16 = table.service_port_for_proxy(proxy_port);
    match table.resolve_tcp(service_port) {
        RouteDecision::BranchDevbox { connection, target_port } => ConnectionPlan::Devbox {
            connection,
            service_port,
            target_port,
        },
        RouteDecision::DefaultDevbox { connection, target_port } => ConnectionPlan::Devbox {
            connection,
            service_port,
            target_port,
        },
        RouteDecision::DefaultLocal { target_port } => ConnectionPlan::Local { port: target_port },
        RouteDecision::BranchService { service: _ } => ConnectionPlan::Local {
            port: service_port,
        },
    }
}

/// Where a connection goes once the service of its branch could not be
/// reached: to this host.
pub fn after_branch_failure(fallback_port: u16) -> (r: ConnectionPlan)
    ensures
        r == (ConnectionPlan::Local { port: fallback_port }),
{
    ConnectionPlan::Local { port: fallback_port }
}

/// A request that names no environment, or an unknown one, goes where other
/// protocols go on the same table.
pub proof fn law_http_without_branch_is_tcp(
    table: RoutingTable,
    port: u16,
    branch: Option<u128>,
    http: ConnectionPlan,
    tcp: ConnectionPlan,
)
    requires
        branch_route_of(table.branch_routes@, branch) is None,
        is_http_plan(table, port, branch, http),
        is_default_plan(table, port, tcp),
    ensures
        http == tcp,
{
}

/// Whatever a branch does, its requests keep the service port that the proxy
/// port stands for: they go to that port of a service, to the port that a
/// devbox maps it to, or to a port behind it on this host.
pub proof fn law_plan_keeps_service_port(
    table: RoutingTable,
    proxy_port: u16,
    branch: Option<u128>,
    r: ConnectionPlan,
)
    requires
        is_http_plan(table, proxy_port, branch, r),
    ensures
        match r {
            ConnectionPlan::Local { port } => port == service_port_of(table, proxy_port)
                || is_service_target(table.port_routes@, service_port_of(table, proxy_port), port),
            ConnectionPlan::Branch { service_name, port, fallback_port } => port
                == service_port_of(table, proxy_port) && fallback_port == port,
            ConnectionPlan::Devbox { connection, service_port, target_port } => service_port
                == service_port_of(table, proxy_port) && target_port == mapped_port(
                connection.spec_metadata().port_mappings@,
                service_port,
            ),
        },
{
}

// ---------------------------------------------------------------------------
// HTTP/2
// ---------------------------------------------------------------------------

/// What all streams of an HTTP/2 connection are sent to.
#[derive(Debug)]
pub enum UpstreamConnector {
    Local { port: u16 },
    BranchService { service_name: String, port: u16 },
    Devbox { connection: Arc<DevboxConnection>, target_port: u16, shared: bool },
}

/// The name of a devbox upstream in messages.
pub open spec fn devbox_label(shared: bool) -> Seq<char> {
    if shared {
        "shared-devbox"@
    } else {
        "branch-devbox"@
    }
}

impl UpstreamConnector {
    /// The name of a devbox upstream in messages.
    pub fn label(&self) -> (r: Option<&'static str>)
        ensures
            match *self {
                UpstreamConnector::Devbox { connection, target_port, shared } => r matches Some(t)
                    && t@ == devbox_label(shared),
                _ => r is None,
            },
    {
        match self {
            UpstreamConnector::Devbox { connection: _, target_port: _, shared } => if *shared {
                Some("shared-devbox")
            } else {
                Some("branch-devbox")
            },
            _ => None,
        }
    }
}

/// The route of an HTTP/2 connection, taken from its first stream.
#[derive(Debug)]
pub struct ConnectionRoutePlan {
    pub upstream: UpstreamConnector,
    pub service_port: u16,
    pub branch_id: Option<u128>,
    pub target_environment_id: u128,
    pub description: String,
}

/// A branch as messages show it.
pub open spec fn branch_text(branch: Option<u128>) -> Seq<char> {
    match branch {
        Some(id) => "Some("@ + id_text(id) + ")"@,
        None => "None"@,
    }
}

fn show_branch(branch: Option<u128>) -> (r: String)
    ensures
        r@ == branch_text(branch),
{
    match branch {
        Some(id) => {
            let text: String = id_to_string(id);
            concat3("Some(", text.as_str(), ")")
        },
        None => "None".to_owned(),
    }
}

/// How a devbox is described.
pub open spec fn devbox_text(kind: Seq<char>, c: Arc<DevboxConnection>, target_port: u16) -> Seq<
    char,
> {
    kind + " devbox intercept_id="@ + id_text(c.spec_metadata().intercept_id) + " workload_id="@
        + id_text(c.spec_metadata().workload_id) + " target_port="@ + decimal(target_port as nat)
}

fn describe_devbox(kind: &str, connection: &Arc<DevboxConnection>, target_port: u16) -> (r: String)
    ensures
        r@ == devbox_text(kind@, *connection, target_port),
{
    let intercept: String = id_to_string(connection.metadata().intercept_id);
    let workload: String = id_to_string(connection.metadata().workload_id);
    let port: String = format_u64(target_port as u64);
    let mut text: String = kind.to_owned();
    text.append(" devbox intercept_id=");
    text.append(intercept.as_str());
    text.append(" workload_id=");
    text.append(workload.as_str());
    text.append(" target_port=");
    text.append(port.as_str());
    text
}

/// What a plan says of its target.
pub open spec fn upstream_text(
    upstream: UpstreamConnector,
    service_port: u16,
    branch: Option<u128>,
) -> Seq<char> {
    match upstream {
        UpstreamConnector::Local { port } => "shared target 127.0.0.1:"@ + decimal(port as nat),
        UpstreamConnector::BranchService { service_name, port } => "branch service "@
            + service_name@ + ":"@ + decimal(service_port as nat) + " (branch "@ + branch_text(
            branch,
        ) + ")"@,
        UpstreamConnector::Devbox { connection, target_port, shared } => if shared {
            devbox_text("shared"@, connection, target_port)
        } else {
            devbox_text("branch"@, connection, target_port) + " (branch "@ + branch_text(branch)
                + ")"@
        },
    }
}

/// `u` is the upstream of a connection of a branch; there is none where the
/// branch has no service behind the port.
pub open spec fn is_upstream(
    table: RoutingTable,
    proxy_port: u16,
    branch: Option<u128>,
    u: UpstreamConnector,
) -> bool {
    let service_port = service_port_of(table, proxy_port);
    match branch_route_of(table.branch_routes@, branch) {
        Some(route) => match route.mode {
            BranchMode::Devbox(connection) => u == (UpstreamConnector::Devbox {
                connection,
                target_port: mapped_port(connection.spec_metadata().port_mappings@, service_port),
                shared: false,
            }),
            BranchMode::Service => route.service.service_names@.contains_key(service_port) && (
            u matches UpstreamConnector::BranchService { service_name, port } && service_name@
                == route.service.service_names@[service_port]@ && port == service_port),
        },
        None => match table.default_route {
            DefaultRoute::Devbox(connection) => u == (UpstreamConnector::Devbox {
                connection,
                target_port: mapped_port(connection.spec_metadata().port_mappings@, service_port),
                shared: true,
            }),
            DefaultRoute::Local => u == (UpstreamConnector::Local {
                port: service_target(table, service_port),
            }) && is_service_target(
                table.port_routes@,
                service_port,
                service_target(table, service_port),
            ),
        },
    }
}

/// A branch has no service behind the port of a connection.
pub open spec fn lacks_service(table: RoutingTable, proxy_port: u16, branch: Option<u128>) -> bool {
    branch_route_of(table.branch_routes@, branch) matches Some(route) && route.mode is Service
        && !route.service.service_names@.contains_key(service_port_of(table, proxy_port))
}

/// Decides what an HTTP/2 connection is sent to, by the headers of its first
/// stream. Fails with a message where its branch has no service behind the
/// port.
pub fn determine_connection_route(
    headers: &Vec<RawHeader>,
    proxy_port: u16,
    table: &RoutingTable,
    default_environment_id: u128,
) -> (r: Result<ConnectionRoutePlan, String>)
    ensures
        ({
            let branch = environment_of(lossy_headers(raw_views(headers@)));
            let service_port = service_port_of(*table, proxy_port);
            match r {
                Ok(plan) => {
                    &&& !lacks_service(*table, proxy_port, branch)
                    &&& is_upstream(*table, proxy_port, branch, plan.upstream)
                    &&& plan.service_port == service_port
                    &&& plan.branch_id == branch
                    &&& plan.target_environment_id == (match branch {
                        Some(id) => id,
                        None => default_environment_id,
                    })
                    &&& plan.description@ == upstream_text(plan.upstream, service_port, branch)
                },
                Err(message) => {
                    &&& lacks_service(*table, proxy_port, branch)
                    &&& message@ == "missing branch service mapping for port "@ + decimal(
                        service_port as nat,
                    ) + " (branch "@ + branch_text(branch) + ")"@
                },
            }
        }),
        forall|id: u128|
            #![trigger id_text(id)]
            (match header_ignoring_case(
                lossy_headers(raw_views(headers@)),
                TRACESTATE_HEADER@,
            ) {
                Some(v) => environment_text(split(v, ',')) == Some(id_text(id)),
                None => false,
            }) ==> match r {
                Ok(plan) => plan.branch_id == Some(id),
                Err(_) => lacks_service(*table, proxy_port, Some(id)),
            },
{
    let pairs: Vec<(String, String)> = header_map_to_vec(headers);
    let branch_id: Option<u128> = environment_of_request(pairs.as_slice());
    let target_environment_id: u128 = match branch_id {
        Some(id) => id,
        None => default_environment_id,
    };
    let service_port: u16 = table.service_port_for_proxy(proxy_port);
    let port_text: String = format_u64(service_port as u64);
    let shown: String = show_branch(branch_id);
    let (upstream, description): (UpstreamConnector, String) = match table.resolve_http(
        service_port,
        branch_id,
    ) {
        RouteDecision::BranchService { service } => match service.service_name_for_port(
            service_port,
        ) {
            None => {
                let mut message: String = "missing branch service mapping for port ".to_owned();
                message.append(port_text.as_str());
                message.append(" (branch ");
                message.append(shown.as_str());
                message.append(")");
                return Err(message);
            },
            Some(name) => {
                let mut text: String = "branch service ".to_owned();
                text.append(name);
                text.append(":");
                text.append(port_text.as_str());
                text.append(" (branch ");
                text.append(shown.as_str());
                text.append(")");
                (
                    UpstreamConnector::BranchService {
                        service_name: name.to_owned(),
                        port: service_port,
                    },
                    text,
                )
            },
        },
        RouteDecision::BranchDevbox { connection, target_port } => {
            let mut text: String = describe_devbox("branch", &connection, target_port);
            text.append(" (branch ");
            text.append(shown.as_str());
            text.append(")");
            (UpstreamConnector::Devbox { connection, target_port, shared: false }, text)
        },
        RouteDecision::DefaultDevbox { connection, target_port } => {
            let text: String = describe_devbox("shared", &connection, target_port);
            (UpstreamConnector::Devbox { connection, target_port, shared: true }, text)
        },
        RouteDecision::DefaultLocal { target_port } => {
            let number: String = format_u64(target_port as u64);
            (
                UpstreamConnector::Local { port: target_port },
                concat("shared target 127.0.0.1:", number.as_str()),
            )
        },
    };
    Ok(
        ConnectionRoutePlan {
            upstream,
            service_port,
            branch_id,
            target_environment_id,
            description,
        },
    )
}

/// HTTP/1 and HTTP/2 connections of one branch go to the same place, but
/// where the branch has no service behind the port: there HTTP/1 falls back
/// to this host and HTTP/2 has no upstream.
pub proof fn law_protocols_agree(
    table: RoutingTable,
    proxy_port: u16,
    branch: Option<u128>,
    r: ConnectionPlan,
    u: UpstreamConnector,
)
    requires
        is_http_plan(table, proxy_port, branch, r),
    ensures
        lacks_service(table, proxy_port, branch) ==> r is Local && !is_upstream(
            table,
            proxy_port,
            branch,
            u,
        ),
        is_upstream(table, proxy_port, branch, u) ==> match r {
            ConnectionPlan::Local { port } => u == (UpstreamConnector::Local { port }),
            ConnectionPlan::Branch { service_name, port, fallback_port } => u matches
                UpstreamConnector::BranchService { service_name: n, port: p } && n@
                == service_name@ && p == port,
            ConnectionPlan::Devbox { connection, service_port, target_port } => u matches
                UpstreamConnector::Devbox { connection: c, target_port: p, shared } && c
                == connection && p == target_port,
        },
{
}

/// The service port that a proxy port stands for: that of its port route, or
/// the port itself where it has none.
pub open spec fn stands_for(table: RoutingTable, proxy_port: u16, service_port: u16) -> bool {
    if table.port_routes@.contains_key(proxy_port) {
        service_port == table.port_routes@[proxy_port].service_port
    } else {
        service_port == proxy_port
    }
}

/// `port` is the port of a devbox for a service port.
pub open spec fn is_devbox_port(c: Arc<DevboxConnection>, service_port: u16, port: u16) -> bool {
    if c.metadata.port_mappings@.contains_key(service_port) {
        port == c.metadata.port_mappings@[service_port]
    } else {
        port == service_port
    }
}

/// `port` is a port of this host for a service port: the target of a route of
/// the service port, or the service port itself where it has no route.
pub open spec fn is_host_port(table: RoutingTable, service_port: u16, port: u16) -> bool {
    if exists|p: u16| #[trigger]
        table.port_routes@.contains_key(p) && table.port_routes@[p].service_port == service_port {
        exists|p: u16| #[trigger]
            table.port_routes@.contains_key(p) && table.port_routes@[p].service_port
                == service_port && table.port_routes@[p].target_port == port
    } else {
        port == service_port
    }
}

/// While a shared intercept is set, connections of no branch go through the
/// tunnel of its devbox, at the port that the devbox maps the service port
/// to. Else they go to a port of this host behind the service port.
pub proof fn law_shared_intercept_takes_connections(
    table: RoutingTable,
    proxy_port: u16,
    r: ConnectionPlan,
)
    requires
        call_ensures(plan_tcp_connection, (&table, proxy_port), r),
    ensures
        match table.default_route {
            DefaultRoute::Devbox(c) => r matches ConnectionPlan::Devbox {
                connection,
                service_port,
                target_port,
            } && connection == c && stands_for(table, proxy_port, service_port) && is_devbox_port(
                c,
                service_port,
                target_port,
            ),
            DefaultRoute::Local => r matches ConnectionPlan::Local { port } && exists|
                service_port: u16,
            |
                stands_for(table, proxy_port, service_port) && #[trigger] is_host_port(
                    table,
                    service_port,
                    port,
                ),
        },
{
    let service_port = service_port_of(table, proxy_port);
    assert(stands_for(table, proxy_port, service_port));
    if table.default_route is Local {
        let port = r->Local_port;
        assert(is_host_port(table, service_port, port));
    }
}

/// A connection of another protocol is planned just as the routing table
/// decides for the service port that its proxy port stands for.
pub proof fn law_plan_is_the_decision(
    table: RoutingTable,
    proxy_port: u16,
    service_port: u16,
    plan: ConnectionPlan,
    decision: RouteDecision,
)
    requires
        call_ensures(RoutingTable::service_port_for_proxy, (&table, proxy_port), service_port),
        call_ensures(RoutingTable::resolve_tcp, (&table, service_port), decision),
        call_ensures(plan_tcp_connection, (&table, proxy_port), plan),
    ensures
        stands_for(table, proxy_port, service_port),
        match decision {
            RouteDecision::DefaultDevbox { connection, target_port } => plan == (
            ConnectionPlan::Devbox { connection, service_port, target_port }),
            RouteDecision::DefaultLocal { target_port } => plan == (ConnectionPlan::Local {
                port: target_port,
            }),
            _ => false,
        },
{
}

/// A request of a known branch goes through the tunnel of the branch's devbox,
/// or to the service of the branch behind the service port, with this host to
/// fall back on, or straight to this host where the branch has no service
/// there. A request of no known branch goes where other protocols go.
pub proof fn law_request_goes_to_its_branch(
    table: RoutingTable,
    proxy_port: u16,
    request: ParsedHttpRequest,
    r: ConnectionPlan,
    tcp: ConnectionPlan,
)
    requires
        call_ensures(plan_http_connection, (&table, proxy_port, Some(&request)), r),
        call_ensures(plan_tcp_connection, (&table, proxy_port), tcp),
    ensures
        match environment_of(header_views(request.headers@)) {
            Some(id) => if table.branch_routes@.contains_key(id) {
                let route = table.branch_routes@[id];
                match route.mode {
                    BranchMode::Devbox(c) => r matches ConnectionPlan::Devbox {
                        connection,
                        service_port,
                        target_port,
                    } && connection == c && stands_for(table, proxy_port, service_port)
                        && is_devbox_port(c, service_port, target_port),
                    BranchMode::Service => match r {
                        ConnectionPlan::Branch { service_name, port, fallback_port } => {
                            &&& stands_for(table, proxy_port, port)
                            &&& route.service.service_names@.contains_key(port)
                            &&& service_name@ == route.service.service_names@[port]@
                            &&& fallback_port == port
                        },
                        ConnectionPlan::Local { port } => stands_for(table, proxy_port, port)
                            && !route.service.service_names@.contains_key(port),
                        ConnectionPlan::Devbox {
                            connection: _,
                            service_port: _,
                            target_port: _,
                        } => false,
                    },
                }
            } else {
                r == tcp
            },
            None => r == tcp,
        },
{
    assert(stands_for(table, proxy_port, service_port_of(table, proxy_port)));
}

/// A request that could not be read goes to a port of this host behind the
/// service port, whatever is intercepted.
pub proof fn law_unread_request_stays_here(table: RoutingTable, proxy_port: u16, r: ConnectionPlan)
    requires
        call_ensures(plan_http_connection, (&table, proxy_port, None), r),
    ensures
        r matches ConnectionPlan::Local { port } && exists|service_port: u16|
            stands_for(table, proxy_port, service_port) && #[trigger] is_host_port(
                table,
                service_port,
                port,
            ),
{
    let service_port = service_port_of(table, proxy_port);
    assert(stands_for(table, proxy_port, service_port));
    assert(is_host_port(table, service_port, r->Local_port));
}

/// An HTTP/2 connection of a known branch goes to the devbox of the branch or
/// to its service behind the service port; it fails just where the branch has
/// no such service. One of no known branch goes to the devbox of the shared
/// intercept, where one is set, and else to a port of this host.
pub proof fn law_stream_goes_to_its_branch(
    headers: Vec<RawHeader>,
    proxy_port: u16,
    table: RoutingTable,
    environment: u128,
    r: Result<ConnectionRoutePlan, String>,
)
    requires
        call_ensures(
            determine_connection_route,
            (&headers, proxy_port, &table, environment),
            r,
        ),
    ensures
        ({
            let branch = environment_of(lossy_headers(raw_views(headers@)));
            let known = branch matches Some(id) && table.branch_routes@.contains_key(id);
            match r {
                Ok(plan) => {
                    let port = plan.service_port;
                    &&& stands_for(table, proxy_port, port)
                    &&& plan.branch_id == branch
                    &&& plan.target_environment_id == (match branch {
                        Some(id) => id,
                        None => environment,
                    })
                    &&& known ==> match table.branch_routes@[branch->0].mode {
                        BranchMode::Devbox(c) => plan.upstream matches UpstreamConnector::Devbox {
                            connection,
                            target_port,
                            shared,
                        } && connection == c && is_devbox_port(c, port, target_port) && !shared,
                        BranchMode::Service => plan.upstream
                            matches UpstreamConnector::BranchService { service_name, port: p } && {
                            let names = table.branch_routes@[branch->0].service.service_names@;
                            p == port && names.contains_key(port) && service_name@ == names[port]@
                        },
                    }
                    &&& !known ==> match table.default_route {
                        DefaultRoute::Devbox(c) => plan.upstream
                            matches UpstreamConnector::Devbox { connection, target_port, shared }
                            && connection == c && is_devbox_port(c, port, target_port) && shared,
                        DefaultRoute::Local => plan.upstream matches UpstreamConnector::Local {
                            port: p,
                        } && is_host_port(table, port, p),
                    }
                },
                Err(_) => known && table.branch_routes@[branch->0].mode is Service && exists|
                    port: u16,
                | #[trigger]
                    stands_for(table, proxy_port, port)
                        && !table.branch_routes@[branch->0].service.service_names@.contains_key(
                        port,
                    ),
            }
        }),
{
    let service_port = service_port_of(table, proxy_port);
    assert(stands_for(table, proxy_port, service_port));
    if let Ok(plan) = r {
        if let UpstreamConnector::Local { port } = plan.upstream {
            assert(is_host_port(table, service_port, port));
        }
    }
}

/// What comes after an attempt to open a stream through a devbox.
#[derive(Debug, Clone, Copy, PartialEq, Eq, Structural)]
pub enum OpenOutcome {
    Opened,
    ConnectionClosed,
    Failed,
}

/// What to do after an attempt to open a stream through a devbox.
#[derive(Debug, Clone, Copy, PartialEq, Eq, Structural)]
pub enum OpenAction {
    UseStream,
    Reconnect,
    Fail,
}

/// A stream that could not be opened because its client was closed is tried
/// once more with a new client.
pub fn after_open(retried: bool, outcome: OpenOutcome) -> (r: OpenAction)
    ensures
        r == (match outcome {
            OpenOutcome::Opened => OpenAction::UseStream,
            OpenOutcome::ConnectionClosed => if retried {
                OpenAction::Fail
            } else {
                OpenAction::Reconnect
            },
            OpenOutcome::Failed => OpenAction::Fail,
        }),
{
    match outcome {
        OpenOutcome::Opened => OpenAction::UseStream,
        OpenOutcome::ConnectionClosed => if retried {
            OpenAction::Fail
        } else {
            OpenAction::Reconnect
        },
        OpenOutcome::Failed => OpenAction::Fail,
    }
}

// ---------------------------------------------------------------------------
// Bytes that were read before a stream was handed on
// ---------------------------------------------------------------------------

/// Bytes that come before those of a stream.
#[derive(Debug)]
pub struct PrefacedBuffer {
    buffer: Vec<u8>,
    position: usize,
}

impl PrefacedBuffer {
    /// The bytes that were not handed out yet.
    pub closed spec fn remaining(&self) -> Seq<u8> {
        self.buffer@.skip(self.position as int)
    }

    #[verifier::type_invariant]
    closed spec fn within(&self) -> bool {
        self.position <= self.buffer@.len()
    }

    pub fn new(buffer: Vec<u8>) -> (r: Self)
        ensures
            r.remaining() == buffer@,
    {
        PrefacedBuffer { buffer, position: 0 }
    }

    /// Hands out at most `capacity` bytes; nothing once all were handed out,
    /// when the stream itself is read.
    pub fn read(&mut self, capacity: usize) -> (r: Option<Vec<u8>>)
        ensures
            old(self).remaining().len() == 0 ==> r is None && *final(self) == *old(self),
            old(self).remaining().len() > 0 ==> {
                let n = if capacity < old(self).remaining().len() {
                    capacity as int
                } else {
                    old(self).remaining().len() as int
                };
                &&& r matches Some(bytes) && bytes@ == old(self).remaining().take(n)
                &&& final(self).remaining() == old(self).remaining().skip(n)
            },
    {
        proof {
            use_type_invariant(&*self);
        }
        if self.position >= self.buffer.len() {
            return None;
        }
        let left: usize = self.buffer.len() - self.position;
        let n: usize = if left < capacity {
            left
        } else {
            capacity
        };
        let mut out: Vec<u8> = Vec::new();
        let mut i: usize = 0;
        while i < n
            invariant
                i <= n,
                self.position + n <= self.buffer.len(),
                out@ == self.buffer@.subrange(self.position as int, self.position + i),
            decreases n - i,
        {
            out.push(self.buffer[self.position + i]);
            proof {
                assert(out@ =~= self.buffer@.subrange(
                    self.position as int,
                    self.position + i + 1,
                ));
            }
            i = i + 1;
        }
        let next: usize = self.position + n;
        self.position = next;
        proof {
            assert(out@ =~= old(self).remaining().take(n as int));
            assert(self.remaining() =~= old(self).remaining().skip(n as int));
        }
        Some(out)
    }
}

/// What reads of the given sizes hand out, one behind the other.
pub open spec fn handed_out(remaining: Seq<u8>, capacities: Seq<nat>) -> Seq<u8>
    decreases capacities.len(),
{
    if capacities.len() == 0 {
        seq![]
    } else {
        let c = capacities[0] as int;
        let n = if c < remaining.len() {
            c
        } else {
            remaining.len() as int
        };
        remaining.take(n) + handed_out(remaining.skip(n), capacities.drop_first())
    }
}

/// Reads hand out the bytes in order, with none lost and none twice: what
/// they give together is the start of the buffer, all of it where there is
/// room enough.
pub proof fn law_reads_in_order(remaining: Seq<u8>, capacities: Seq<nat>)
    ensures
        handed_out(remaining, capacities).is_prefix_of(remaining),
        capacities.len() > 0 && capacities[0] >= remaining.len() ==> handed_out(
            remaining,
            capacities,
        ) == remaining,
    decreases capacities.len(),
{
    if capacities.len() > 0 {
        let c = capacities[0] as int;
        let n = if c < remaining.len() {
            c
        } else {
            remaining.len() as int
        };
        let rest = remaining.skip(n);
        law_reads_in_order(rest, capacities.drop_first());
        let h = handed_out(rest, capacities.drop_first());
        assert(h =~= rest.take(h.len() as int));
        assert(remaining.take(n) + h =~= remaining.take(n + h.len()));
    }
}

// ---------------------------------------------------------------------------
// Listening
// ---------------------------------------------------------------------------

/// Why a connection could not be accepted.
#[derive(Debug, Clone, Copy, PartialEq, Eq, Structural)]
pub enum AcceptErrorKind {
    ConnectionAborted,
    ConnectionReset,
    Interrupted,
    Other,
}

/// What a listener does after an error.
#[derive(Debug, Clone, Copy, PartialEq, Eq, Structural)]
pub enum AcceptAction {
    Continue,
    /// Go on after some milliseconds.
    BackOff { millis: u64 },
    Stop,
}

/// The error numbers that say that too many files are open.
pub const EMFILE: i32 = 24;

pub const WSAEMFILE: i32 = 10024;

/// Passing errors are ignored, a lack of file descriptors is waited out, and
/// anything else stops the listener.
pub fn after_accept_error(kind: AcceptErrorKind, raw_os_error: Option<i32>) -> (r: AcceptAction)
    ensures
        r == (if kind != AcceptErrorKind::Other {
            AcceptAction::Continue
        } else if raw_os_error == Some(EMFILE) || raw_os_error == Some(WSAEMFILE) {
            AcceptAction::BackOff { millis: 100 }
        } else {
            AcceptAction::Stop
        }),
{
    match kind {
        AcceptErrorKind::ConnectionAborted
        | AcceptErrorKind::ConnectionReset
        | AcceptErrorKind::Interrupted => AcceptAction::Continue,
        AcceptErrorKind::Other => match raw_os_error {
            Some(n) => if n == EMFILE || n == WSAEMFILE {
                AcceptAction::BackOff { millis: 100 }
            } else {
                AcceptAction::Stop
            },
            None => AcceptAction::Stop,
        },
    }
}

/// The ports that the proxy listens on, each once: its own, and those of the
/// port routes.
pub fn listener_ports(table: &RoutingTable, default_port: u16) -> (r: Vec<u16>)
    ensures
        r@.no_duplicates(),
        forall|p: u16|
            r@.contains(p) <==> p == default_port || (exists|k: u16| #[trigger]
                table.port_routes@.contains_key(k) && table.port_routes@[k].proxy_port == p),
{
    let routes: Vec<ProxyPortRoute> = table.port_routes();
    let mut out: Vec<u16> = Vec::new();
    out.push(default_port);
    let mut i: usize = 0;
    proof {
        assert(out@[0] == default_port);
    }
    while i < routes.len()
        invariant
            i <= routes@.len(),
            out@.no_duplicates(),
            forall|p: u16|
                #![trigger out@.contains(p)]
                out@.contains(p) <==> p == default_port || (exists|k: int|
                    0 <= k < i && (#[trigger] routes@[k]).proxy_port == p),
        decreases routes@.len() - i,
    {
        let port: u16 = routes[i].proxy_port;
        let known: bool = holds_port(&out, port);
        let ghost before = out@;
        if !known {
            out.push(port);
        }
        proof {
            assert forall|p: u16| #[trigger]
                out@.contains(p) <==> p == default_port || (exists|k: int|
                    0 <= k < i + 1 && (#[trigger] routes@[k]).proxy_port == p) by {
                if out@.contains(p) && !before.contains(p) {
                    assert(p == port);
                    assert(routes@[i as int].proxy_port == p);
                }
                if before.contains(p) {
                    let j = choose|j: int| 0 <= j < before.len() && before[j] == p;
                    assert(out@[j] == p);
                }
                if p == port && !known {
                    assert(out@[before.len() as int] == p);
                }
            }
        }
        i = i + 1;
    }
    proof {
        assert forall|p: u16|
            out@.contains(p) <==> p == default_port || (exists|k: u16| #[trigger]
                table.port_routes@.contains_key(k) && table.port_routes@[k].proxy_port == p) by {
            if exists|k: int| 0 <= k < routes@.len() && (#[trigger] routes@[k]).proxy_port == p {
                let k = choose|k: int|
                    0 <= k < routes@.len() && (#[trigger] routes@[k]).proxy_port == p;
                assert(routes@.contains(routes@[k]));
                let key = choose|key: u16| #[trigger]
                    table.port_routes@.contains_key(key) && table.port_routes@[key] == routes@[k];
                assert(table.port_routes@.contains_key(key));
            }
            if exists|k: u16| #[trigger]
                table.port_routes@.contains_key(k) && table.port_routes@[k].proxy_port == p {
                let key = choose|k: u16| #[trigger]
                    table.port_routes@.contains_key(k) && table.port_routes@[k].proxy_port == p;
                assert(table.port_routes@.contains_value(table.port_routes@[key]));
                assert(routes@.contains(table.port_routes@[key]));
                let k = choose|k: int| 0 <= k < routes@.len() && routes@[k]
                    == table.port_routes@[key];
                assert(routes@[k].proxy_port == p);
            }
        }
    }
    out
}

fn holds_port(ports: &Vec<u16>, port: u16) -> (r: bool)
    ensures
        r == ports@.contains(port),
{
    let mut i: usize = 0;
    while i < ports.len()
        invariant
            i <= ports@.len(),
            forall|k: int| 0 <= k < i ==> ports@[k] != port,
        decreases ports@.len() - i,
    {
        if ports[i] == port {
            return true;
        }
        i = i + 1;
    }
    false
}

// ---------------------------------------------------------------------------
// Starting
// ---------------------------------------------------------------------------

/// What an environment variable holds.
#[derive(Debug)]
pub enum Variable {
    Present(String),
    Missing,
    NotUnicode,
}

/// What the variable of the port routes holds.
#[derive(Debug)]
pub enum PortRoutesVariable {
    Routes(Vec<ProxyPortRoute>),
    Missing,
    NotUnicode,
    Unreadable,
}

/// Why the proxy does not start.
#[derive(Debug)]
pub enum StartError {
    NoManagerAddress,
    NoWorkload,
    WorkloadNotUnicode,
    WorkloadNotId,
    /// The environment is no identifier, for this reason.
    EnvironmentNotId(String),
    RoutesUnreadable,
    RoutesNotUnicode,
}

/// The contents of a `StartError`.
pub enum StartErrorView {
    NoManagerAddress,
    NoWorkload,
    WorkloadNotUnicode,
    WorkloadNotId,
    EnvironmentNotId(Seq<char>),
    RoutesUnreadable,
    RoutesNotUnicode,
}

impl View for StartError {
    type V = StartErrorView;

    open spec fn view(&self) -> StartErrorView {
        match self {
            StartError::NoManagerAddress => StartErrorView::NoManagerAddress,
            StartError::NoWorkload => StartErrorView::NoWorkload,
            StartError::WorkloadNotUnicode => StartErrorView::WorkloadNotUnicode,
            StartError::WorkloadNotId => StartErrorView::WorkloadNotId,
            StartError::EnvironmentNotId(reason) => StartErrorView::EnvironmentNotId(reason@),
            StartError::RoutesUnreadable => StartErrorView::RoutesUnreadable,
            StartError::RoutesNotUnicode => StartErrorView::RoutesNotUnicode,
        }
    }
}

/// What a `StartError` says of the variable in question.
pub open spec fn start_error_text(e: StartErrorView, variable: Seq<char>) -> Seq<char> {
    match e {
        StartErrorView::NoManagerAddress => "can't find "@ + variable + " env var"@,
        StartErrorView::NoWorkload => variable + " env var must be set"@,
        StartErrorView::WorkloadNotUnicode => variable + " must be valid UTF-8"@,
        StartErrorView::WorkloadNotId => variable + " isn't a valid uuid"@,
        StartErrorView::EnvironmentNotId(reason) => "Failed to parse environment_id as UUID: "@
            + reason,
        StartErrorView::RoutesUnreadable => "failed to parse "@ + variable
            + " as JSON array of proxy routes"@,
        StartErrorView::RoutesNotUnicode => variable + " must be valid UTF-8"@,
    }
}

impl StartError {
    pub fn message(&self, variable: &str) -> (r: String)
        ensures
            r@ == start_error_text(self@, variable@),
    {
        match self {
            StartError::NoManagerAddress => concat3("can't find ", variable, " env var"),
            StartError::NoWorkload => concat(variable, " env var must be set"),
            StartError::WorkloadNotUnicode => concat(variable, " must be valid UTF-8"),
            StartError::WorkloadNotId => concat(variable, " isn't a valid uuid"),
            StartError::EnvironmentNotId(reason) => concat(
                "Failed to parse environment_id as UUID: ",
                reason.as_str(),
            ),
            StartError::RoutesUnreadable => concat3(
                "failed to parse ",
                variable,
                " as JSON array of proxy routes",
            ),
            StartError::RoutesNotUnicode => concat(variable, " must be valid UTF-8"),
        }
    }
}

/// The sidecar proxy as it starts.
#[derive(Debug)]
pub struct SidecarProxyServer {
    pub workload_id: u128,
    pub sidecar_proxy_manager_addr: String,
    pub settings: SidecarSettings,
    pub routing_table: RoutingTable,
}

/// The first thing that keeps the proxy from starting.
pub open spec fn start_failure(
    manager_addr: Variable,
    workload: Variable,
    environment_id: Seq<char>,
    routes: PortRoutesVariable,
) -> Option<StartErrorView> {
    if !(manager_addr is Present) {
        Some(StartErrorView::NoManagerAddress)
    } else {
        match workload {
            Variable::Missing => Some(StartErrorView::NoWorkload),
            Variable::NotUnicode => Some(StartErrorView::WorkloadNotUnicode),
            Variable::Present(w) => if parsed_id(w@) is None {
                Some(StartErrorView::WorkloadNotId)
            } else {
                match id_reading(environment_id) {
                    Err(reason) => Some(StartErrorView::EnvironmentNotId(reason)),
                    Ok(_) => match routes {
                        PortRoutesVariable::NotUnicode => Some(StartErrorView::RoutesNotUnicode),
                        PortRoutesVariable::Unreadable => Some(StartErrorView::RoutesUnreadable),
                        _ => None,
                    },
                }
            },
        }
    }
}

impl SidecarProxyServer {
    /// Sets the proxy up from its environment.
    pub fn new(
        listen_addr: SocketAddress,
        namespace: Option<String>,
        pod_name: Option<String>,
        environment_id: &str,
        environment_auth_token: String,
        manager_addr: Variable,
        workload: Variable,
        routes: PortRoutesVariable,
    ) -> (r: Result<Self, StartError>)
        ensures
            match r {
                Err(e) => start_failure(manager_addr, workload, environment_id@, routes) == Some(e@),
                Ok(server) => {
                    &&& start_failure(manager_addr, workload, environment_id@, routes) is None
                    &&& parsed_id(workload->Present_0@) == Some(server.workload_id)
                    &&& server.sidecar_proxy_manager_addr == manager_addr->Present_0
                    &&& server.settings.listen_addr == listen_addr
                    &&& server.settings.namespace == namespace
                    &&& server.settings.pod_name == pod_name
                    &&& parsed_id(environment_id@) == Some(server.settings.environment_id)
                    &&& server.settings.environment_auth_token == environment_auth_token
                    &&& server.settings.health_check.is_default()
                    &&& server.settings.metrics.is_default()
                    &&& server.routing_table.branch_routes@ == Map::<u128, BranchRoute>::empty()
                    &&& server.routing_table.default_route == DefaultRoute::Local
                    &&& server.routing_table.port_routes@ == (match routes {
                        PortRoutesVariable::Routes(list) => port_route_map(list@),
                        _ => Map::<u16, ProxyPortRoute>::empty(),
                    })
                },
            },
    {
        let sidecar_proxy_manager_addr: String = match manager_addr {
            Variable::Present(addr) => addr,
            _ => {
                return Err(StartError::NoManagerAddress);
            },
        };
        let raw_workload: String = match workload {
            Variable::Present(w) => w,
            Variable::Missing => {
                return Err(StartError::NoWorkload);
            },
            Variable::NotUnicode => {
                return Err(StartError::WorkloadNotUnicode);
            },
        };
        let workload_id: u128 = match id_from_str(raw_workload.as_str()) {
            Some(id) => id,
            None => {
                return Err(StartError::WorkloadNotId);
            },
        };
        let env_id: u128 = match parse_id(environment_id) {
            Ok(id) => id,
            Err(reason) => {
                return Err(StartError::EnvironmentNotId(reason));
            },
        };
        let settings: SidecarSettings = SidecarSettings::new(
            listen_addr,
            namespace,
            pod_name,
            env_id,
            environment_auth_token,
        );
        let mut routing_table: RoutingTable = RoutingTable::default();
        match routes {
            PortRoutesVariable::Routes(list) => {
                routing_table.set_port_routes(list);
            },
            PortRoutesVariable::Missing => {},
            PortRoutesVariable::NotUnicode => {
                return Err(StartError::RoutesNotUnicode);
            },
            PortRoutesVariable::Unreadable => {
                return Err(StartError::RoutesUnreadable);
            },
        }
        Ok(
            SidecarProxyServer {
                workload_id,
                sidecar_proxy_manager_addr,
                settings,
                routing_table,
            },
        )
    }

    /// The namespace that the proxy says it is in.
    pub fn namespace(&self) -> (r: String)
        ensures
            r@ == (match self.settings.namespace {
                Some(n) => n@,
                None => "default"@,
            }),
    {
        match &self.settings.namespace {
            Some(n) => n.clone(),
            None => "default".to_owned(),
        }
    }
}

/// A request whose `tracestate` header names an environment goes to the branch
/// of that environment, where the table knows it.
pub proof fn law_named_environment_decides(
    table: RoutingTable,
    proxy_port: u16,
    request: ParsedHttpRequest,
    r: ConnectionPlan,
    value: Seq<char>,
    id: u128,
)
    requires
        call_ensures(plan_http_connection, (&table, proxy_port, Some(&request)), r),
        header_ignoring_case(header_views(request.headers@), "tracestate"@) == Some(value),
        environment_text(split(value, ',')) == Some(id_text(id)),
        table.branch_routes@.contains_key(id),
    ensures
        match table.branch_routes@[id].mode {
            BranchMode::Devbox(c) => r matches ConnectionPlan::Devbox {
                connection,
                service_port,
                target_port,
            } && connection == c && stands_for(table, proxy_port, service_port) && is_devbox_port(
                c,
                service_port,
                target_port,
            ),
            BranchMode::Service => match r {
                ConnectionPlan::Branch { service_name, port, fallback_port: _ } => {
                    let names = table.branch_routes@[id].service.service_names@;
                    stands_for(table, proxy_port, port) && names.contains_key(port)
                        && service_name@ == names[port]@
                },
                ConnectionPlan::Local { port } => stands_for(table, proxy_port, port)
                    && !table.branch_routes@[id].service.service_names@.contains_key(port),
                ConnectionPlan::Devbox { connection: _, service_port: _, target_port: _ } => false,
            },
        },
{
    assert(stands_for(table, proxy_port, service_port_of(table, proxy_port)));
    assert(is_http_plan(table, proxy_port, Some(id), r));
}

/// A stream is tried again just once, and just where its client was closed.
pub proof fn law_closed_clients_are_replaced_once(
    retried: bool,
    outcome: OpenOutcome,
    r: OpenAction,
)
    requires
        call_ensures(after_open, (retried, outcome), r),
    ensures
        r is UseStream <==> outcome is Opened,
        r is Reconnect <==> outcome is ConnectionClosed && !retried,
{
}

/// What was read before a stream was handed on comes out as it went in: what a
/// read gives, followed by what is left, is what was there, and no read that
/// has room gives nothing while there is something left.
pub proof fn law_preface_comes_out_whole(
    buffer: &mut PrefacedBuffer,
    capacity: usize,
    r: Option<Vec<u8>>,
)
    requires
        call_ensures(PrefacedBuffer::read, (buffer, capacity), r),
    ensures
        r is None <==> old(buffer).remaining().len() == 0,
        r matches Some(bytes) ==> {
            &&& bytes@ + final(buffer).remaining() == old(buffer).remaining()
            &&& bytes@.len() <= capacity
            &&& capacity > 0 ==> bytes@.len() > 0
            &&& capacity >= old(buffer).remaining().len() ==> final(buffer).remaining().len() == 0
        },
{
    if let Some(bytes) = r {
        assert(bytes@ + final(buffer).remaining() =~= old(buffer).remaining());
    }
}

/// A buffer starts with all that it was given.
pub proof fn law_preface_starts_whole(bytes: Vec<u8>, buffer: PrefacedBuffer)
    requires
        call_ensures(PrefacedBuffer::new, (bytes,), buffer),
    ensures
        buffer.remaining() == bytes@,
{
}

/// A listener goes on after an error that passes, waits where too many files
/// are open, and stops after any other.
pub proof fn law_passing_errors_are_ignored(
    kind: AcceptErrorKind,
    number: Option<i32>,
    r: AcceptAction,
)
    requires
        call_ensures(after_accept_error, (kind, number), r),
    ensures
        r is Continue <==> kind is ConnectionAborted || kind is ConnectionReset || kind
            is Interrupted,
        r is BackOff <==> kind is Other && (number == Some(24i32) || number == Some(10024i32)),
        r matches AcceptAction::BackOff { millis } ==> millis == 100,
{
}

/// The proxy listens on its own port and on that of every port route, on each
/// once, and on no other.
pub proof fn law_every_port_is_listened_on(
    table: RoutingTable,
    default_port: u16,
    r: Vec<u16>,
    p: u16,
)
    requires
        call_ensures(listener_ports, (&table, default_port), r),
    ensures
        r@.contains(p) <==> p == default_port || (exists|k: u16| #[trigger]
            table.port_routes@.contains_key(k) && table.port_routes@[k].proxy_port == p),
        forall|i: int, j: int| 0 <= i < j < r@.len() ==> #[trigger] r@[i] != #[trigger] r@[j],
{
}

/// A proxy starts with what its environment says: its workload, its
/// environment, its manager and its port routes. Nothing is routed away from it
/// yet.
pub proof fn law_proxy_starts_as_told(
    listen_addr: SocketAddress,
    namespace: Option<String>,
    pod_name: Option<String>,
    environment: &str,
    token: String,
    manager: Variable,
    workload: Variable,
    routes: PortRoutesVariable,
    server: SidecarProxyServer,
)
    requires
        call_ensures(
            SidecarProxyServer::new,
            (
                listen_addr,
                namespace,
                pod_name,
                environment,
                token,
                manager,
                workload,
                routes,
            ),
            Ok::<SidecarProxyServer, StartError>(server),
        ),
    ensures
        manager matches Variable::Present(m) && server.sidecar_proxy_manager_addr@ == m@,
        workload matches Variable::Present(w) && parsed_id(w@) == Some(server.workload_id),
        parsed_id(environment@) == Some(server.settings.environment_id),
        server.settings.environment_auth_token == token,
        server.settings.listen_addr == listen_addr,
        server.settings.namespace == namespace,
        server.settings.pod_name == pod_name,
        server.routing_table.default_route is Local,
        forall|id: u128| !#[trigger] server.routing_table.branch_routes@.contains_key(id),
        routes is Missing || routes is Routes,
        routes is Missing ==> forall|p: u16|
            !#[trigger] server.routing_table.port_routes@.contains_key(p),
{
}

/// A proxy that does not start says the first thing that is wrong with its
/// environment.
pub proof fn law_start_failure_is_told(
    listen_addr: SocketAddress,
    namespace: Option<String>,
    pod_name: Option<String>,
    environment: &str,
    token: String,
    manager: Variable,
    workload: Variable,
    routes: PortRoutesVariable,
    e: StartError,
)
    requires
        call_ensures(
            SidecarProxyServer::new,
            (
                listen_addr,
                namespace,
                pod_name,
                environment,
                token,
                manager,
                workload,
                routes,
            ),
            Err::<SidecarProxyServer, StartError>(e),
        ),
    ensures
        e is NoManagerAddress <==> !(manager is Present),
        e is NoWorkload <==> manager is Present && workload is Missing,
        e is WorkloadNotUnicode <==> manager is Present && workload is NotUnicode,
        e is WorkloadNotId <==> manager is Present && (workload matches Variable::Present(w)
            && parsed_id(w@) is None),
        e is RoutesNotUnicode ==> routes is NotUnicode,
        e is RoutesUnreadable ==> routes is Unreadable,
{
    assert(e@ == e@);
}

/// A proxy is in the namespace that it was told, or in the default one.
pub proof fn law_namespace_is_told(server: SidecarProxyServer, r: String)
    requires
        call_ensures(SidecarProxyServer::namespace, (&server,), r),
    ensures
        server.settings.namespace matches Some(n) ==> r@ == n@,
        server.settings.namespace is None ==> r@ == "default"@,
{
}

} // verus!
