use lapdev_kube::config::{
    access_level_from_proxy, AccessLevel, BranchServiceRoute, DevboxConnection,
    DevboxRouteMetadata, HealthCheckConfig, MetricsConfig, ProxyAnnotations, ProxyPortRoute,
    RouteDecision, RoutingTable,
};
use lapdev_kube::connection_plan::{
    after_accept_error, after_branch_failure, after_open, determine_connection_route,
    listener_ports, plan_http_connection, plan_tcp_connection, AcceptAction, AcceptErrorKind,
    ConnectionPlan, OpenAction, OpenOutcome, PortRoutesVariable, PrefacedBuffer,
    SidecarProxyServer, StartError, UpstreamConnector, Variable,
};
use lapdev_kube::connection_registry::ConnectionRegistry;
use lapdev_kube::http2_client::{ActorMessage, ActorState};
use lapdev_kube::http_parser::{
    header_map_to_vec, parse_http_request_from_buffer, ParsedHttpRequest, RawHeader,
};
use lapdev_kube::kube_rpc::{DevboxRouteConfig, ProxyBranchRouteConfig, ProxyRouteAccessLevel};
use lapdev_kube::net::{IpAddress, SocketAddress};
use lapdev_kube::path_routing::{
    after_member_lookup, after_service_lookup, build_target_uri, check_authorization,
    find_matching_route, has_proxy_annotations, path_matches, prepare_headers, request_timeout,
    resolve_target, service_endpoints, tunnel_route_answer, update_pod_config,
    update_service_routes, ProxyConfig, ResolveStep, RouteConfig, RouteMatch, RouteTarget,
    SidecarProxyError,
};
use lapdev_kube::route_updates::{
    devbox_connection_from_config, devbox_route_config_from_connection,
    remove_branch_service_route, set_devbox_route, set_service_routes, stop_devbox,
    upsert_branch_service_route,
};
use lapdev_kube::text_map::TextMap;
use std::collections::HashMap;
use std::sync::Arc;

const ID: &str = "11111111-2222-3333-4444-555555555555";

fn id() -> u128 {
    uuid::Uuid::parse_str(ID).unwrap().as_u128()
}

fn texts(pairs: &[(&str, &str)]) -> TextMap<String> {
    let mut map = TextMap::new();
    for (key, value) in pairs {
        map.insert(key.to_string(), value.to_string());
    }
    map
}

fn address(last: u8, port: u16) -> SocketAddress {
    SocketAddress {
        ip: IpAddress::V4([10, 0, 0, last]),
        port,
    }
}

fn devbox(intercept_id: u128, mappings: &[(u16, u16)]) -> Arc<DevboxConnection> {
    Arc::new(DevboxConnection::new(DevboxRouteMetadata {
        intercept_id,
        workload_id: 2,
        auth_token: "t".to_string(),
        websocket_url: "ws://x".to_string(),
        path_pattern: "/*".to_string(),
        port_mappings: mappings.iter().copied().collect(),
        created_at_epoch_seconds: None,
        expires_at_epoch_seconds: None,
        direct: None,
    }))
}

fn table() -> RoutingTable {
    let mut table = RoutingTable::default();
    table.set_port_routes(vec![ProxyPortRoute {
        proxy_port: 18080,
        service_port: 80,
        target_port: 8080,
    }]);
    table.upsert_branch_service_route(
        id(),
        BranchServiceRoute::new_service(80, "web-branch".to_string()),
    );
    table
}

#[test]
fn defaults_are_as_documented() {
    let health = HealthCheckConfig::default();
    assert_eq!(health.path, "/health");
    assert_eq!(health.interval_seconds, 30);
    assert_eq!(health.timeout_ms, 5000);
    assert_eq!(health.failure_threshold, 3);
    let metrics = MetricsConfig::default();
    assert!(metrics.enabled);
    assert_eq!(metrics.path, "/metrics");
    assert_eq!(metrics.port, None);
    assert_eq!(
        access_level_from_proxy(ProxyRouteAccessLevel::Shared),
        AccessLevel::Shared
    );
}

#[test]
fn ports_are_mapped_both_ways() {
    let table = table();
    assert_eq!(table.service_port_for_proxy(18080), 80);
    assert_eq!(table.service_port_for_proxy(9), 9);
    assert_eq!(table.target_port_for_service(80), 8080);
    assert_eq!(table.target_port_for_service(9), 9);
    assert_eq!(table.port_route(18080).unwrap().target_port, 8080);
    assert_eq!(devbox(1, &[(80, 3000)]).resolve_target_port(80), 3000);
    assert_eq!(devbox(1, &[(80, 3000)]).resolve_target_port(81), 81);
}

#[test]
fn branches_keep_their_devbox_when_services_change() {
    let mut table = table();
    assert!(!table.set_branch_devbox(5, devbox(1, &[])));
    assert!(table.set_branch_devbox(id(), devbox(1, &[(80, 3000)])));
    table.replace_branch_routes(vec![(
        id(),
        BranchServiceRoute::new_service(81, "other".to_string()),
    )]);
    assert!(matches!(
        table.resolve_http(80, Some(id())),
        RouteDecision::BranchDevbox {
            target_port: 3000,
            ..
        }
    ));
    assert_eq!(table.remove_branch_devbox_by_intercept(9), None);
    assert_eq!(table.remove_branch_devbox_by_intercept(1), Some(id()));
    match table.resolve_http(81, Some(id())) {
        RouteDecision::BranchService { service } => {
            assert_eq!(service.service_name_for_port(81), Some("other"))
        }
        other => panic!("unexpected decision {other:?}"),
    }
    assert!(table.remove_branch_service_route(id()));
    assert!(matches!(
        table.resolve_http(80, Some(id())),
        RouteDecision::DefaultLocal { .. }
    ));
}

#[test]
fn the_default_devbox_takes_the_rest() {
    let mut table = table();
    table.set_default_devbox(devbox(4, &[(80, 3000)]));
    assert!(matches!(
        table.resolve_tcp(80),
        RouteDecision::DefaultDevbox {
            target_port: 3000,
            ..
        }
    ));
    assert!(!table.remove_default_devbox_by_intercept(5));
    assert_eq!(table.default_devbox().unwrap().metadata().intercept_id, 4);
    assert!(table.remove_default_devbox_by_intercept(4));
    assert!(table.default_devbox().is_none());
}

fn request(head: &str) -> ParsedHttpRequest {
    parse_http_request_from_buffer(head.as_bytes()).unwrap().0
}

#[test]
fn connections_are_planned() {
    let mut table = table();
    let plain = request("GET / HTTP/1.1\r\nHost: x\r\n\r\n");
    assert!(matches!(
        plan_http_connection(&table, 18080, Some(&plain)),
        ConnectionPlan::Local { port: 8080 }
    ));
    assert!(matches!(
        plan_http_connection(&table, 18080, None),
        ConnectionPlan::Local { port: 8080 }
    ));
    let branch = request(&format!(
        "GET / HTTP/1.1\r\ntracestate: a=1,lapdev-env-id={ID}\r\n\r\n"
    ));
    match plan_http_connection(&table, 18080, Some(&branch)) {
        ConnectionPlan::Branch {
            service_name,
            port,
            fallback_port,
        } => {
            assert_eq!(service_name, "web-branch");
            assert_eq!((port, fallback_port), (80, 80));
        }
        other => panic!("unexpected plan {other:?}"),
    }
    assert!(matches!(
        after_branch_failure(80),
        ConnectionPlan::Local { port: 80 }
    ));
    table.set_branch_devbox(id(), devbox(1, &[(80, 3000)]));
    assert!(matches!(
        plan_http_connection(&table, 18080, Some(&branch)),
        ConnectionPlan::Devbox {
            service_port: 80,
            target_port: 3000,
            ..
        }
    ));
    assert!(matches!(
        plan_tcp_connection(&table, 18080),
        ConnectionPlan::Local { port: 8080 }
    ));
}

#[test]
fn streams_are_routed() {
    let table = table();
    let header = |value: &str| RawHeader {
        name: "tracestate".to_string(),
        value: value.as_bytes().to_vec(),
    };
    let headers = vec![header(&format!("lapdev-env-id={ID}"))];
    let plan = determine_connection_route(&headers, 18080, &table, 7).unwrap();
    assert_eq!(plan.branch_id, Some(id()));
    assert_eq!(plan.target_environment_id, id());
    assert!(matches!(
        plan.upstream,
        UpstreamConnector::BranchService { port: 80, .. }
    ));
    let error = determine_connection_route(&headers, 99, &table, 7).unwrap_err();
    assert_eq!(
        error,
        format!("missing branch service mapping for port 99 (branch Some({ID}))")
    );
    let plan = determine_connection_route(&Vec::new(), 99, &table, 7).unwrap();
    assert_eq!(plan.target_environment_id, 7);
    assert!(matches!(plan.upstream, UpstreamConnector::Local { port: 99 }));
    let mixed = vec![
        header("\u{fffd}"),
        RawHeader {
            name: "x".to_string(),
            value: vec![0xff],
        },
    ];
    let listed = header_map_to_vec(&mixed);
    assert!(listed.iter().any(|(name, value)| name == "x" && value == "\u{fffd}"));
}

#[test]
fn failed_opens_are_retried_once() {
    assert_eq!(after_open(false, OpenOutcome::Opened), OpenAction::UseStream);
    assert_eq!(
        after_open(false, OpenOutcome::ConnectionClosed),
        OpenAction::Reconnect
    );
    assert_eq!(
        after_open(true, OpenOutcome::ConnectionClosed),
        OpenAction::Fail
    );
    assert_eq!(after_open(false, OpenOutcome::Failed), OpenAction::Fail);
}

#[test]
fn buffered_bytes_are_read_first() {
    let mut buffer = PrefacedBuffer::new(vec![1, 2, 3]);
    assert_eq!(buffer.read(2), Some(vec![1, 2]));
    assert_eq!(buffer.read(2), Some(vec![3]));
    assert_eq!(buffer.read(2), None);
}

#[test]
fn listeners_survive_passing_errors() {
    let after = after_accept_error;
    assert_eq!(after(AcceptErrorKind::Interrupted, None), AcceptAction::Continue);
    assert_eq!(
        after(AcceptErrorKind::Other, Some(24)),
        AcceptAction::BackOff { millis: 100 }
    );
    assert_eq!(after(AcceptErrorKind::Other, Some(1)), AcceptAction::Stop);
    let mut ports = listener_ports(&table(), 8080);
    ports.sort();
    assert_eq!(ports, [8080, 18080]);
}

#[test]
fn sidecars_start_from_variables() {
    let start = |manager: Variable, workload: Variable, routes: PortRoutesVariable, env: &str| {
        SidecarProxyServer::new(
            address(1, 8080),
            None,
            None,
            env,
            "token".to_string(),
            manager,
            workload,
            routes,
        )
    };
    let text = |t: &str| Variable::Present(t.to_string());
    let server = start(text("m:1"), text(ID), PortRoutesVariable::Missing, ID).unwrap();
    assert_eq!(server.workload_id, id());
    assert_eq!(server.settings.environment_id, id());
    let cases = [
        (Variable::Missing, text(ID), PortRoutesVariable::Missing, ID, "can't find V env var"),
        (text("m"), Variable::Missing, PortRoutesVariable::Missing, ID, "V env var must be set"),
        (text("m"), Variable::NotUnicode, PortRoutesVariable::Missing, ID, "V must be valid UTF-8"),
        (text("m"), text("x"), PortRoutesVariable::Missing, ID, "V isn't a valid uuid"),
        (
            text("m"),
            text(ID),
            PortRoutesVariable::Unreadable,
            ID,
            "failed to parse V as JSON array of proxy routes",
        ),
        (text("m"), text(ID), PortRoutesVariable::NotUnicode, ID, "V must be valid UTF-8"),
    ];
    for (manager, workload, routes, env, expected) in cases {
        let error = start(manager, workload, routes, env).unwrap_err();
        assert_eq!(error.message("V"), expected);
    }
    let unreadable = start(text("m"), text(ID), PortRoutesVariable::Missing, "x").unwrap_err();
    assert!(matches!(unreadable, StartError::EnvironmentNotId(_)));
    let reason = uuid::Uuid::parse_str("x").unwrap_err();
    assert_eq!(
        unreadable.message("V"),
        format!("Failed to parse environment_id as UUID: {reason}")
    );
    assert_eq!(StartError::NoWorkload.message("W"), "W env var must be set");
}

fn route_config(branch: u128, devbox_route: Option<DevboxRouteConfig>) -> ProxyBranchRouteConfig {
    ProxyBranchRouteConfig {
        branch_environment_id: branch,
        service_names: HashMap::from([(80, "web".to_string())]),
        headers: TextMap::new(),
        requires_auth: true,
        access_level: ProxyRouteAccessLevel::Personal,
        timeout_ms: Some(5),
        devbox_route,
    }
}

fn devbox_config(branch: Option<u128>) -> DevboxRouteConfig {
    devbox_route_config_from_connection(&devbox(3, &[(80, 3000)]), branch)
}

#[test]
fn routes_are_updated() {
    let mut table = table();
    let mut ended = set_service_routes(
        &mut table,
        vec![route_config(5, Some(devbox_config(Some(5))))],
    );
    ended.sort();
    let mut expected = vec![5, id()];
    expected.sort();
    assert_eq!(ended, expected);
    assert!(matches!(
        table.resolve_http(80, Some(5)),
        RouteDecision::BranchDevbox { .. }
    ));
    assert_eq!(stop_devbox(&mut table, Some(5)), Some(5));
    assert!(matches!(
        table.resolve_http(80, Some(5)),
        RouteDecision::BranchService { .. }
    ));
    assert_eq!(set_devbox_route(&mut table, 9, devbox_config(None)), None);
    assert_eq!(
        set_devbox_route(&mut table, 2, devbox_config(None)),
        Some(None)
    );
    assert!(table.default_devbox().is_some());
    assert_eq!(stop_devbox(&mut table, None), None);
    assert!(table.default_devbox().is_none());
    let mut empty = route_config(6, None);
    empty.service_names.clear();
    assert_eq!(
        upsert_branch_service_route(&mut table, empty),
        Err("Missing service_names for branch service route update".to_string())
    );
    assert_eq!(
        upsert_branch_service_route(&mut table, route_config(6, None)),
        Ok(6)
    );
    assert_eq!(remove_branch_service_route(&mut table, 6), 6);
    assert!(matches!(
        table.resolve_http(80, Some(6)),
        RouteDecision::DefaultLocal { .. }
    ));
}

#[test]
fn devbox_routes_survive_the_round_trip() {
    let config = devbox_config(Some(5));
    let connection = devbox_connection_from_config(config);
    let back = devbox_route_config_from_connection(&connection, Some(5));
    assert_eq!(back.intercept_id, 3);
    assert_eq!(back.port_mappings.get(&80), Some(&3000));
    assert_eq!(back.branch_environment_id, Some(5));
    assert_eq!(back.websocket_url, "ws://x");
}

#[test]
fn connections_end_with_their_branch() {
    let mut registry = ConnectionRegistry::new();
    registry.subscribe(None, "shared");
    registry.subscribe(Some(1), "one");
    registry.subscribe(Some(1), "again");
    assert_eq!(registry.channel(Some(1)), Some(&"one"));
    assert_eq!(registry.shutdown_branch(Some(1)), Some("one"));
    assert_eq!(registry.channel(Some(1)), None);
    registry.subscribe(Some(2), "two");
    assert_eq!(
        registry.shutdown_branches(vec![Some(2), Some(3), None, Some(2)]),
        ["two", "shared"]
    );
}

#[test]
fn everybody_who_waits_is_served() {
    let mut actor: ActorState<&str, u8> = ActorState::new();
    assert!(actor.handle(ActorMessage::Acquire { responder: 1 }).connect);
    assert!(!actor.handle(ActorMessage::Acquire { responder: 2 }).connect);
    let step = actor.handle(ActorMessage::Connected { sender: "s" });
    assert_eq!(step.leased, [1, 2]);
    assert_eq!(actor.handle(ActorMessage::Acquire { responder: 3 }).leased, [3]);
    actor.handle(ActorMessage::Return { broken: true });
    assert!(actor.handle(ActorMessage::Acquire { responder: 4 }).connect);
    assert_eq!(actor.handle(ActorMessage::ConnectFailed).failed, [4]);
    actor.handle(ActorMessage::Acquire { responder: 5 });
    let last = actor.handle(ActorMessage::Shutdown);
    assert!(last.stop);
    assert_eq!(last.failed, [5]);
}

fn path_route(path: &str, target: RouteTarget) -> RouteConfig {
    RouteConfig {
        path: path.to_string(),
        target,
        headers: TextMap::new(),
        timeout_ms: None,
        requires_auth: false,
        access_level: AccessLevel::Public,
    }
}

#[test]
fn paths_match_their_patterns() {
    assert!(path_matches("/*", "/anything"));
    assert!(path_matches("/api/*", "/api/x"));
    assert!(path_matches("/api/*", "/apix"));
    assert!(!path_matches("/api", "/api/x"));
    assert!(path_matches("/api", "/api"));
    let config = ProxyConfig {
        default_target: address(1, 80),
        routes: vec![
            path_route("/a/*", RouteTarget::Address(address(2, 80))),
            path_route("/a/b", RouteTarget::Address(address(3, 80))),
        ],
    };
    assert!(matches!(
        find_matching_route(&config, "/a/b"),
        RouteMatch::Configured(route) if route.path == "/a/*"
    ));
    match find_matching_route(&config, "/z") {
        RouteMatch::Default(route) => {
            assert!(route.requires_auth);
            assert_eq!(request_timeout(&route), 30000);
        }
        other => panic!("unexpected match {other:?}"),
    }
}

#[test]
fn targets_are_resolved() {
    let service = |name: &str| RouteTarget::Service {
        name: name.to_string(),
        namespace: None,
        port: 80,
    };
    assert!(matches!(
        resolve_target(&RouteTarget::Address(address(1, 80))),
        ResolveStep::Found(a) if a == address(1, 80)
    ));
    assert!(matches!(
        resolve_target(&service("a")),
        ResolveStep::LookUp { member: None }
    ));
    let members = vec![service("a"), service("b")];
    let found = after_member_lookup(&members, 0, &vec![address(2, 80)]);
    assert!(matches!(found, ResolveStep::Found(a) if a == address(2, 80)));
    assert!(matches!(
        after_member_lookup(&members, 0, &Vec::new()),
        ResolveStep::LookUp { member: Some(1) }
    ));
    assert!(matches!(
        after_member_lookup(&members, 1, &Vec::new()),
        ResolveStep::Failed(_)
    ));
    assert!(matches!(
        resolve_target(&RouteTarget::LoadBalance(members)),
        ResolveStep::LookUp { member: Some(0) }
    ));
    let tunnel = RouteTarget::DevboxTunnel {
        intercept_id: 1,
        session_id: 2,
        target_port: 3,
        auth_token: String::new(),
    };
    assert!(matches!(
        resolve_target(&tunnel),
        ResolveStep::Failed(SidecarProxyError::Generic(_))
    ));
    assert!(after_service_lookup("a", &Vec::new()).is_err());
    let listed = service_endpoints("a", &vec![None, Some(address(4, 80))]).unwrap();
    assert_eq!(listed, [address(4, 80)]);
    let missing = service_endpoints("a", &vec![None]).unwrap_err();
    assert_eq!(
        missing.answer(),
        (502, "Target not found: Target service not found: a".to_string())
    );
    assert_eq!(
        SidecarProxyError::Generic("x".to_string()).answer(),
        (500, "Internal server error".to_string())
    );
    assert_eq!(
        SidecarProxyError::Rpc("x".to_string()).message(),
        "RPC error: x"
    );
    assert_eq!(
        SidecarProxyError::Watcher("x".to_string()).message(),
        "Kubernetes watcher error: x"
    );
}

fn header_map(list: &[(&str, &[u8])]) -> http::HeaderMap {
    let mut map = http::HeaderMap::new();
    for (name, value) in list {
        let name = http::HeaderName::from_bytes(name.as_bytes()).unwrap();
        map.append(name, http::HeaderValue::from_bytes(value).unwrap());
    }
    map
}

#[test]
fn requests_are_prepared() {
    let denied = check_authorization(&header_map(&[]), AccessLevel::Shared).unwrap_err();
    assert_eq!(denied.answer(), (401, "Unauthorized".to_string()));
    assert!(check_authorization(&header_map(&[]), AccessLevel::Public).is_ok());
    assert!(check_authorization(&header_map(&[("cookie", b"a=b")]), AccessLevel::Personal).is_ok());
    assert_eq!(
        build_target_uri("10.0.0.1:80", Some("/x?y#z")).unwrap(),
        "http://10.0.0.1:80/x?y"
    );
    assert_eq!(build_target_uri("10.0.0.1:80", None).unwrap(), "http://10.0.0.1:80/");
    assert!(matches!(
        build_target_uri("10.0.0.1:80", Some("/a b")),
        Err(SidecarProxyError::Generic(m)) if m == "Invalid target URI: invalid uri character"
    ));
    let mut route = path_route("/*", RouteTarget::Address(address(1, 80)));
    route.headers = texts(&[("X-Extra", "1")]);
    let prepared = prepare_headers(
        header_map(&[
            ("host", b"x"),
            ("connection", b"close"),
            ("accept", b"*/*"),
            ("x-extra", b"0"),
            ("x-raw", b"caf\xe9"),
            ("x-raw", b"b"),
        ]),
        &route,
    )
    .unwrap();
    assert_eq!(
        prepared,
        header_map(&[
            ("host", b"x"),
            ("accept", b"*/*"),
            ("x-extra", b"1"),
            ("x-raw", b"caf\xe9"),
            ("x-raw", b"b"),
            ("x-forwarded-host", b"x"),
            ("x-forwarded-proto", b"http"),
        ])
    );
    route.headers = texts(&[("bad name", "1")]);
    assert!(matches!(
        prepare_headers(header_map(&[]), &route),
        Err(SidecarProxyError::Generic(m)) if m == "Invalid header name: invalid HTTP header name"
    ));
    route.headers = texts(&[("name", "a\nb")]);
    assert!(matches!(
        prepare_headers(header_map(&[]), &route),
        Err(SidecarProxyError::Generic(m)) if m == "Invalid header value: failed to parse header value"
    ));
}

#[test]
fn annotations_describe_routes() {
    let annotations = texts(&[
        (ProxyAnnotations::TARGET_PORT, "8080"),
        (ProxyAnnotations::ACCESS_LEVEL, "public"),
        (ProxyAnnotations::REQUIRE_AUTH, "false"),
        (ProxyAnnotations::TIMEOUT_MS, "250"),
    ]);
    assert!(has_proxy_annotations(&annotations));
    assert!(!has_proxy_annotations(&texts(&[("a", "b")])));
    let mut config = ProxyConfig {
        default_target: address(1, 80),
        routes: Vec::new(),
    };
    update_service_routes(&mut config, "web", None, &texts(&[]));
    update_service_routes(&mut config, "web", Some("ns"), &annotations);
    assert_eq!(config.routes.len(), 1);
    let route = &config.routes[0];
    assert_eq!(route.path, "/web/*");
    assert_eq!(request_timeout(route), 250);
    assert!(!route.requires_auth);
    assert_eq!(route.access_level, AccessLevel::Public);
    assert!(matches!(
        &route.target,
        RouteTarget::Service { namespace: Some(ns), port: 8080, .. } if ns == "ns"
    ));
    let custom = |text: &str| texts(&[(ProxyAnnotations::CUSTOM_HEADERS, text)]);
    assert!(!update_pod_config(&mut config, None, &texts(&[])));
    assert!(!update_pod_config(&mut config, None, &custom("{\"a\": 1}")));
    assert!(update_pod_config(
        &mut config,
        Some(address(9, 9)),
        &custom("{\"x-pod\": \"1\", \"x-more\": \"2\"}")
    ));
    assert_eq!(config.routes[0].headers.get("x-more"), Some(&"2".to_string()));
    assert_eq!(config.default_target, address(9, 9));
    assert_eq!(config.routes[0].headers.get("x-pod"), Some(&"1".to_string()));
}

#[test]
fn port_routes_are_replaced_and_removed() {
    let route = |proxy_port: u16, target_port: u16| ProxyPortRoute {
        proxy_port,
        service_port: 80,
        target_port,
    };
    let mut routes = RoutingTable::default();
    assert_eq!(routes.upsert_port_route(route(1, 10)), None);
    assert_eq!(routes.upsert_port_route(route(1, 11)), Some(route(1, 10)));
    assert_eq!(routes.port_route(1), Some(&route(1, 11)));
    assert_eq!(routes.remove_port_route(1), Some(route(1, 11)));
    assert_eq!(routes.remove_port_route(1), None);
    assert_eq!(routes.port_route(1), None);
}

#[test]
fn all_branch_devboxes_are_cleared() {
    let mut routes = RoutingTable::default();
    routes.upsert_branch_service_route(7, BranchServiceRoute::new_service(80, "web".to_string()));
    assert!(routes.set_branch_devbox(7, devbox(3, &[(80, 3000)])));
    assert!(matches!(
        routes.resolve_http(80, Some(7)),
        RouteDecision::BranchDevbox { target_port: 3000, .. }
    ));
    routes.clear_branch_devboxes();
    assert!(matches!(
        routes.resolve_http(80, Some(7)),
        RouteDecision::BranchService { service } if service.service_name_for_port(80) == Some("web")
    ));
}

#[test]
fn requests_without_a_known_branch_go_where_tcp_goes() {
    let mut table = table();
    let routes = table.set_port_routes(vec![
        ProxyPortRoute {
            proxy_port: 18080,
            service_port: 80,
            target_port: 8080,
        },
        ProxyPortRoute {
            proxy_port: 18081,
            service_port: 80,
            target_port: 8081,
        },
        ProxyPortRoute {
            proxy_port: 18082,
            service_port: 82,
            target_port: 8082,
        },
    ]);
    assert_eq!(routes.port_routes().len(), 3);
    let local = |decision: RouteDecision| match decision {
        RouteDecision::DefaultLocal { target_port } => target_port,
        other => panic!("unexpected decision {other:?}"),
    };
    let tcp = local(table.resolve_tcp(80));
    assert!(tcp == 8080 || tcp == 8081);
    assert_eq!(local(table.resolve_http(80, None)), tcp);
    assert_eq!(local(table.resolve_http(80, Some(7))), tcp);
    assert_eq!(local(table.resolve_http(82, Some(7))), 8082);
    assert!(matches!(
        table.resolve_http(80, Some(id())),
        RouteDecision::BranchService { service } if service.service_name_for_port(80) == Some("web-branch")
    ));
    let listed: Vec<u16> = table
        .port_routes()
        .iter()
        .filter(|route| route.service_port == 80)
        .map(|route| route.target_port)
        .collect();
    assert_eq!(listed[0], tcp);
    let plan = plan_tcp_connection(&table, 18081);
    assert!(matches!(plan, ConnectionPlan::Local { port } if port == tcp));
    table.set_default_devbox(devbox(1, &[(80, 3000)]));
    for decision in [table.resolve_tcp(80), table.resolve_http(80, Some(7))] {
        assert!(matches!(
            decision,
            RouteDecision::DefaultDevbox { target_port: 3000, .. }
        ));
    }
}

#[test]
fn tunnel_routes_are_refused() {
    let tunnel = RouteTarget::DevboxTunnel {
        intercept_id: 1,
        session_id: 2,
        target_port: 3,
        auth_token: "t".to_string(),
    };
    assert!(matches!(
        tunnel_route_answer(&tunnel),
        Some(SidecarProxyError::Generic(m))
            if m == "Devbox tunnel proxying not yet fully implemented. This requires RPC client access and WebSocket tunnel streaming."
    ));
    assert!(tunnel_route_answer(&RouteTarget::Address(address(1, 80))).is_none());
}
