use http::{HeaderMap, HeaderName, HeaderValue};
use lapdev_kube::http_parser::{
    get_content_length, get_host_header, parse_http_request_from_buffer, HeaderReadError,
};
use lapdev_kube::json::Json;
use lapdev_kube::otel_routing::TRACESTATE_HEADER;
use lapdev_kube::preview_proxy::{
    active_since, add_environment_id_to_headers, after_read_error, authorize_request,
    begin_preview, error_page, extract_cookie_value, find_intercept, intercept_hint, link_error,
    membership, parse_link, resolve_error, respond_with_proxy_error, tunnel_target,
    user_id_from_claim, user_id_from_token, user_label, AccessStep, DevboxPortMapping, FirstRead,
    PagePart, PreviewStep, PreviewUrlProxy, ProxyError, TunnelAvailability,
};
use lapdev_kube::preview_url::{
    EnvironmentRecord, PreviewUrlAccessLevel, PreviewUrlError, PreviewUrlInfo, PreviewUrlRecord,
    PreviewUrlResolver, ServiceRecord,
};
use lapdev_kube::tracestate::{
    ensure_environment_tracestate, environment_of_request, environment_tracestate, set_environment,
};
use lapdev_kube::tunnel_error::{IoCause, IoError, IoKind, TunnelError};

fn id(text: &str) -> u128 {
    uuid::Uuid::parse_str(text).unwrap().as_u128()
}

fn headers(pairs: &[(&str, &str)]) -> Vec<(String, String)> {
    pairs
        .iter()
        .map(|(name, value)| (name.to_string(), value.to_string()))
        .collect()
}

#[test]
fn ensure_tracestate_inserted_when_missing() {
    let mut headers = HeaderMap::new();
    let env_id = "aaaaaaaa-bbbb-cccc-dddd-eeeeeeeeeeee";

    ensure_environment_tracestate(&mut headers, id(env_id)).unwrap();

    let expected = format!("lapdev-env-id={}", env_id);
    assert_eq!(
        headers
            .get(TRACESTATE_HEADER)
            .and_then(|value| value.to_str().ok())
            .unwrap(),
        expected
    );
}

#[test]
fn ensure_tracestate_replaces_existing_entry() {
    let mut headers = HeaderMap::new();
    headers.insert(
        HeaderName::from_static(TRACESTATE_HEADER),
        HeaderValue::from_static("foo=bar, lapdev-env-id=old-env ,baz=qux"),
    );

    let env_id = "11111111-2222-3333-4444-555555555555";

    ensure_environment_tracestate(&mut headers, id(env_id)).unwrap();

    let expected = format!("foo=bar,baz=qux,lapdev-env-id={}", env_id);
    assert_eq!(
        headers
            .get(TRACESTATE_HEADER)
            .and_then(|value| value.to_str().ok())
            .unwrap(),
        expected
    );
}

#[test]
fn one_tracestate_header_stays() {
    let mut headers = HeaderMap::new();
    headers.append(TRACESTATE_HEADER, HeaderValue::from_static("a=1"));
    headers.append(TRACESTATE_HEADER, HeaderValue::from_static("b=2"));
    headers.insert("host", HeaderValue::from_static("h"));
    ensure_environment_tracestate(&mut headers, 0).unwrap();
    let mut expected = HeaderMap::new();
    expected.insert("host", HeaderValue::from_static("h"));
    expected.insert(
        TRACESTATE_HEADER,
        HeaderValue::from_static("a=1,lapdev-env-id=00000000-0000-0000-0000-000000000000"),
    );
    assert_eq!(headers, expected);
}

#[test]
fn tracestate_values_that_no_header_can_hold() {
    let env_id = id("11111111-2222-3333-4444-555555555555");
    assert_eq!(
        environment_tracestate(Some(&[0xff]), env_id),
        Ok("\u{fffd},lapdev-env-id=11111111-2222-3333-4444-555555555555".to_string())
    );
    assert_eq!(
        environment_tracestate(Some(b"a\x7fb=1"), env_id),
        Err("failed to parse header value".to_string())
    );
}

#[test]
fn the_environment_of_a_request_reads_back() {
    let env_id = id("11111111-2222-3333-4444-555555555555");
    let value = set_environment(Some("a=1,lapdev-env-id=nobody"), env_id);
    assert_eq!(
        value,
        "a=1,lapdev-env-id=11111111-2222-3333-4444-555555555555"
    );
    assert_eq!(
        environment_of_request(&headers(&[("TraceState", &value)])),
        Some(env_id)
    );
    assert_eq!(
        environment_of_request(&headers(&[("tracestate", "lapdev-env-id=nobody")])),
        None
    );
    assert_eq!(environment_of_request(&headers(&[("host", "x")])), None);
}

#[test]
fn test_proxy_error_types() {
    let invalid_url_error = ProxyError::InvalidUrl("test".to_string());
    let not_found_error = ProxyError::NotFound("test".to_string());
    let forbidden_error = ProxyError::Forbidden("test".to_string());
    let tunnel_error = ProxyError::TunnelNotAvailable("test".to_string());
    let timeout_error = ProxyError::Timeout("test".to_string());
    let network_error = ProxyError::NetworkError("test".to_string());
    let internal_error = ProxyError::Internal("test".to_string());

    // Test that all error variants can be created and displayed
    assert!(invalid_url_error.message().contains("Invalid URL"));
    assert!(not_found_error.message().contains("Not found"));
    assert!(forbidden_error.message().contains("Forbidden"));
    assert!(tunnel_error.message().contains("Tunnel not available"));
    assert!(timeout_error.message().contains("Timeout"));
    assert!(network_error.message().contains("Network error"));
    assert!(internal_error.message().contains("Internal error"));
}

#[test]
fn test_shared_http_parser_integration() {
    // Test shared HTTP parser to ensure it works as expected
    let request_data = b"GET /path HTTP/1.1\r\nHost: webapp-8080-abc123.example.com\r\nContent-Length: 13\r\n\r\nHello, world!";

    let (parsed_request, body_start) = parse_http_request_from_buffer(request_data).unwrap();

    assert_eq!(parsed_request.method, "GET");
    assert_eq!(parsed_request.path, "/path");

    // Find Host header using shared utility
    let host_header = get_host_header(&parsed_request.headers);
    assert!(host_header.is_some());
    assert_eq!(host_header.unwrap(), "webapp-8080-abc123.example.com");

    // Find Content-Length header using shared utility
    let content_length = get_content_length(&parsed_request.headers);
    assert_eq!(content_length, Some(13));

    // Verify body parsing
    let body = &request_data[body_start..];
    assert_eq!(body, b"Hello, world!");
}

#[test]
fn test_map_tunnel_connect_error_remote_maps_to_timeout() {
    let err = TunnelError::Remote("connection refused".to_string());
    match PreviewUrlProxy::map_tunnel_connect_error(err) {
        ProxyError::Timeout(message) => {
            assert!(message.contains("connection error"));
        }
        other => panic!("expected timeout error, got {other:?}"),
    }
}

fn io_error(kind: IoKind, text: &str) -> IoError {
    IoError {
        kind,
        text: text.to_string(),
        cause: IoCause::Plain,
    }
}

#[test]
fn test_map_tunnel_connect_error_transport_connection_refused() {
    let err = TunnelError::Transport(io_error(IoKind::ConnectionRefused, "refused"));
    match PreviewUrlProxy::map_tunnel_connect_error(err) {
        ProxyError::Timeout(message) => {
            assert!(message.contains("Transport error"));
        }
        other => panic!("expected timeout error, got {other:?}"),
    }
}

#[test]
fn test_map_tunnel_runtime_error_remote_reason() {
    let io_err = TunnelError::Remote("devbox offline".into()).into_io_error();
    match PreviewUrlProxy::map_tunnel_runtime_error(io_err) {
        ProxyError::Timeout(message) => {
            assert!(message.contains("devbox offline"));
        }
        other => panic!("expected timeout proxy error, got {other:?}"),
    }
}

#[test]
fn other_tunnel_failures_are_network_errors() {
    let other = TunnelError::Transport(io_error(IoKind::Other, "odd"));
    assert!(matches!(
        PreviewUrlProxy::map_tunnel_connect_error(other),
        ProxyError::NetworkError(m) if m == "Transport error while opening tunnel: odd"
    ));
    assert!(matches!(
        PreviewUrlProxy::map_tunnel_connect_error(TunnelError::ConnectionClosed),
        ProxyError::NetworkError(_)
    ));
    assert!(matches!(
        PreviewUrlProxy::map_tunnel_runtime_error(TunnelError::ConnectionClosed.into_io_error()),
        ProxyError::TunnelNotAvailable(_)
    ));
    assert!(matches!(
        PreviewUrlProxy::map_tunnel_runtime_error(io_error(IoKind::Other, "odd")),
        ProxyError::NetworkError(m) if m == "Tunnel proxying failed: odd"
    ));
}

#[test]
fn test_parse_preview_url_simple() {
    let result = PreviewUrlResolver::parse_preview_url("8080-webapp-abc123");
    assert!(result.is_ok());
    let info = result.unwrap();
    assert_eq!(info.service_name, "webapp");
    assert_eq!(info.port, 8080);
    assert_eq!(info.environment_hash, "abc123");
}

#[test]
fn test_parse_preview_url_multi_part_service() {
    let result = PreviewUrlResolver::parse_preview_url("8080-my-web-app-abc123");
    assert!(result.is_ok());
    let info = result.unwrap();
    assert_eq!(info.service_name, "my-web-app");
    assert_eq!(info.port, 8080);
    assert_eq!(info.environment_hash, "abc123");
}

#[test]
fn test_parse_preview_url_invalid_format() {
    let result = PreviewUrlResolver::parse_preview_url("8080-webapp");
    assert!(matches!(result, Err(PreviewUrlError::InvalidFormat)));
}

#[test]
fn test_parse_preview_url_invalid_port() {
    let result = PreviewUrlResolver::parse_preview_url("abc-webapp-xyz123");
    assert!(matches!(result, Err(PreviewUrlError::InvalidPort)));
}

fn info() -> PreviewUrlInfo {
    PreviewUrlResolver::parse_preview_url("8080-web-hash").unwrap()
}

fn environment() -> EnvironmentRecord {
    EnvironmentRecord {
        id: 1,
        cluster_id: 2,
        namespace: "ns".to_string(),
        organization_id: 3,
    }
}

fn service() -> ServiceRecord {
    ServiceRecord {
        id: 4,
        name: "web-svc".to_string(),
    }
}

fn link(access_level: Option<PreviewUrlAccessLevel>) -> PreviewUrlRecord {
    PreviewUrlRecord {
        id: 5,
        access_level,
        protocol: "HTTP".to_string(),
    }
}

#[test]
fn links_resolve_where_everything_is_there() {
    let resolve = PreviewUrlResolver::resolve_preview_url;
    assert!(matches!(
        resolve(info(), None, None, None),
        Err(PreviewUrlError::EnvironmentNotFound)
    ));
    assert!(matches!(
        resolve(info(), Some(environment()), None, None),
        Err(PreviewUrlError::ServiceNotFound)
    ));
    assert!(matches!(
        resolve(info(), Some(environment()), Some(service()), None),
        Err(PreviewUrlError::PreviewUrlNotConfigured)
    ));
    assert!(matches!(
        resolve(info(), Some(environment()), Some(service()), Some(link(None))),
        Err(PreviewUrlError::AccessDenied)
    ));
    let public = Some(PreviewUrlAccessLevel::Public);
    let target = resolve(info(), Some(environment()), Some(service()), Some(link(public))).unwrap();
    assert_eq!(target.service_name, "web-svc");
    assert_eq!(target.service_port, 8080);
    assert_eq!(target.cluster_id, 2);
    assert_eq!(target.preview_url_id, 5);
}

#[test]
fn link_errors_have_texts() {
    assert_eq!(
        PreviewUrlError::Database("down".to_string()).message(),
        "Database error: down"
    );
    assert_eq!(
        PreviewUrlError::SeaOrm("down".to_string()).message(),
        "SeaORM error: down"
    );
    assert!(matches!(
        parse_link("x"),
        Err(ProxyError::InvalidUrl(m))
            if m == "Preview links must follow the pattern <port>-<service>-<hash>."
    ));
    assert!(matches!(
        parse_link("x-y-z"),
        Err(ProxyError::InvalidUrl(m))
            if m == "The preview link starts with an invalid port number."
    ));
    assert!(matches!(
        link_error(&PreviewUrlError::AccessDenied),
        ProxyError::InvalidUrl(m) if m.ends_with("Access denied")
    ));
    let resolve = |e: PreviewUrlError| resolve_error(&e, "web", 80, "80-web-h");
    assert!(matches!(
        resolve(PreviewUrlError::EnvironmentNotFound),
        ProxyError::NotFound(m) if m.contains("service `web` on port 80 (preview link `80-web-h`)")
    ));
    assert!(matches!(
        resolve(PreviewUrlError::ServiceNotFound),
        ProxyError::NotFound(m) if m.contains("expose service `web` on port 80.")
    ));
    assert!(matches!(
        resolve(PreviewUrlError::PreviewUrlNotConfigured),
        ProxyError::NotFound(_)
    ));
    assert!(matches!(
        resolve(PreviewUrlError::AccessDenied),
        ProxyError::Forbidden(_)
    ));
    assert!(matches!(
        resolve(PreviewUrlError::Database("x".to_string())),
        ProxyError::Internal(m) if m == "Database error: x"
    ));
}

#[test]
fn error_pages_name_the_status() {
    assert_eq!(
        error_page(404, "<p>é</p>"),
        "HTTP/1.1 404 Not Found\r\nContent-Type: text/html; charset=utf-8\r\nContent-Length: 9\r\nConnection: close\r\n\r\n<p>é</p>"
    );
    assert!(error_page(799, "").starts_with("HTTP/1.1 799 Unknown\r\n"));
    assert!(error_page(99, "").starts_with("HTTP/1.1 99 Unknown\r\n"));
}

#[test]
fn inner_failures_are_not_shown() {
    let first = respond_with_proxy_error(&ProxyError::Internal("secret".to_string()));
    let second = respond_with_proxy_error(&ProxyError::Internal("other".to_string()));
    assert_eq!(first, second);
    assert_eq!(first.0, 500);
    let named = respond_with_proxy_error(&ProxyError::NotFound("no such link".to_string()));
    assert_eq!(named, (404, "no such link".to_string()));
    let silent = respond_with_proxy_error(&ProxyError::Timeout(String::new()));
    assert_eq!(silent.0, 504);
    assert!(silent.1.starts_with("The preview environment took too long"));
    let statuses = [
        (ProxyError::InvalidUrl("m".to_string()), 400),
        (ProxyError::Forbidden("m".to_string()), 403),
        (ProxyError::TunnelNotAvailable("m".to_string()), 503),
        (ProxyError::NetworkError("m".to_string()), 502),
    ];
    for (error, status) in statuses {
        assert_eq!(error.into_response(), (status, "m".to_string()));
    }
}

#[test]
fn the_first_request_names_the_link() {
    match begin_preview(b"GET / HTTP/1.1\r\nHost: 80-web-h.app.example.com\r\n\r\n") {
        PreviewStep::Resolve {
            subdomain,
            request,
            headers_len,
        } => {
            assert_eq!(subdomain, "80-web-h");
            assert_eq!(request.path, "/");
            assert_eq!(headers_len, 50);
        }
        other => panic!("unexpected step {other:?}"),
    }
    assert!(matches!(
        begin_preview(b"GET / HTTP/1.1\r\n\r\n"),
        PreviewStep::Drop(ProxyError::InvalidUrl(_))
    ));
    assert!(matches!(
        begin_preview(b"\x01\x02\r\n\r\n"),
        PreviewStep::Refuse { status: 400, .. }
    ));
    assert!(matches!(
        after_read_error(&HeaderReadError::TooLarge),
        PreviewStep::Refuse { status: 413, .. }
    ));
    assert!(matches!(
        after_read_error(&HeaderReadError::UnexpectedEof),
        PreviewStep::Refuse { status: 400, .. }
    ));
}

#[test]
fn cookies_open_previews_of_organizations() {
    let with_cookie = headers(&[("Cookie", "a=1; token=abc=; token=later")]);
    assert_eq!(
        extract_cookie_value(&with_cookie, "token"),
        Some("abc=".to_string())
    );
    assert_eq!(extract_cookie_value(&with_cookie, "b"), None);
    let level = PreviewUrlAccessLevel::Organization;
    assert!(matches!(
        authorize_request(&with_cookie, level, "token"),
        AccessStep::CheckToken { token } if token == "abc="
    ));
    assert!(matches!(
        authorize_request(&headers(&[]), level, "token"),
        AccessStep::Denied(ProxyError::Forbidden(_))
    ));
    assert!(matches!(
        authorize_request(&headers(&[]), PreviewUrlAccessLevel::Public, "token"),
        AccessStep::Allowed
    ));
}

#[test]
fn tokens_name_their_user() {
    let user = "11111111-2222-3333-4444-555555555555";
    let bytes = [7u8; 32];
    let key = pasetors::keys::SymmetricKey::<pasetors::version4::V4>::from(&bytes).unwrap();
    let mut claims = pasetors::claims::Claims::new().unwrap();
    claims
        .add_additional("user_id", serde_json::Value::String(user.to_string()))
        .unwrap();
    let token = pasetors::local::encrypt(&key, &claims, None, None).unwrap();
    assert_eq!(user_id_from_token(&bytes, &token).unwrap(), id(user));
    assert!(user_id_from_token(&[8u8; 32], &token).is_err());
    assert!(user_id_from_token(&bytes[..31], &token).is_err());
    assert!(matches!(
        user_id_from_token(&bytes, "nonsense"),
        Err(ProxyError::Forbidden(_))
    ));
    let named = Json::Text(user.to_string());
    assert_eq!(user_id_from_claim(Some(&named)).unwrap(), id(user));
    assert!(user_id_from_claim(Some(&Json::Text("me".to_string()))).is_err());
    assert!(user_id_from_claim(Some(&Json::Null)).is_err());
    assert!(user_id_from_claim(None).is_err());
}

#[test]
fn members_only() {
    assert!(membership(None).is_ok());
    assert!(matches!(
        membership(Some("oh: no organization member found here")),
        Err(ProxyError::Forbidden(_))
    ));
    assert!(matches!(
        membership(Some("database is down")),
        Err(ProxyError::Internal(m)) if m == "Failed to verify organization membership"
    ));
}

#[test]
fn services_are_reached_by_name() {
    assert_eq!(
        tunnel_target(TunnelAvailability::Open, "web", "ns").unwrap(),
        "web.ns.svc"
    );
    for missing in [TunnelAvailability::Missing, TunnelAvailability::Closed] {
        assert!(matches!(
            tunnel_target(missing, "web", "ns"),
            Err(ProxyError::TunnelNotAvailable(_))
        ));
    }
}

#[test]
fn silent_services_are_explained() {
    assert!(matches!(
        PreviewUrlProxy::after_first_read(Ok(5), None),
        FirstRead::Forward(5)
    ));
    assert!(matches!(
        PreviewUrlProxy::after_first_read(Ok(0), Some("hint".to_string())),
        FirstRead::Failed(ProxyError::Timeout(m)) if m == "hint"
    ));
    assert!(matches!(
        PreviewUrlProxy::after_first_read(Ok(0), None),
        FirstRead::Failed(ProxyError::Timeout(m)) if m == "Target service did not produce a response"
    ));
    assert!(matches!(
        PreviewUrlProxy::after_first_read(Err(io_error(IoKind::Other, "x")), None),
        FirstRead::Failed(ProxyError::NetworkError(_))
    ));
    assert!(matches!(
        PreviewUrlProxy::request_write_error("x"),
        ProxyError::NetworkError(m) if m == "Failed to send initial request through tunnel: x"
    ));
    assert!(matches!(
        PreviewUrlProxy::response_write_error("x"),
        ProxyError::NetworkError(m) if m == "Failed to send initial response chunk to client: x"
    ));
    let parts = [
        (PagePart::StatusLine, "Failed to write status line: x"),
        (PagePart::Headers, "Failed to write headers: x"),
        (PagePart::Body, "Failed to write body: x"),
        (PagePart::Flush, "Failed to flush response: x"),
    ];
    for (part, expected) in parts {
        assert!(matches!(
            PreviewUrlProxy::page_write_error(part, "x"),
            ProxyError::Internal(m) if m == expected
        ));
    }
    assert!(matches!(
        PreviewUrlProxy::bind_error("0.0.0.0:80", "in use"),
        ProxyError::Internal(m) if m == "Failed to bind to 0.0.0.0:80: in use"
    ));
}

#[test]
fn intercepts_are_found_by_port() {
    let mapping = |workload_port: u16, local_port: u16| DevboxPortMapping {
        workload_port,
        local_port,
    };
    let intercepts = vec![
        None,
        Some(vec![mapping(80, 3000)]),
        Some(vec![mapping(81, 3001), mapping(80, 3002)]),
    ];
    assert_eq!(find_intercept(&intercepts, 80), Some((1, 3000)));
    assert_eq!(find_intercept(&intercepts, 81), Some((2, 3001)));
    assert_eq!(find_intercept(&intercepts, 82), None);
}

#[test]
fn intercept_hints_say_who_and_since_when() {
    let user = id("11111111-2222-3333-4444-555555555555");
    assert_eq!(user_label(Some("Ada"), Some("a@b"), user), "Ada");
    assert_eq!(user_label(Some(""), Some("a@b"), user), "a@b");
    assert_eq!(
        user_label(None, None, user),
        "user 11111111-2222-3333-4444-555555555555"
    );
    assert_eq!(
        active_since(1_700_000_000),
        Some("2023-11-14 22:13:20 UTC".to_string())
    );
    assert_eq!(active_since(i64::MAX), None);
    assert_eq!(
        intercept_hint("web", 80, "Ada", None, "now", 3000),
        "Service `web` port 80 is intercepted by Ada on workload `this workload` (active since now). Lapdev routed this preview through their local port 3000 but it didn’t respond."
    );
}

#[test]
fn requests_name_their_environment() {
    let env_id = id("11111111-2222-3333-4444-555555555555");
    let entry = "lapdev-env-id=11111111-2222-3333-4444-555555555555";
    let plain = b"GET / HTTP/1.1\r\nHost: x\r\n\r\nbody";
    assert_eq!(
        add_environment_id_to_headers(plain, plain.len() - 4, env_id).unwrap(),
        format!("GET / HTTP/1.1\r\nHost: x\r\ntracestate: {entry}\r\n\r\nbody").into_bytes()
    );
    let traced = b"GET / HTTP/1.1\r\nTraceState:  a=1 \r\n\r\n";
    assert_eq!(
        add_environment_id_to_headers(traced, traced.len(), env_id).unwrap(),
        format!("GET / HTTP/1.1\r\ntracestate: a=1,{entry}\r\n\r\n").into_bytes()
    );
    assert!(matches!(
        add_environment_id_to_headers(b"\xff\r\n\r\n", 5, env_id),
        Err(ProxyError::Internal(m))
            if m == "Invalid UTF-8 in headers: invalid utf-8 sequence of 1 bytes from index 0"
    ));
}
