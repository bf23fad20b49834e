use lapdev_kube::otel_routing::{
    determine_routing_target, extract_routing_context, RoutingContext, RoutingTarget, TraceContext,
};
use lapdev_kube::text_map::TextMap;

fn create_test_headers(headers: &[(&str, &str)]) -> Vec<(String, String)> {
    headers
        .iter()
        .map(|(name, value)| (name.to_string(), value.to_string()))
        .collect()
}

#[test]
fn test_extract_trace_context() {
    let headers = create_test_headers(&[
        (
            "traceparent",
            "00-4bf92f3577b34da6a3ce929d0e0e4736-00f067aa0ba902b7-01",
        ),
        ("baggage", "userId=alice,serverNode=DF28"),
    ]);

    let context = extract_routing_context(&headers);

    assert_eq!(
        context.trace_context.trace_id,
        Some("4bf92f3577b34da6a3ce929d0e0e4736".to_string())
    );
    assert_eq!(
        context.trace_context.span_id,
        Some("00f067aa0ba902b7".to_string())
    );
    assert_eq!(
        context.trace_context.baggage.get("userId"),
        Some(&"alice".to_string())
    );
}

#[test]
fn test_custom_routing_headers() {
    let headers = create_test_headers(&[
        ("x-routing-key", "premium-customer"),
        ("x-canary-deployment", "true"),
    ]);

    let context = extract_routing_context(&headers);

    assert_eq!(context.routing_key, Some("premium-customer".to_string()));
    assert_eq!(context.canary_deployment, Some("true".to_string()));
}

#[test]
fn test_routing_target_determination() {
    let context = RoutingContext {
        trace_context: TraceContext {
            trace_id: None,
            span_id: None,
            trace_flags: None,
            trace_state: None,
            baggage: TextMap::new(),
        },
        routing_key: None,
        service_version: None,
        canary_deployment: Some("true".to_string()),
        custom_headers: TextMap::new(),
    };

    let target = determine_routing_target(&context, 8080);

    match target {
        RoutingTarget::Canary { port, weight } => {
            assert_eq!(port, 8080);
            assert_eq!(weight, 10);
        }
        _ => panic!("Expected canary routing"),
    }
}

#[test]
fn baggage_is_trimmed_and_later_pairs_win() {
    let headers = create_test_headers(&[("Baggage", " a = 1 , b=2,novalue, a=3=4 ")]);
    let baggage = extract_routing_context(&headers).trace_context.baggage;
    assert_eq!(baggage.get("a"), Some(&"3=4".to_string()));
    assert_eq!(baggage.get("b"), Some(&"2".to_string()));
    assert!(!baggage.contains_key("novalue"));
}

#[test]
fn custom_headers_keep_their_prefix_case() {
    let headers = create_test_headers(&[("x-routing-zone", "eu"), ("X-Routing-Zone", "us")]);
    let custom = extract_routing_context(&headers).custom_headers;
    assert_eq!(custom.get("x-routing-zone"), Some(&"eu".to_string()));
    assert!(!custom.contains_key("X-Routing-Zone"));
}

#[test]
fn routing_targets_take_precedence_in_order() {
    let all = create_test_headers(&[
        ("x-canary-deployment", "TRUE"),
        ("x-service-version", "v2"),
        ("traceparent", "00-abc0001-span-01"),
        ("x-routing-key", "key"),
    ]);
    let describe = |skip: usize| {
        let target = determine_routing_target(&extract_routing_context(&all[skip..]), 9000);
        assert_eq!(target.get_port(), 9000);
        target.get_metadata()
    };
    assert_eq!(describe(0), "canary(10%)");
    assert_eq!(describe(1), "version(v2)");
    assert_eq!(describe(2), "premium");
    assert_eq!(describe(3), "custom(key)");
    assert_eq!(describe(4), "default");
    let malformed = create_test_headers(&[("traceparent", "00-abc0001-span")]);
    let context = extract_routing_context(&malformed);
    assert_eq!(context.trace_context.trace_id, None);
}
