use lapdev_kube::cluster_resources::{
    add_labels, after_delete, apply_action, calculate_cluster_resources, cluster_info, resources_fit,
    deletion_step, deletion_timeout, detect_manager_namespace, detect_provider_and_region,
    detect_provider_from_instance_type, detect_provider_from_labels,
    detect_provider_from_provider_id, manifest_name, namespace_info, namespaced_resources,
    parse_cpu_resource, parse_memory_resource, prepare_manifest, sort_namespaces, ApplyAction,
    DeleteOutcome, DeletionStep, KubeClusterStatus, NodeInfo, Provider,
};
use lapdev_kube::cluster_server::apply_steps;
use lapdev_kube::json::{json_eq, text_in, texts_in, yaml_member, Json};
use lapdev_kube::kube_rpc::{KubeWorkloadYamlOnly, KubeWorkloadsWithResources};
use lapdev_kube::manifests::{
    parse_manifest_yaml, prepare_manifest_yaml, step_manifest, ManifestKind,
};
use lapdev_kube::text_map::TextMap;

/// Reads a whole YAML document.
fn parse_yaml(yaml: &str) -> Result<Json, String> {
    let nested: Vec<String> = yaml.lines().map(|line| format!("  {}\n", line)).collect();
    let member = yaml_member(&format!("document:\n{}", nested.concat()), "document")?;
    Ok(member.unwrap_or(Json::Null))
}

fn create_quantity(value: &str) -> &str {
    value
}

fn texts(pairs: &[(&str, &str)]) -> TextMap<String> {
    let mut map = TextMap::new();
    for (key, value) in pairs {
        map.insert(key.to_string(), value.to_string());
    }
    map
}

#[test]
fn test_parse_cpu_resource_millicores() {
    // Test millicores format
    let cpu_1000m = create_quantity("1000m");
    assert_eq!(parse_cpu_resource(Some(cpu_1000m)), 1000);

    let cpu_500m = create_quantity("500m");
    assert_eq!(parse_cpu_resource(Some(cpu_500m)), 500);

    let cpu_2500m = create_quantity("2500m");
    assert_eq!(parse_cpu_resource(Some(cpu_2500m)), 2500);
}

#[test]
fn test_parse_cpu_resource_cores() {
    // Test cores format (should be converted to millicores)
    let cpu_1 = create_quantity("1");
    assert_eq!(parse_cpu_resource(Some(cpu_1)), 1000);

    let cpu_2 = create_quantity("2");
    assert_eq!(parse_cpu_resource(Some(cpu_2)), 2000);

    let cpu_4 = create_quantity("4");
    assert_eq!(parse_cpu_resource(Some(cpu_4)), 4000);
}

#[test]
fn test_parse_cpu_resource_edge_cases() {
    // Test None
    assert_eq!(parse_cpu_resource(None), 0);

    // Test invalid format
    let invalid_cpu = create_quantity("invalid");
    assert_eq!(parse_cpu_resource(Some(invalid_cpu)), 0);

    // Test empty string
    let empty_cpu = create_quantity("");
    assert_eq!(parse_cpu_resource(Some(empty_cpu)), 0);

    // Test zero values
    let zero_cpu = create_quantity("0");
    assert_eq!(parse_cpu_resource(Some(zero_cpu)), 0);

    let zero_cpu_m = create_quantity("0m");
    assert_eq!(parse_cpu_resource(Some(zero_cpu_m)), 0);
}

#[test]
fn test_parse_memory_resource_kibibytes() {
    // Test Ki format
    let mem_1024ki = create_quantity("1024Ki");
    assert_eq!(
        parse_memory_resource(Some(mem_1024ki)),
        1024 * 1024
    );

    let mem_2048ki = create_quantity("2048Ki");
    assert_eq!(
        parse_memory_resource(Some(mem_2048ki)),
        2048 * 1024
    );

    let mem_512ki = create_quantity("512Ki");
    assert_eq!(
        parse_memory_resource(Some(mem_512ki)),
        512 * 1024
    );
}

#[test]
fn test_parse_memory_resource_mebibytes() {
    // Test Mi format
    let mem_1mi = create_quantity("1Mi");
    assert_eq!(
        parse_memory_resource(Some(mem_1mi)),
        1024 * 1024
    );

    let mem_256mi = create_quantity("256Mi");
    assert_eq!(
        parse_memory_resource(Some(mem_256mi)),
        256 * 1024 * 1024
    );

    let mem_512mi = create_quantity("512Mi");
    assert_eq!(
        parse_memory_resource(Some(mem_512mi)),
        512 * 1024 * 1024
    );
}

#[test]
fn test_parse_memory_resource_gibibytes() {
    // Test Gi format
    let mem_1gi = create_quantity("1Gi");
    assert_eq!(
        parse_memory_resource(Some(mem_1gi)),
        1024 * 1024 * 1024
    );

    let mem_2gi = create_quantity("2Gi");
    assert_eq!(
        parse_memory_resource(Some(mem_2gi)),
        2 * 1024 * 1024 * 1024
    );

    let mem_8gi = create_quantity("8Gi");
    assert_eq!(
        parse_memory_resource(Some(mem_8gi)),
        8 * 1024 * 1024 * 1024
    );
}

#[test]
fn test_parse_memory_resource_edge_cases() {
    // Test None
    assert_eq!(parse_memory_resource(None), 0);

    // Test unsupported format (should return 0)
    let unsupported_mem = create_quantity("100bytes");
    assert_eq!(
        parse_memory_resource(Some(unsupported_mem)),
        0
    );

    // Test invalid format
    let invalid_mem = create_quantity("invalid");
    assert_eq!(parse_memory_resource(Some(invalid_mem)), 0);

    // Test empty string
    let empty_mem = create_quantity("");
    assert_eq!(parse_memory_resource(Some(empty_mem)), 0);

    // Test zero values
    let zero_mem_ki = create_quantity("0Ki");
    assert_eq!(parse_memory_resource(Some(zero_mem_ki)), 0);

    let zero_mem_mi = create_quantity("0Mi");
    assert_eq!(parse_memory_resource(Some(zero_mem_mi)), 0);

    let zero_mem_gi = create_quantity("0Gi");
    assert_eq!(parse_memory_resource(Some(zero_mem_gi)), 0);
}

#[test]
fn test_parse_memory_resource_large_values() {
    // Test large realistic values
    let mem_7922180ki = create_quantity("7922180Ki");
    assert_eq!(
        parse_memory_resource(Some(mem_7922180ki)),
        7922180 * 1024
    );

    let mem_16gi = create_quantity("16Gi");
    assert_eq!(
        parse_memory_resource(Some(mem_16gi)),
        16 * 1024 * 1024 * 1024
    );

    let mem_32768mi = create_quantity("32768Mi");
    assert_eq!(
        parse_memory_resource(Some(mem_32768mi)),
        32768 * 1024 * 1024
    );
}

#[test]
fn test_parse_resources_real_world_examples() {
    // Common GKE node CPU allocations
    let gke_cpu_1 = create_quantity("940m");
    assert_eq!(parse_cpu_resource(Some(gke_cpu_1)), 940);

    let gke_cpu_2 = create_quantity("1930m");
    assert_eq!(parse_cpu_resource(Some(gke_cpu_2)), 1930);

    // Common GKE node memory allocations
    let gke_mem_1 = create_quantity("2702988Ki");
    assert_eq!(
        parse_memory_resource(Some(gke_mem_1)),
        2702988 * 1024
    );

    let gke_mem_2 = create_quantity("6601900Ki");
    assert_eq!(
        parse_memory_resource(Some(gke_mem_2)),
        6601900 * 1024
    );

    // AWS EKS examples
    let eks_cpu = create_quantity("1930m");
    assert_eq!(parse_cpu_resource(Some(eks_cpu)), 1930);

    let eks_mem = create_quantity("3843684Ki");
    assert_eq!(
        parse_memory_resource(Some(eks_mem)),
        3843684 * 1024
    );
}

#[test]
fn quantities_beyond_the_numbers_are_nothing() {
    assert_eq!(parse_cpu_resource(Some("-1")), -1000);
    assert_eq!(parse_cpu_resource(Some("1.5")), 0);
    assert_eq!(parse_cpu_resource(Some("99999999999999999999")), 0);
    assert_eq!(parse_memory_resource(Some("128974848")), 0);
    assert_eq!(parse_memory_resource(Some("1Ti")), 0);
}

fn node(cpu: &str, memory: &str, provider_id: Option<&str>, labels: &[(&str, &str)]) -> NodeInfo {
    NodeInfo {
        provider_id: provider_id.map(|p| p.to_string()),
        labels: Some(texts(labels)),
        allocatable: Some(texts(&[("cpu", cpu), ("memory", memory)])),
    }
}

#[test]
fn cluster_resources_are_summed_over_nodes() {
    let bare = NodeInfo {
        provider_id: None,
        labels: None,
        allocatable: None,
    };
    let nodes = vec![
        node("940m", "2702988Ki", None, &[]),
        bare,
        node("2", "1Gi", None, &[]),
    ];
    assert_eq!(
        calculate_cluster_resources(&nodes),
        (2940, 2702988 * 1024 + 1024 * 1024 * 1024)
    );
    assert!(resources_fit(&nodes));
    assert!(resources_fit(&vec![node("9223372036854775807m", "1Ki", None, &[])]));
    assert!(!resources_fit(&vec![node("9223372036854775807", "1Ki", None, &[])]));
    assert!(!resources_fit(&vec![node("1", "9223372036854775807Gi", None, &[])]));
    let halves = vec![
        node("9223372036854775807m", "1Ki", None, &[]),
        node("1m", "1Ki", None, &[]),
    ];
    assert!(!resources_fit(&halves));
}

#[test]
fn providers_are_read_from_ids_types_and_labels() {
    assert_eq!(
        detect_provider_from_provider_id("aws:///eu-west-1a/i-0123"),
        Some(Provider::Aws)
    );
    assert_eq!(
        detect_provider_from_provider_id("gce://project/zone/node"),
        Some(Provider::Gcp)
    );
    assert_eq!(
        detect_provider_from_provider_id("azure:///subscriptions/x"),
        Some(Provider::Azure)
    );
    assert_eq!(detect_provider_from_provider_id("kind://node"), None);
    assert_eq!(
        detect_provider_from_instance_type("m5.large"),
        Some(Provider::Aws)
    );
    assert_eq!(
        detect_provider_from_instance_type("n1-standard-4"),
        Some(Provider::Gcp)
    );
    assert_eq!(
        detect_provider_from_instance_type("Standard_D2"),
        Some(Provider::Azure)
    );
    assert_eq!(detect_provider_from_instance_type("unknown"), None);
    assert_eq!(detect_provider_from_labels(&texts(&[("a", "b")])), None);
    let nodes = vec![
        node("1", "1Gi", None, &[]),
        node(
            "1",
            "1Gi",
            Some("aws:///eu-west-1a/i-0123"),
            &[("topology.kubernetes.io/region", "eu-west-1")],
        ),
    ];
    assert_eq!(
        detect_provider_and_region(&nodes),
        (Some(Provider::Aws), Some("eu-west-1".to_string()))
    );
}

#[test]
fn cluster_info_prefers_what_is_detected() {
    let nodes = vec![node("1500m", "2048Mi", Some("gce://p/z/n"), &[])];
    let info = cluster_info("1", "33", &nodes, None, Some("here".to_string()), None);
    assert_eq!(info.cluster_version, "1.33");
    assert_eq!(info.node_count, 1);
    assert_eq!(info.provider, Some("GCP".to_string()));
    assert_eq!(info.region, Some("here".to_string()));
    assert_eq!(info.manager_namespace, None);
    assert_eq!(info.status, KubeClusterStatus::Ready);
    assert_eq!(info.available_cpu, "1500m");
    assert_eq!(info.available_memory, "2147483648bytes");
    let named = cluster_info("1", "33", &nodes, Some("mine".to_string()), None, None);
    assert_eq!(named.provider, Some("GCP".to_string()));
    let plain = vec![node("1", "1Gi", None, &[])];
    let named = cluster_info("1", "33", &plain, Some("mine".to_string()), None, None);
    assert_eq!(named.provider, Some("mine".to_string()));
}

#[test]
fn the_manager_namespace_is_trimmed() {
    assert_eq!(
        detect_manager_namespace(Some(" lapdev "), Some("other")),
        Some("lapdev".to_string())
    );
    assert_eq!(
        detect_manager_namespace(Some("  "), Some("other\n")),
        Some("other".to_string())
    );
    assert_eq!(detect_manager_namespace(None, Some(" ")), None);
}

#[test]
fn namespaces_are_sorted_by_name() {
    let named = |name: &str| namespace_info(Some(name.to_string()), None, None);
    let sorted = sort_namespaces(vec![named("web"), named("api"), named("db")]);
    let names: Vec<&str> = sorted.iter().map(|n| n.name.as_str()).collect();
    assert_eq!(names, ["api", "db", "web"]);
    assert_eq!(sorted[0].status, "Unknown");
    assert_eq!(namespace_info(None, None, None).name, "");
}

#[test]
fn extra_labels_replace_labels() {
    let mut labels = texts(&[("app", "web"), ("tier", "front")]);
    add_labels(&mut labels, &texts(&[("tier", "back"), ("env", "x")]));
    assert_eq!(labels.get("app"), Some(&"web".to_string()));
    assert_eq!(labels.get("tier"), Some(&"back".to_string()));
    assert_eq!(labels.get("env"), Some(&"x".to_string()));
}

#[test]
fn resources_are_created_or_replaced() {
    assert_eq!(apply_action(true), ApplyAction::Replace);
    assert_eq!(apply_action(false), ApplyAction::Create);
}

#[test]
fn namespaces_have_a_minute_to_go() {
    assert_eq!(deletion_step(false, 100), DeletionStep::Done);
    assert_eq!(deletion_step(true, 59), DeletionStep::Wait);
    assert_eq!(deletion_step(true, 60), DeletionStep::TimedOut);
}

#[test]
fn manifests_are_placed_and_labelled() {
    let doc = parse_yaml(
        "kind: ConfigMap\nmetadata:\n  name: cfg\n  namespace: old\n  labels:\n    a: one\n    b: two\ndata:\n  k: v\n",
    )
    .unwrap();
    let prepared = prepare_manifest(&doc, "ns", &texts(&[("b", "2"), ("c", "3")]));
    let expected = parse_yaml(
        "kind: ConfigMap\ndata:\n  k: v\nmetadata:\n  name: cfg\n  labels:\n    a: one\n    b: \"2\"\n    c: \"3\"\n  namespace: ns\n",
    )
    .unwrap();
    let metadata = prepared.get("metadata").unwrap();
    let wanted = expected.get("metadata").unwrap();
    for key in ["name", "namespace", "labels"] {
        assert!(json_eq(metadata.get(key).unwrap(), wanted.get(key).unwrap()), "{key}");
    }
    for key in ["kind", "data"] {
        assert!(json_eq(prepared.get(key).unwrap(), expected.get(key).unwrap()), "{key}");
    }
    assert_eq!(manifest_name(&prepared), Some("cfg".to_string()));
    let bare = prepare_manifest(&parse_yaml("kind: Pod").unwrap(), "ns", &texts(&[]));
    assert!(bare.get("metadata").unwrap().get("namespace").is_some());
    assert_eq!(manifest_name(&bare), None);
}

#[test]
fn unreadable_resources_are_left_out() {
    let response = namespaced_resources(
        "ns".to_string(),
        vec![
            ("a".to_string(), Some("1".to_string())),
            ("b".to_string(), None),
            ("a".to_string(), Some("2".to_string())),
        ],
        Vec::new(),
    );
    assert_eq!(response.namespace, "ns");
    assert_eq!(response.configmaps.get("a"), Some(&"2".to_string()));
    assert!(!response.configmaps.contains_key("b"));
    assert!(response.secrets.is_empty());
}

#[test]
fn namespaces_are_deleted() {
    assert_eq!(after_delete("ns", &DeleteOutcome::Accepted), Ok(true));
    let refused = |code: u16| DeleteOutcome::Refused {
        code,
        text: "no".to_string(),
    };
    assert_eq!(after_delete("ns", &refused(404)), Ok(false));
    assert_eq!(
        after_delete("ns", &refused(403)),
        Err("Failed to delete namespace 'ns': no".to_string())
    );
    assert_eq!(
        after_delete("ns", &DeleteOutcome::Failed("x".to_string())),
        Err("Failed to delete namespace 'ns': x".to_string())
    );
    assert_eq!(
        deletion_timeout("ns"),
        "Timed out waiting for namespace 'ns' deletion"
    );
}

#[test]
fn manifests_are_read_and_prepared() {
    let labels = texts(&[("env", "e")]);
    let cases = [
        (ManifestKind::ConfigMap, "kind: ConfigMap\ndata:\n  a: b\n"),
        (ManifestKind::Secret, "kind: Secret\nstringData:\n  a: b\n"),
        (ManifestKind::Service, "kind: Service\nspec:\n  type: ClusterIP\n"),
        (ManifestKind::Pod, "kind: Pod\nspec:\n  containers: []\n"),
    ];
    for (kind, body) in cases {
        let yaml = format!(
            "apiVersion: v1\nmetadata:\n  name: x\n  namespace: old\n  labels:\n    own: o\n{body}"
        );
        let prepared = prepare_manifest_yaml(kind, &yaml, "ns", &labels).unwrap();
        assert_eq!(manifest_name(&prepared), Some("x".to_string()));
        let metadata = prepared.get("metadata").unwrap();
        assert_eq!(text_in(metadata.get("namespace")), Some("ns".to_string()));
        let all = texts_in(metadata.get("labels"));
        assert_eq!(all.get("own"), Some(&"o".to_string()));
        assert_eq!(all.get("env"), Some(&"e".to_string()));
    }
    let config_map = parse_manifest_yaml(ManifestKind::ConfigMap, "data:\n  a: b\n").unwrap();
    assert_eq!(texts_in(config_map.get("data")).get("a"), Some(&"b".to_string()));
    let pod = parse_manifest_yaml(
        ManifestKind::Pod,
        "spec:\n  hostname: h\n  unknown: u\n  containers: []\n",
    )
    .unwrap();
    let section = pod.get("spec").unwrap();
    assert_eq!(text_in(section.get("hostname")), Some("h".to_string()));
    assert!(section.get("unknown").is_none());
    for kind in [
        ManifestKind::ConfigMap,
        ManifestKind::Secret,
        ManifestKind::Service,
        ManifestKind::Deployment,
        ManifestKind::StatefulSet,
        ManifestKind::DaemonSet,
        ManifestKind::ReplicaSet,
        ManifestKind::Pod,
        ManifestKind::Job,
        ManifestKind::CronJob,
    ] {
        assert!(prepare_manifest_yaml(kind, "metadata: [1", "ns", &labels).is_err());
        assert!(prepare_manifest_yaml(kind, "metadata: 7", "ns", &labels).is_err());
    }
}

#[test]
fn steps_lead_to_their_manifests() {
    let resources = KubeWorkloadsWithResources {
        workloads: vec![
            KubeWorkloadYamlOnly::CronJob("cron".to_string()),
            KubeWorkloadYamlOnly::Pod("pod".to_string()),
        ],
        services: TextMap::new(),
        configmaps: texts(&[("c", "config")]),
        secrets: texts(&[("s", "secret")]),
    };
    let manifests: Vec<(ManifestKind, &str)> = apply_steps(&resources)
        .into_iter()
        .map(|step| step_manifest(&resources, step))
        .collect();
    assert_eq!(
        manifests,
        vec![
            (ManifestKind::ConfigMap, "config"),
            (ManifestKind::Secret, "secret"),
            (ManifestKind::CronJob, "cron"),
            (ManifestKind::Pod, "pod"),
        ]
    );
}

#[test]
fn equal_amounts_read_alike() {
    assert_eq!(parse_memory_resource(Some("3Gi")), parse_memory_resource(Some("3072Mi")));
    assert_eq!(parse_memory_resource(Some("3Gi")), parse_memory_resource(Some("3145728Ki")));
    assert_eq!(parse_memory_resource(Some("-1Mi")), parse_memory_resource(Some("-1024Ki")));
    assert_eq!(parse_cpu_resource(Some("2")), parse_cpu_resource(Some("2000m")));
}
