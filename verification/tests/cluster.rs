use lapdev_kube::change_failures::{service_answer, workload_answer, BumpCause, ChangeFailure};
use lapdev_kube::catalog::CachedClusterService;
use lapdev_kube::catalog_sync::{load_existing_catalog_state, CatalogWorkload, LabelRow, WorkloadFacts};
use lapdev_kube::cluster_events::{
    branch_service_routes, build_branch_service_route_config_from_services, change_handler,
    check_environment, dependency_bumps, environment_lookup, extract_service,
    forgotten_needs_reconcile, handle_service_change, handle_workload_change, needs_reconcile,
    plan_catalog_sync, ready_replicas_update, reconcile_workload_ports, service_ports_json,
    service_selector_json, workload_lookup, ChangeHandler, EnvironmentError, EnvironmentLookup,
    EnvironmentRecord, ServiceChange, TargetPort, WorkloadChange, WorkloadLookup, WorkloadRecord,
};
use lapdev_kube::cluster_resources::{KubeClusterInfo, KubeClusterStatus};
use lapdev_kube::cluster_server::{
    agent_result, agent_settings, apply_steps, check_report, cluster_update, direct_config_for,
    get_devbox_direct_config, port_from_variable, raw_yaml_failure, watch_namespace, AgentCall,
    AgentFailure, ApplyStep, CallOutcome, ClusterServers, DevboxProxyManager,
    RouteRefreshFailure, DEFAULT_DEVBOX_PROXY_MANAGER_PORT, DIRECT_TOKEN_NANOS,
};
use lapdev_kube::collect::{
    continue_collection, has_owner_references, is_system_workload, lookup_order,
    resource_to_workload, start_collection, CollectStep, KubeWorkloadStatus, ListedResource,
    PaginationCursor, PaginationParams,
};
use lapdev_kube::direct_handshake::DirectCredentialStore;
use lapdev_kube::generations::Generations;
use lapdev_kube::json::{json_eq, yaml_member, Json};
use lapdev_kube::kube_rpc::{
    DevboxRouteConfig, KubeServiceWithYaml, KubeWorkloadYamlOnly, KubeWorkloadsWithResources,
    ResourceChangeEvent, ResourceChangeType, ResourceType,
};
use lapdev_kube::kube_types::{KubeServicePort, KubeWorkloadKind};
use lapdev_kube::route_listing::{
    list_branch_service_routes, BranchLookup, RouteListingError, RouteLookups,
};
use lapdev_kube::sidecar_manager::{
    handle_disconnect, DevboxCall, FailedCall, SidecarConnection, SidecarProxyManager,
};
use lapdev_kube::text_map::{TextMap, TextSet};
use lapdev_kube::tunnel_registry::TunnelRegistry;
use lapdev_kube::watch_manager::{
    build_event, next_attempt, should_include_yaml, signalled_change, watched_resource_types,
    WatchEnd, WatchFailure, WatchManager, WatchSignal,
};
use std::collections::HashMap;

/// Reads a whole YAML document.
fn parse_yaml(yaml: &str) -> Result<Json, String> {
    let nested: Vec<String> = yaml.lines().map(|line| format!("  {}\n", line)).collect();
    let member = yaml_member(&format!("document:\n{}", nested.concat()), "document")?;
    Ok(member.unwrap_or(Json::Null))
}

fn texts(pairs: &[(&str, &str)]) -> TextMap<String> {
    let mut map = TextMap::new();
    for (key, value) in pairs {
        map.insert(key.to_string(), value.to_string());
    }
    map
}

const ID: &str = "11111111-2222-3333-4444-555555555555";

fn id() -> u128 {
    uuid::Uuid::parse_str(ID).unwrap().as_u128()
}

fn event(
    resource_type: ResourceType,
    change_type: ResourceChangeType,
    yaml: Option<&str>,
) -> ResourceChangeEvent {
    ResourceChangeEvent {
        namespace: "ns".to_string(),
        resource_type,
        resource_name: "web".to_string(),
        change_type,
        resource_version: "1".to_string(),
        resource_yaml: yaml.map(|y| y.to_string()),
        timestamp: 5,
    }
}

#[test]
fn changes_go_to_their_handlers() {
    assert_eq!(change_handler(ResourceType::Service), ChangeHandler::Service);
    assert_eq!(change_handler(ResourceType::ConfigMap), ChangeHandler::ConfigMap);
    assert_eq!(change_handler(ResourceType::Secret), ChangeHandler::Secret);
    assert_eq!(change_handler(ResourceType::CronJob), ChangeHandler::Workload);
}

const JOB: &str = "apiVersion: batch/v1\nkind: Job\nmetadata:\n  name: web\n  labels:\n    a: b\nspec:\n  template:\n    spec:\n      containers:\n        - name: web\n          image: nginx:1\n";

#[test]
fn workload_changes_are_read() {
    let updated = event(ResourceType::Job, ResourceChangeType::Updated, Some(JOB));
    match handle_workload_change(&updated) {
        WorkloadChange::Sync { kind, workload } => {
            assert_eq!(kind, KubeWorkloadKind::Job);
            assert_eq!(workload.containers[0].original_image, "nginx:1");
        }
        other => panic!("unexpected change {other:?}"),
    }
    let bare = event(ResourceType::Job, ResourceChangeType::Updated, None);
    assert!(matches!(
        handle_workload_change(&bare),
        WorkloadChange::MissingYaml
    ));
    let broken = event(ResourceType::Job, ResourceChangeType::Created, Some("spec: 1"));
    assert!(matches!(
        handle_workload_change(&broken),
        WorkloadChange::Unusable(_)
    ));
    let deleted = event(ResourceType::Job, ResourceChangeType::Deleted, Some(JOB));
    match handle_workload_change(&deleted) {
        WorkloadChange::Forget { metadata_labels } => {
            assert_eq!(metadata_labels.get("a"), Some(&"b".to_string()))
        }
        other => panic!("unexpected change {other:?}"),
    }
}

#[test]
fn service_changes_are_read() {
    let yaml = "apiVersion: v1\nkind: Service\nmetadata:\n  name: web\nspec:\n  selector:\n    app: web\n  type: NodePort\n  clusterIP: 10.0.0.1\n  ports:\n    - name: http\n      port: 80\n      targetPort: web\n      nodePort: 30080\n    - port: 81\n      targetPort: 8081\n";
    let created = event(ResourceType::Service, ResourceChangeType::Created, Some(yaml));
    match handle_service_change(&created) {
        ServiceChange::Remember(service) => {
            assert_eq!(service.selector.get("app"), Some(&"web".to_string()));
            assert_eq!(service.service_type, Some("NodePort".to_string()));
            assert_eq!(service.cluster_ip, Some("10.0.0.1".to_string()));
            assert_eq!(service.ports.len(), 2);
            assert_eq!(service.ports[0].node_port, Some(30080));
            assert!(matches!(&service.ports[0].target_port, Some(TargetPort::Name(n)) if n == "web"));
            assert!(matches!(service.ports[1].target_port, Some(TargetPort::Number(8081))));
        }
        other => panic!("unexpected change {other:?}"),
    }
    assert!(matches!(
        handle_service_change(&event(ResourceType::Service, ResourceChangeType::Deleted, None)),
        ServiceChange::Forget
    ));
    assert!(matches!(
        handle_service_change(&event(ResourceType::Service, ResourceChangeType::Updated, None)),
        ServiceChange::MissingYaml
    ));
    assert!(matches!(
        handle_service_change(&event(ResourceType::Service, ResourceChangeType::Updated, Some("spec: 1"))),
        ServiceChange::Unusable(_)
    ));
}

fn port(number: i32) -> KubeServicePort {
    KubeServicePort {
        name: None,
        port: number,
        target_port: Some(number),
        protocol: None,
        node_port: None,
        original_target_port: None,
    }
}

fn catalog_workload(id: u128, catalog: u128, kind: Option<KubeWorkloadKind>) -> CatalogWorkload {
    CatalogWorkload {
        id,
        app_catalog_id: catalog,
        cluster_id: 9,
        namespace: "ns".to_string(),
        kind,
        containers: Vec::new(),
        containers_canonical: true,
        ports: vec![port(80)],
        ports_canonical: true,
        workload_yaml: JOB.to_string(),
    }
}

#[test]
fn only_workloads_of_the_kind_are_planned() {
    let workloads = vec![
        catalog_workload(1, 10, Some(KubeWorkloadKind::Job)),
        catalog_workload(2, 10, Some(KubeWorkloadKind::Deployment)),
        catalog_workload(3, 11, Some(KubeWorkloadKind::Job)),
    ];
    let labels = texts(&[("app", "web")]);
    let state = load_existing_catalog_state(
        &vec![LabelRow {
            workload_id: 3,
            label_key: "app".to_string(),
            label_value: "web".to_string(),
        }],
        &Vec::new(),
    );
    let ports = vec![port(80)];
    let facts = WorkloadFacts {
        containers: &Vec::new(),
        ports: &ports,
        yaml: JOB,
        spec_snapshot: None,
        labels: &labels,
        configmaps: &TextSet::new(),
        secrets: &TextSet::new(),
    };
    let plan = plan_catalog_sync(KubeWorkloadKind::Job, &workloads, &facts, &state);
    assert_eq!(plan.updates.len(), 3);
    assert!(plan.updates[1].is_none());
    assert!(plan.updates[0].as_ref().unwrap().labels_changed);
    assert!(!plan.updates[2].as_ref().unwrap().labels_changed);
    assert!(plan.bumps.iter().all(|b| !b.workload_ids.contains(&2)));
}

#[test]
fn ports_follow_the_services() {
    let workloads = vec![
        catalog_workload(1, 10, None),
        catalog_workload(2, 10, None),
        catalog_workload(3, 11, None),
    ];
    let mut labels = HashMap::new();
    labels.insert(1, texts(&[("app", "web")]));
    labels.insert(2, texts(&[("app", "web")]));
    let service = |number: i32| CachedClusterService {
        name: "web".to_string(),
        selector: texts(&[("app", "web")]),
        ports: vec![port(number)],
    };
    let services = vec![vec![service(80)], vec![service(81)], vec![service(80)]];
    let plan = reconcile_workload_ports(&workloads, &labels, &services);
    assert!(plan.ports[0].is_none());
    assert_eq!(plan.ports[1].as_ref().unwrap()[0].port, 81);
    assert!(plan.ports[2].as_ref().unwrap().is_empty());
    let bumps: Vec<(u128, Vec<u128>)> = plan
        .bumps
        .into_iter()
        .map(|b| (b.catalog_id, b.workload_ids))
        .collect();
    assert_eq!(bumps, [(10, vec![2]), (11, vec![3])]);
}

#[test]
fn dependents_are_bumped_by_catalog() {
    let bumps = dependency_bumps(&vec![(1, 10), (2, 11), (3, 10)]);
    let flat: Vec<(u128, Vec<u128>)> = bumps
        .into_iter()
        .map(|b| (b.catalog_id, b.workload_ids))
        .collect();
    assert_eq!(flat, [(10, vec![1, 3]), (11, vec![2])]);
}

fn environment(id: u128, cluster_id: u128) -> EnvironmentRecord {
    EnvironmentRecord {
        id,
        cluster_id,
        organization_id: 7,
    }
}

#[test]
fn ready_replicas_find_their_workload() {
    let branch = texts(&[("lapdev.io/branch-environment-id", ID)]);
    assert_eq!(environment_lookup(&branch), EnvironmentLookup::ById(id()));
    let odd = texts(&[("lapdev.io/branch-environment-id", "nobody")]);
    assert_eq!(environment_lookup(&odd), EnvironmentLookup::ByNamespace);
    let by_id = EnvironmentLookup::ById(1);
    assert_eq!(workload_lookup(by_id, 2, None, &odd), WorkloadLookup::Stop);
    let other = Some(environment(1, 3));
    assert_eq!(workload_lookup(by_id, 2, other, &odd), WorkloadLookup::Stop);
    let own = environment(1, 2);
    assert_eq!(
        workload_lookup(by_id, 2, Some(own), &odd),
        WorkloadLookup::ByName { environment: own }
    );
    assert_eq!(
        workload_lookup(by_id, 2, Some(own), &texts(&[("lapdev.base-workload-id", ID)])),
        WorkloadLookup::ByBaseThenName {
            environment: own,
            base_workload_id: id()
        }
    );
    let workload = |ready: Option<i32>| {
        Some(WorkloadRecord {
            id: 4,
            ready_replicas: ready,
        })
    };
    assert_eq!(ready_replicas_update(own, None, Some(1), 5), None);
    assert_eq!(ready_replicas_update(own, workload(Some(1)), Some(1), 5), None);
    let changed = ready_replicas_update(own, workload(Some(1)), Some(2), 5).unwrap();
    assert_eq!(changed.workload_id, 4);
    assert_eq!(changed.organization_id, 7);
    assert_eq!(changed.ready_replicas, Some(2));
    assert_eq!(changed.updated_at, 5);
}

#[test]
fn branches_have_services_of_their_own() {
    let services = vec![CachedClusterService {
        name: "web".to_string(),
        selector: TextMap::new(),
        ports: vec![port(80), port(70000), port(0)],
    }];
    let route = build_branch_service_route_config_from_services(id(), &services).unwrap();
    assert_eq!(route.branch_environment_id, id());
    assert_eq!(route.service_names.get(&80), Some(&format!("web-{ID}")));
    assert!(route.service_names.contains_key(&0));
    assert_eq!(route.service_names.len(), 2);
    assert!(build_branch_service_route_config_from_services(id(), &Vec::new()).is_none());
    let branches = vec![
        (id(), Some(environment(id(), 2))),
        (5, Some(environment(5, 3))),
        (6, None),
    ];
    let routes = branch_service_routes(1, 2, &services, &branches);
    let ids: Vec<u128> = routes.iter().map(|r| r.branch_environment_id).collect();
    assert!(ids.contains(&id()));
    assert!(!ids.contains(&5));
}

#[test]
fn environments_belong_to_clusters() {
    let missing = check_environment(id(), 2, Ok(None)).unwrap_err();
    assert_eq!(missing, EnvironmentError::NotFound(id()));
    assert_eq!(missing.message(), format!("Environment {ID} not found"));
    let other = check_environment(id(), id(), Ok(Some(environment(id(), 3)))).unwrap_err();
    assert_eq!(
        other.message(),
        format!("Environment {ID} does not belong to cluster {ID}")
    );
    assert!(check_environment(1, 2, Ok(Some(environment(1, 2)))).is_ok());
    let failed = check_environment(id(), 2, Err("gone".to_string())).unwrap_err();
    assert_eq!(failed.message(), format!("Failed to fetch environment {ID}: gone"));
}

fn listed(yaml: &str) -> ListedResource {
    ListedResource {
        document: parse_yaml(yaml).unwrap(),
        created_at: None,
    }
}

#[test]
fn workloads_are_listed_by_kind() {
    let deployment = parse_yaml("metadata:\n  name: web\n  namespace: ns\nspec:\n  replicas: 3\nstatus:\n  readyReplicas: 2\n").unwrap();
    let found = resource_to_workload(KubeWorkloadKind::Deployment, &deployment, None);
    assert_eq!(found.name, "web");
    assert_eq!(found.replicas, Some(3));
    assert_eq!(found.ready_replicas, Some(2));
    assert_eq!(found.status, KubeWorkloadStatus::Running);
    let pod = parse_yaml("metadata:\n  ownerReferences:\n    - name: x\n  namespace: kube-system\nstatus:\n  phase: Failed\n").unwrap();
    assert!(has_owner_references(&pod));
    assert!(is_system_workload(&pod));
    let found = resource_to_workload(KubeWorkloadKind::Pod, &pod, None);
    assert_eq!(found.status, KubeWorkloadStatus::Failed);
    assert_eq!(found.ready_replicas, Some(0));
    let job = parse_yaml("spec:\n  parallelism: 2\nstatus:\n  failed: 1\n").unwrap();
    let found = resource_to_workload(KubeWorkloadKind::Job, &job, None);
    assert_eq!(found.status, KubeWorkloadStatus::Failed);
    assert_eq!(found.replicas, Some(2));
    assert_eq!(lookup_order()[3], KubeWorkloadKind::Pod);
}

#[test]
fn listings_stop_at_their_limit_and_resume() {
    let pagination = PaginationParams {
        cursor: None,
        limit: 2,
    };
    let step = start_collection(None, false, Some(pagination));
    let collector = match step {
        CollectStep::List {
            collector,
            continue_token: None,
        } => collector,
        other => panic!("unexpected step {other:?}"),
    };
    let page = vec![
        listed("metadata:\n  name: a\n"),
        listed("metadata:\n  name: s\n  namespace: kube-system\n"),
        listed("metadata:\n  name: o\n  ownerReferences:\n    - name: x\n"),
    ];
    let collector = match continue_collection(collector, page, None) {
        CollectStep::List { collector, .. } => collector,
        other => panic!("unexpected step {other:?}"),
    };
    assert_eq!(collector.workloads.len(), 1);
    assert_eq!(collector.kinds[collector.index], KubeWorkloadKind::StatefulSet);
    let page = vec![listed("metadata:\n  name: b\n")];
    let list = match continue_collection(collector, page, Some("more".to_string())) {
        CollectStep::Done(list) => list,
        other => panic!("unexpected step {other:?}"),
    };
    assert_eq!(list.workloads.len(), 2);
    let cursor = list.next_cursor.unwrap();
    assert_eq!(cursor.workload_kind, KubeWorkloadKind::StatefulSet);
    assert_eq!(cursor.continue_token, Some("more".to_string()));
    let resumed = start_collection(
        None,
        false,
        Some(PaginationParams {
            cursor: Some(PaginationCursor {
                workload_kind: cursor.workload_kind,
                continue_token: cursor.continue_token,
            }),
            limit: 0,
        }),
    );
    match resumed {
        CollectStep::List {
            collector,
            continue_token,
        } => {
            assert_eq!(collector.index, 1);
            assert_eq!(collector.limit, 1);
            assert_eq!(continue_token, Some("more".to_string()));
        }
        other => panic!("unexpected step {other:?}"),
    }
    let only = start_collection(Some(KubeWorkloadKind::CronJob), true, None);
    let collector = match only {
        CollectStep::List { collector, .. } => collector,
        other => panic!("unexpected step {other:?}"),
    };
    assert_eq!(collector.limit, 50);
    match continue_collection(collector, Vec::new(), None) {
        CollectStep::Done(list) => assert!(list.next_cursor.is_none()),
        other => panic!("unexpected step {other:?}"),
    }
}

#[test]
fn watches_follow_the_namespaces() {
    let names = |list: &[&str]| list.iter().map(|n| n.to_string()).collect::<Vec<String>>();
    let mut manager = WatchManager::new();
    let change = manager.configure_watches(names(&[" a ", "b", "", "a"]));
    assert_eq!(change.started, ["a", "b"]);
    assert!(change.stopped.is_empty());
    let change = manager.configure_watches(names(&["b", "c"]));
    assert_eq!(change.started, ["c"]);
    assert_eq!(change.stopped, ["a"]);
    let change = manager.configure_watches(names(&["c", "b"]));
    assert!(change.started.is_empty() && change.stopped.is_empty());
    assert_eq!(watched_resource_types().len(), 9);
}

#[test]
fn watches_wait_longer_each_time() {
    let mut backoff = 1;
    let mut waits = Vec::new();
    for _ in 0..7 {
        let (wait, next) = next_attempt(backoff, WatchEnd::Failed);
        waits.push(wait);
        backoff = next;
    }
    assert_eq!(waits, [1, 2, 4, 8, 16, 30, 30]);
    assert_eq!(next_attempt(30, WatchEnd::Completed), (0, 1));
}

#[test]
fn watch_events_are_told_apart() {
    assert_eq!(
        signalled_change(WatchSignal::InitApply),
        Some(ResourceChangeType::Created)
    );
    assert_eq!(
        signalled_change(WatchSignal::Delete),
        Some(ResourceChangeType::Deleted)
    );
    assert_eq!(signalled_change(WatchSignal::Init), None);
    assert!(should_include_yaml(ResourceType::Job));
    assert!(!should_include_yaml(ResourceType::Secret));
    let mut seen = TextMap::new();
    let mut build = |change: ResourceChangeType, name: &str, version: Option<&str>| {
        build_event(
            "ns",
            ResourceType::Job,
            change,
            &mut seen,
            name.to_string(),
            version.map(|v| v.to_string()),
            Some("yaml".to_string()),
            1,
        )
        .map(|e| e.change_type)
    };
    let created = ResourceChangeType::Created;
    let updated = ResourceChangeType::Updated;
    let deleted = ResourceChangeType::Deleted;
    assert_eq!(build(created, "web", Some("1")), Some(created));
    assert_eq!(build(created, "web", Some("2")), Some(updated));
    assert_eq!(build(updated, "web", Some("2")), None);
    assert_eq!(build(updated, "web", Some("3")), Some(updated));
    assert_eq!(build(deleted, "web", Some("4")), Some(deleted));
    assert_eq!(build(created, "web", Some("5")), Some(created));
    assert_eq!(build(created, "", Some("5")), None);
    assert_eq!(build(created, "api", None), None);
    assert_eq!(
        WatchFailure::NoResourceVersion.message(),
        "watch event missing resourceVersion (resource may not support watch)"
    );
    assert_eq!(
        WatchFailure::WatchError("x".to_string()).message(),
        "watch error from API server: x"
    );
}

#[test]
fn generations_end_one_by_one() {
    let mut entries = Generations::new();
    entries.insert(1, 0, "old");
    entries.insert(1, 1, "new");
    assert_eq!(entries.newest(1), Some(1));
    assert!(entries.remove(1, 0));
    assert_eq!(entries.newest(1), Some(1));
    assert_eq!(entries.get(1, 1), Some(&"new"));
    assert!(!entries.remove(1, 0));
    assert!(entries.remove(1, 1));
    assert!(entries.is_empty());
    assert_eq!(entries.newest(1), None);
}

#[test]
fn cluster_servers_come_and_go() {
    let mut servers = ClusterServers::new();
    let first = servers.register(1, "a");
    let second = servers.register(1, "b");
    assert_ne!(first, second);
    servers.unregister(1, None);
    assert_eq!(servers.servers.newest(1), Some(second));
    servers.unregister(1, Some(second));
    assert_eq!(servers.servers.get(1, first), Some(&"a"));
    servers.unregister(1, Some(first));
    assert!(servers.servers.is_empty());
}

#[test]
fn agents_are_called() {
    assert_eq!(watch_namespace("  "), None);
    assert_eq!(watch_namespace(" ns "), Some("ns".to_string()));
    assert_eq!(
        agent_result(AgentCall::SetDevboxRoute, CallOutcome::Answered(3)),
        Ok(3)
    );
    assert_eq!(
        agent_result::<()>(
            AgentCall::AddNamespaceWatch,
            CallOutcome::Rejected("no".to_string())
        ),
        Err("KubeManager rejected namespace watch add: no".to_string())
    );
    assert_eq!(
        agent_result::<()>(
            AgentCall::GetDevboxDirectConfig,
            CallOutcome::Rejected("no".to_string())
        ),
        Err("no".to_string())
    );
    assert_eq!(
        agent_result::<()>(
            AgentCall::ClearDevboxRoutes,
            CallOutcome::Failed("gone".to_string())
        ),
        Err("Failed to send clear_devbox_routes RPC to kube-manager: gone".to_string())
    );
    assert_eq!(
        AgentFailure::DeployWorkloads.message("x"),
        "Failed to deploy workloads: x"
    );
    assert_eq!(
        raw_yaml_failure("ns", "web", "x"),
        "Failed to fetch raw YAML for ns/web: x"
    );
    assert_eq!(
        RouteRefreshFailure::NotPushed.message(1, id(), "x"),
        format!("Failed to push service routes to workload {ID}: x")
    );
    assert_eq!(
        RouteRefreshFailure::Rejected.message(id(), id(), "x"),
        format!("API rejected route request for environment {ID} workload {ID}: x")
    );
}

#[test]
fn devbox_proxies_are_kept_by_environment() {
    let mut proxies = DevboxProxyManager::new();
    assert_eq!(
        proxies.proxy_for_branch(id()),
        Err(format!("No devbox-proxy registered for base environment {ID}"))
    );
    proxies.register_devbox_proxy(id(), "first");
    proxies.register_devbox_proxy(id(), "second");
    assert_eq!(proxies.proxy_for_branch(id()), Ok(&"second"));
    assert_eq!(proxies.get_proxy_client(1), None);
    let usual = DEFAULT_DEVBOX_PROXY_MANAGER_PORT;
    assert_eq!(port_from_variable(Some("9000"), usual), 9000);
    assert_eq!(port_from_variable(Some("65536"), usual), 7771);
    assert_eq!(port_from_variable(None, usual), 7771);
}

#[test]
fn direct_tokens_are_good_for_a_while() {
    let mut store = DirectCredentialStore::new();
    let issued = get_devbox_direct_config(&mut store, 10, vec![1], None);
    let token = issued.credential.token;
    assert_eq!(uuid::Uuid::parse_str(&token).unwrap().get_version_num(), 4);
    assert!(store.contains(&token, 11));
    let again = get_devbox_direct_config(&mut store, 10, vec![1], None);
    assert_ne!(again.credential.token, token);
    let config = direct_config_for(&mut store, "t".to_string(), 10, vec![1], None);
    assert_eq!(config.credential.expires_at, 10 + DIRECT_TOKEN_NANOS);
    assert_eq!(config.server_certificate, Some(vec![1]));
    assert!(store.contains("t", 11));
    assert!(!store.contains("t", 11 + DIRECT_TOKEN_NANOS));
}

#[test]
fn reports_need_a_known_cluster() {
    assert!(check_report(id(), Ok(true)).is_ok());
    assert_eq!(
        check_report(id(), Ok(false)).unwrap_err().message(),
        format!("Cluster {ID} not found")
    );
    assert_eq!(
        check_report(id(), Err("down".to_string())).unwrap_err().message(),
        "Database error: down"
    );
}

#[test]
fn agents_read_their_settings() {
    let settings = |token: Option<&str>, url: Option<&str>| {
        agent_settings(
            "TOKEN",
            token.map(|t| t.to_string()),
            url.map(|u| u.to_string()),
            None,
            "usual",
            "usual tunnel",
        )
    };
    assert_eq!(settings(None, None).unwrap_err(), "can't find env var TOKEN");
    let found = settings(Some("t"), Some("mine")).unwrap();
    assert_eq!((found.token.as_str(), found.url.as_str()), ("t", "mine"));
    assert_eq!(found.tunnel_url, "usual tunnel");
    assert_eq!(settings(Some("t"), None).unwrap().url, "usual");
}

#[test]
fn what_is_referred_to_is_applied_first() {
    let mut services = TextMap::new();
    services.insert(
        "svc".to_string(),
        KubeServiceWithYaml {
            yaml: String::new(),
        },
    );
    let resources = KubeWorkloadsWithResources {
        workloads: vec![KubeWorkloadYamlOnly::Job(String::new())],
        services,
        configmaps: texts(&[("a", ""), ("b", "")]),
        secrets: texts(&[("s", "")]),
    };
    assert_eq!(
        apply_steps(&resources),
        [
            ApplyStep::ConfigMap(0),
            ApplyStep::ConfigMap(1),
            ApplyStep::Secret(0),
            ApplyStep::Workload(0),
            ApplyStep::Service(0),
        ]
    );
}

fn devbox_route(workload_id: u128, branch: Option<u128>) -> DevboxRouteConfig {
    DevboxRouteConfig {
        intercept_id: 1,
        workload_id,
        auth_token: "t".to_string(),
        websocket_url: "ws://x".to_string(),
        path_pattern: "/*".to_string(),
        branch_environment_id: branch,
        created_at_epoch_seconds: None,
        expires_at_epoch_seconds: None,
        port_mappings: HashMap::new(),
        direct: None,
    }
}

#[test]
fn devbox_routes_are_replayed_to_new_sidecars() {
    let mut manager = SidecarProxyManager::new();
    assert!(manager.heartbeat(2, 1).is_err());
    assert_eq!(manager.set_devbox_route(1, devbox_route(2, None)), None);
    let generation = manager.register_sidecar(1, 2, "client");
    assert!(manager.heartbeat(2, 1).is_ok());
    let (route, to) = manager.replay_devbox_route(1, 2).unwrap();
    assert_eq!(route.workload_id, 2);
    assert_eq!(to, generation);
    assert!(manager.replay_devbox_route(1, 3).is_none());
    assert_eq!(manager.remove_devbox_route(1, 2, Some(9)), None);
    assert_eq!(manager.remove_devbox_route(1, 2, None), Some(generation));
    assert!(manager.replay_devbox_route(1, 2).is_none());
}

#[test]
fn devbox_routes_are_cleared_by_branch() {
    let mut manager = SidecarProxyManager::new();
    let first = manager.register_sidecar(1, 2, "a");
    manager.register_sidecar(1, 3, "b");
    let mut routes = HashMap::new();
    routes.insert(2, devbox_route(2, Some(8)));
    let calls = manager.set_devbox_routes(1, routes);
    assert_eq!(calls.len(), 2);
    for (workload, _, call) in calls {
        assert_eq!(matches!(call, DevboxCall::Route(_)), workload == 2);
    }
    manager.clear_devbox_routes(1, Some(7));
    assert!(manager.replay_devbox_route(1, 2).is_some());
    manager.clear_devbox_routes(1, Some(8));
    assert!(manager.replay_devbox_route(1, 2).is_none());
    handle_disconnect(&mut manager, None);
    assert_eq!(manager.latest_client(1, 2), Some(first));
    handle_disconnect(
        &mut manager,
        Some(SidecarConnection {
            environment_id: 1,
            workload_id: 2,
            generation: first,
        }),
    );
    assert_eq!(manager.latest_client(1, 2), None);
    assert_eq!(manager.latest_clients_for_environment(1).unwrap().len(), 1);
    assert!(FailedCall::SendRoute.message(id(), "x").contains(ID));
}

#[test]
fn tunnel_clients_are_taken_newest_first() {
    let mut registry = TunnelRegistry::new();
    let first = registry.register_client(1, "a");
    let second = registry.register_client(1, "b");
    assert_eq!(registry.get_client(1, &Vec::new()), Some(second));
    assert_eq!(registry.get_client(1, &vec![second]), Some(first));
    assert_eq!(registry.get_client(1, &vec![first, second]), None);
    assert_eq!(registry.client(1, first), Some(&"a"));
    assert!(registry.remove_client(1, second));
    assert_eq!(registry.get_client(1, &Vec::new()), Some(first));
    registry.update_metrics(1, 3, 100, 2, 1);
    registry.update_metrics(1, 1, u64::MAX, 2, 0);
    let metrics = registry.metrics(1).unwrap();
    assert_eq!(metrics.active_connections, 1);
    assert_eq!(metrics.total_connections, 4);
    assert_eq!(metrics.bytes_transferred, u64::MAX);
    assert_eq!(metrics.connection_errors, 1);
}

fn lookups() -> RouteLookups {
    RouteLookups {
        environment: Ok(Some(environment(1, 2))),
        namespace: "ns".to_string(),
        workload: Ok(true),
        labels: Ok(()),
        services: Ok(vec![CachedClusterService {
            name: "web".to_string(),
            selector: TextMap::new(),
            ports: vec![port(80)],
        }]),
        branches: Ok(vec![
            BranchLookup {
                environment_id: 1,
                environment: Err("not asked".to_string()),
            },
            BranchLookup {
                environment_id: id(),
                environment: Ok(Some(environment(id(), 2))),
            },
        ]),
    }
}

#[test]
fn branch_routes_are_listed() {
    let routes = list_branch_service_routes(1, id(), 2, lookups()).unwrap();
    assert_eq!(routes.len(), 1);
    assert_eq!(routes[0].branch_environment_id, id());

    let mut empty = lookups();
    empty.services = Ok(Vec::new());
    empty.branches = Err("not asked".to_string());
    assert!(list_branch_service_routes(1, id(), 2, empty).unwrap().is_empty());
}

#[test]
fn listings_fail_at_the_first_look_up() {
    let failure = |change: fn(&mut RouteLookups)| {
        let mut changed = lookups();
        change(&mut changed);
        list_branch_service_routes(1, id(), 2, changed).unwrap_err().message()
    };
    let lost = || "lost".to_string();
    assert_eq!(
        failure(|l| l.workload = Err("lost".to_string())),
        format!("Failed to fetch workload {ID}: lost")
    );
    assert_eq!(failure(|l| l.workload = Ok(false)), format!("Workload {ID} not found"));
    assert_eq!(
        failure(|l| l.labels = Err("lost".to_string())),
        format!("Failed to fetch labels for workload {ID}: lost")
    );
    assert_eq!(
        failure(|l| l.services = Err("lost".to_string())),
        format!("Failed to resolve services for workload {ID} in namespace ns: lost")
    );
    assert_eq!(
        failure(|l| l.branches = Err("lost".to_string())),
        format!("Failed to fetch workloads for base workload {ID}: lost")
    );
    assert_eq!(
        failure(|l| {
            l.branches = Ok(vec![BranchLookup {
                environment_id: id(),
                environment: Err("lost".to_string()),
            }])
        }),
        format!("Failed to fetch environment {ID}: lost")
    );
    let mut gone = lookups();
    gone.environment = Ok(None);
    gone.workload = Err(lost());
    assert!(matches!(
        list_branch_service_routes(1, id(), 2, gone),
        Err(RouteListingError::Environment(EnvironmentError::NotFound(1)))
    ));
}

#[test]
fn changes_that_cannot_be_used_are_answered() {
    let missing = event(ResourceType::Deployment, ResourceChangeType::Updated, None);
    let change = handle_workload_change(&missing);
    assert_eq!(
        workload_answer(&missing, &change),
        Err("workload event missing resource YAML".to_string())
    );
    let broken = event(ResourceType::CronJob, ResourceChangeType::Created, Some("a: ["));
    let change = handle_workload_change(&broken);
    let expected = format!(
        "failed to parse workload YAML for {}/{} (CronJob)",
        broken.namespace, broken.resource_name
    );
    assert_eq!(workload_answer(&broken, &change), Err(expected));
    let gone = event(ResourceType::Deployment, ResourceChangeType::Deleted, None);
    assert_eq!(workload_answer(&gone, &handle_workload_change(&gone)), Ok(()));

    let missing = event(ResourceType::Service, ResourceChangeType::Updated, None);
    assert_eq!(
        service_answer(&missing, &handle_service_change(&missing)),
        Err("service event missing resource YAML".to_string())
    );
    let broken = event(ResourceType::Service, ResourceChangeType::Updated, Some("a: ["));
    let change = handle_service_change(&broken);
    assert!(matches!(&change, ServiceChange::Unusable(text)
        if service_answer(&broken, &change) == Err(text.clone())));
}

#[test]
fn failed_steps_are_named() {
    let event = event(ResourceType::Service, ResourceChangeType::Updated, None);
    let place = format!("{}/{}", event.namespace, event.resource_name);
    let bump = |cause: BumpCause| ChangeFailure::VersionNotBumped {
        catalog_id: id(),
        cause,
    };
    let cases = [
        (ChangeFailure::CatalogNotQueried, format!("failed querying catalog workloads for {place}")),
        (ChangeFailure::WorkloadNotUpdated(id()), format!("failed to update workload {ID}")),
        (
            ChangeFailure::LabelsNotUpdated(id()),
            format!("failed to update workload label mapping for {ID}"),
        ),
        (
            ChangeFailure::DependenciesNotUpdated(id()),
            format!("failed to update workload dependency mapping for {ID}"),
        ),
        (
            ChangeFailure::PortsNotUpdated(id()),
            format!("failed to update workload ports for {ID}"),
        ),
        (
            ChangeFailure::SelectorNotResolved,
            format!(
                "failed to resolve workloads matching service selector for {}",
                event.resource_name
            ),
        ),
        (
            ChangeFailure::SelectorNotQueried,
            format!("failed querying catalog workloads for service selector {place}"),
        ),
        (
            bump(BumpCause::Workload),
            format!("failed to bump sync version for catalog {ID} after workload update"),
        ),
        (
            bump(BumpCause::Service),
            format!("failed to bump sync version for catalog {ID} after service update"),
        ),
        (
            bump(BumpCause::ConfigMap),
            format!("failed to bump sync version for catalog {ID} after configmap change"),
        ),
        (
            bump(BumpCause::Secret),
            format!("failed to bump sync version for catalog {ID} after secret change"),
        ),
        (
            ChangeFailure::VersionsNotUpdated(id()),
            format!("failed to update workload sync version for catalog {ID}"),
        ),
        (
            ChangeFailure::ReplicasNotUpdated,
            format!("failed to update environment ready replicas for {place}"),
        ),
        (
            ChangeFailure::ReplicasNotCleared,
            format!("failed to clear environment ready replicas for deleted workload {place}"),
        ),
    ];
    for (failure, expected) in cases {
        assert_eq!(failure.message(&event), expected);
    }
}

#[test]
fn services_are_stored_with_all_their_members() {
    let doc = parse_yaml(
        "spec:\n  selector:\n    app: web\n  ports:\n    - name: http\n      port: 80\n      targetPort: web\n      nodePort: 30080\n    - port: 81\n      targetPort: 8081\n      protocol: TCP\n      appProtocol: h2c\n",
    )
    .unwrap();
    let service = extract_service(&doc);
    let ports = parse_yaml(
        "[{name: http, port: 80, target_port: web, protocol: null, app_protocol: null, node_port: 30080}, {name: null, port: 81, target_port: 8081, protocol: TCP, app_protocol: h2c, node_port: null}]",
    )
    .unwrap();
    assert!(json_eq(&service_ports_json(&service), &ports));
    let selector = parse_yaml("app: web").unwrap();
    assert!(json_eq(&service_selector_json(&service), &selector));
}

#[test]
fn services_without_a_selector_reconcile_nothing() {
    let service = |yaml: &str| extract_service(&parse_yaml(yaml).unwrap());
    let selecting = service("spec:\n  selector:\n    app: web\n");
    let bare = service("spec:\n  ports:\n    - port: 80\n");
    assert!(needs_reconcile(&selecting));
    assert!(!needs_reconcile(&bare));
    assert!(forgotten_needs_reconcile(Some(&selecting.selector)));
    assert!(!forgotten_needs_reconcile(Some(&bare.selector)));
    assert!(!forgotten_needs_reconcile(None));
}

#[test]
fn reports_are_stored_with_their_status() {
    let update = cluster_update(KubeClusterInfo {
        cluster_version: "1.33".to_string(),
        node_count: 2,
        available_cpu: "1m".to_string(),
        available_memory: "2bytes".to_string(),
        provider: Some("GCP".to_string()),
        region: None,
        status: KubeClusterStatus::Ready,
        manager_namespace: Some("lapdev".to_string()),
    });
    assert_eq!(update.cluster_version, "1.33");
    assert_eq!(update.status, "Ready");
    assert_eq!(update.provider, Some("GCP".to_string()));
    assert_eq!(update.region, None);
    assert_eq!(update.manager_namespace, Some("lapdev".to_string()));
}
