use lapdev_kube::catalog::{merge_containers, ports_from_cached_services, CachedClusterService};
use lapdev_kube::catalog_sync::{
    catalog_update, compute_catalog_workload_update, group_by_catalog,
    load_existing_catalog_state, CatalogBump, CatalogWorkload, CatalogWorkloadUpdate,
    DependencyRow, LabelRow, WorkloadFacts,
};
use lapdev_kube::json::{json_copy, json_eq, yaml_member, Json};
use lapdev_kube::kube_rpc::ResourceType;
use lapdev_kube::kube_types::{
    KubeContainerImage, KubeContainerInfo, KubeContainerPort, KubeEnvVar, KubeServicePort,
    KubeWorkloadKind,
};
use lapdev_kube::text_map::{TextMap, TextSet};
use lapdev_kube::workload::{
    extract_workload_from_yaml, parse_manifest, spec_section_from_yaml, WorkloadError,
};

/// Reads a whole YAML document.
fn parse_yaml(yaml: &str) -> Result<Json, String> {
    let nested: Vec<String> = yaml.lines().map(|line| format!("  {}\n", line)).collect();
    let member = yaml_member(&format!("document:\n{}", nested.concat()), "document")?;
    Ok(member.unwrap_or(Json::Null))
}

#[test]
fn extract_workload_from_yaml_reads_ready_replicas_for_deployments() {
    let deployment_yaml = r#"
apiVersion: apps/v1
kind: Deployment
metadata:
  name: web
  namespace: default
spec:
  selector:
    matchLabels:
      app: web
  template:
    metadata:
      labels:
        app: web
    spec:
      containers:
        - name: web
          image: nginx:1.27
status:
  readyReplicas: 3
"#;

    let extracted = extract_workload_from_yaml(ResourceType::Deployment, deployment_yaml).unwrap();
    assert_eq!(extracted.ready_replicas, Some(3));
}

#[test]
fn extract_workload_from_yaml_reads_ready_replicas_for_jobs() {
    let job_yaml = r#"
apiVersion: batch/v1
kind: Job
metadata:
  name: data-migrate
  namespace: default
spec:
  template:
    metadata:
      labels:
        job-name: data-migrate
    spec:
      containers:
        - name: migrate
          image: alpine:3
          command: ["/bin/true"]
      restartPolicy: Never
status:
  succeeded: 1
"#;

    let extracted = extract_workload_from_yaml(ResourceType::Job, job_yaml).unwrap();
    assert_eq!(extracted.ready_replicas, Some(1));
}

#[test]
fn extract_workload_from_yaml_returns_labels_even_without_status() {
    let deployment_yaml = format!(
        r#"
apiVersion: apps/v1
kind: Deployment
metadata:
  name: web
  namespace: default
  labels:
    lapdev.io/branch-environment-id: "{env_id}"
spec:
  selector:
    matchLabels:
      app: web
  template:
    metadata:
      labels:
        app: web
    spec:
      containers:
        - name: web
          image: nginx:1.27
"#,
        env_id = uuid::Uuid::new_v4()
    );

    let extracted =
        extract_workload_from_yaml(ResourceType::Deployment, deployment_yaml.as_str()).unwrap();
    assert!(extracted.ready_replicas.is_none());
    assert!(extracted
        .metadata_labels
        .contains_key("lapdev.io/branch-environment-id"));
}

#[test]
fn spec_section_from_yaml_ignores_status_updates() {
    let base_yaml = r#"
apiVersion: apps/v1
kind: Deployment
metadata:
  name: api
  namespace: default
  resourceVersion: "123"
spec:
  replicas: 2
  selector:
    matchLabels:
      app: api
  template:
    metadata:
      labels:
        app: api
    spec:
      containers:
        - name: api
          image: nginx:1.27
status:
  readyReplicas: 1
"#;

    let status_only_yaml = r#"
apiVersion: apps/v1
kind: Deployment
metadata:
  name: api
  namespace: default
  resourceVersion: "456"
spec:
  replicas: 2
  selector:
    matchLabels:
      app: api
  template:
    metadata:
      labels:
        app: api
    spec:
      containers:
        - name: api
          image: nginx:1.27
status:
  readyReplicas: 0
"#;

    let base_spec = spec_section_from_yaml(base_yaml)
        .expect("base spec parsing should succeed")
        .expect("base spec should be present");
    let status_spec = spec_section_from_yaml(status_only_yaml)
        .expect("status-only spec parsing should succeed")
        .expect("status-only spec should be present");

    assert!(json_eq(&base_spec, &status_spec));
}

#[test]
fn spec_section_from_yaml_ignores_replica_changes() {
    let base_yaml = r#"
apiVersion: apps/v1
kind: Deployment
metadata:
  name: api
  namespace: default
spec:
  replicas: 2
  selector:
    matchLabels:
      app: api
  template:
    metadata:
      labels:
        app: api
    spec:
      containers:
        - name: api
          image: nginx:1.27
"#;

    let scaled_yaml = r#"
apiVersion: apps/v1
kind: Deployment
metadata:
  name: api
  namespace: default
spec:
  replicas: 3
  selector:
    matchLabels:
      app: api
  template:
    metadata:
      labels:
        app: api
    spec:
      containers:
        - name: api
          image: nginx:1.27
"#;

    let base_spec = spec_section_from_yaml(base_yaml)
        .expect("base spec parsing should succeed")
        .expect("base spec should be present");
    let scaled_spec = spec_section_from_yaml(scaled_yaml)
        .expect("scaled spec parsing should succeed")
        .expect("scaled spec should be present");

    assert!(json_eq(&base_spec, &scaled_spec));
}

#[test]
fn extract_workload_from_yaml_returns_spec_snapshot() {
    let deployment_yaml = r#"
apiVersion: apps/v1
kind: Deployment
metadata:
  name: api
  namespace: default
spec:
  replicas: 2
  selector:
    matchLabels:
      app: api
  template:
    metadata:
      labels:
        app: api
    spec:
      containers:
        - name: api
          image: nginx:1.27
"#;

    let extracted = extract_workload_from_yaml(ResourceType::Deployment, deployment_yaml)
        .expect("yaml should parse");
    let spec_snapshot = extracted
        .spec_snapshot
        .expect("deployment should expose spec snapshot");

    let spec_from_yaml = spec_section_from_yaml(deployment_yaml)
        .expect("spec extraction should succeed")
        .expect("spec should be present");

    assert!(json_eq(&spec_snapshot, &spec_from_yaml));
}

struct WorkloadTestFixture {
    workload: CatalogWorkload,
    base_yaml: String,
    base_containers: Vec<KubeContainerInfo>,
    base_ports: Vec<KubeServicePort>,
    base_spec_snapshot: Json,
    base_labels: TextMap<String>,
    base_configmaps: TextSet,
    base_secrets: TextSet,
}

impl WorkloadTestFixture {
    fn new() -> Self {
        let base_yaml = r#"
apiVersion: apps/v1
kind: Deployment
metadata:
  name: api
  namespace: default
spec:
  replicas: 2
  selector:
    matchLabels:
      app: api
  template:
    metadata:
      labels:
        app: api
    spec:
      containers:
        - name: api
          image: nginx:1.27
          resources:
            requests:
              cpu: 100m
              memory: 128Mi
            limits:
              cpu: 200m
              memory: 256Mi
"#
        .trim()
        .to_string();

        let base_spec_snapshot = spec_section_from_yaml(&base_yaml)
            .expect("spec snapshot extraction should succeed")
            .expect("spec snapshot should be present");

        let base_containers = vec![KubeContainerInfo {
            name: "api".to_string(),
            original_image: "nginx:1.27".to_string(),
            image: KubeContainerImage::FollowOriginal,
            cpu_request: Some("100m".to_string()),
            cpu_limit: Some("200m".to_string()),
            memory_request: Some("128Mi".to_string()),
            memory_limit: Some("256Mi".to_string()),
            env_vars: Vec::new(),
            original_env_vars: Vec::new(),
            ports: vec![KubeContainerPort {
                name: Some("http".to_string()),
                container_port: 8080,
                protocol: Some("TCP".to_string()),
            }],
        }];

        let base_ports = vec![KubeServicePort {
            name: Some("http".to_string()),
            port: 80,
            target_port: Some(8080),
            protocol: Some("TCP".to_string()),
            node_port: None,
            original_target_port: Some(8080),
        }];

        let mut base_configmaps = TextSet::new();
        base_configmaps.insert("cfg-main".to_string());
        let mut base_secrets = TextSet::new();
        base_secrets.insert("sec-main".to_string());

        let mut base_labels = TextMap::new();
        base_labels.insert("app".to_string(), "api".to_string());

        let workload = CatalogWorkload {
            id: uuid::Uuid::new_v4().as_u128(),
            app_catalog_id: uuid::Uuid::new_v4().as_u128(),
            cluster_id: uuid::Uuid::new_v4().as_u128(),
            namespace: "default".to_string(),
            kind: Some(KubeWorkloadKind::Deployment),
            containers: base_containers.clone(),
            containers_canonical: true,
            ports: base_ports.clone(),
            ports_canonical: true,
            workload_yaml: base_yaml.clone(),
        };

        Self {
            workload,
            base_yaml,
            base_containers,
            base_ports,
            base_spec_snapshot,
            base_labels,
            base_configmaps,
            base_secrets,
        }
    }
}

fn compute_update(
    workload: &CatalogWorkload,
    new_containers: &Vec<KubeContainerInfo>,
    service_ports: &Vec<KubeServicePort>,
    yaml: &str,
    new_spec_snapshot: Option<&Json>,
    new_labels: &TextMap<String>,
    existing_labels: Option<&TextMap<String>>,
    new_configmaps: &TextSet,
    new_secrets: &TextSet,
    existing_dependencies: Option<&(TextSet, TextSet)>,
) -> CatalogWorkloadUpdate {
    let facts = WorkloadFacts {
        containers: new_containers,
        ports: service_ports,
        yaml,
        spec_snapshot: new_spec_snapshot,
        labels: new_labels,
        configmaps: new_configmaps,
        secrets: new_secrets,
    };
    compute_catalog_workload_update(workload, &facts, existing_labels, existing_dependencies)
}

#[test]
fn compute_catalog_workload_update_detects_no_changes() {
    let fixture = WorkloadTestFixture::new();
    let new_containers = fixture.base_containers.clone();
    let service_ports = fixture.base_ports.clone();
    let new_labels = fixture.base_labels.clone();
    let existing_labels = fixture.base_labels.clone();
    let new_configmaps = fixture.base_configmaps.clone();
    let new_secrets = fixture.base_secrets.clone();
    let existing_dependencies = (
        fixture.base_configmaps.clone(),
        fixture.base_secrets.clone(),
    );
    let spec_snapshot = json_copy(&fixture.base_spec_snapshot);

    let update = compute_update(
        &fixture.workload,
        &new_containers,
        &service_ports,
        &fixture.base_yaml,
        Some(&spec_snapshot),
        &new_labels,
        Some(&existing_labels),
        &new_configmaps,
        &new_secrets,
        Some(&existing_dependencies),
    );

    assert!(!update.requires_catalog_bump());
    assert!(!update.containers_changed);
    assert!(!update.ports_changed);
    assert!(!update.spec_changed);
    assert!(!update.labels_changed);
    assert!(!update.dependencies_changed);
    assert!(!update.has_model_updates());
}

#[test]
fn compute_catalog_workload_update_detects_spec_change() {
    let fixture = WorkloadTestFixture::new();
    let new_containers = fixture.base_containers.clone();
    let service_ports = fixture.base_ports.clone();
    let new_labels = fixture.base_labels.clone();
    let existing_labels = fixture.base_labels.clone();
    let new_configmaps = fixture.base_configmaps.clone();
    let new_secrets = fixture.base_secrets.clone();
    let existing_dependencies = (
        fixture.base_configmaps.clone(),
        fixture.base_secrets.clone(),
    );

    let mut spec_snapshot = json_copy(&fixture.base_spec_snapshot);
    match &mut spec_snapshot {
        Json::Object(members) => {
            members.push(("revisionHistoryLimit".to_string(), Json::Number("5".to_string())))
        }
        other => panic!("spec is no object: {other:?}"),
    }

    let new_yaml = fixture
        .base_yaml
        .replace("replicas: 2", "replicas: 2\n  revisionHistoryLimit: 5")
        .to_string();

    let update = compute_update(
        &fixture.workload,
        &new_containers,
        &service_ports,
        &new_yaml,
        Some(&spec_snapshot),
        &new_labels,
        Some(&existing_labels),
        &new_configmaps,
        &new_secrets,
        Some(&existing_dependencies),
    );

    assert!(update.requires_catalog_bump());
    assert!(update.spec_changed);
    assert!(update.workload_yaml.is_some());
    assert!(!update.containers_changed);
    assert!(!update.ports_changed);
    assert!(!update.labels_changed);
    assert!(!update.dependencies_changed);
}

#[test]
fn compute_catalog_workload_update_detects_container_change() {
    let fixture = WorkloadTestFixture::new();
    let mut new_containers = fixture.base_containers.clone();
    new_containers[0].cpu_request = Some("250m".to_string());
    new_containers[0].cpu_limit = Some("500m".to_string());

    let service_ports = fixture.base_ports.clone();
    let new_labels = fixture.base_labels.clone();
    let existing_labels = fixture.base_labels.clone();
    let new_configmaps = fixture.base_configmaps.clone();
    let new_secrets = fixture.base_secrets.clone();
    let existing_dependencies = (
        fixture.base_configmaps.clone(),
        fixture.base_secrets.clone(),
    );
    let spec_snapshot = json_copy(&fixture.base_spec_snapshot);

    let update = compute_update(
        &fixture.workload,
        &new_containers,
        &service_ports,
        &fixture.base_yaml,
        Some(&spec_snapshot),
        &new_labels,
        Some(&existing_labels),
        &new_configmaps,
        &new_secrets,
        Some(&existing_dependencies),
    );

    assert!(update.requires_catalog_bump());
    assert!(update.containers_changed);
    assert!(update.containers.is_some());
    assert!(!update.ports_changed);
    assert!(!update.spec_changed);
    assert!(!update.labels_changed);
    assert!(!update.dependencies_changed);
}

#[test]
fn compute_catalog_workload_update_detects_port_change() {
    let fixture = WorkloadTestFixture::new();
    let new_containers = fixture.base_containers.clone();
    let mut service_ports = fixture.base_ports.clone();
    service_ports[0].port = 443;
    service_ports[0].target_port = Some(8443);
    service_ports[0].original_target_port = Some(8443);

    let new_labels = fixture.base_labels.clone();
    let existing_labels = fixture.base_labels.clone();
    let new_configmaps = fixture.base_configmaps.clone();
    let new_secrets = fixture.base_secrets.clone();
    let existing_dependencies = (
        fixture.base_configmaps.clone(),
        fixture.base_secrets.clone(),
    );
    let spec_snapshot = json_copy(&fixture.base_spec_snapshot);

    let update = compute_update(
        &fixture.workload,
        &new_containers,
        &service_ports,
        &fixture.base_yaml,
        Some(&spec_snapshot),
        &new_labels,
        Some(&existing_labels),
        &new_configmaps,
        &new_secrets,
        Some(&existing_dependencies),
    );

    assert!(update.requires_catalog_bump());
    assert!(update.ports_changed);
    assert!(update.ports.is_some());
    assert!(!update.containers_changed);
    assert!(!update.spec_changed);
    assert!(!update.labels_changed);
    assert!(!update.dependencies_changed);
}

#[test]
fn compute_catalog_workload_update_detects_label_change() {
    let fixture = WorkloadTestFixture::new();
    let new_containers = fixture.base_containers.clone();
    let service_ports = fixture.base_ports.clone();
    let mut new_labels = fixture.base_labels.clone();
    new_labels.insert("version".to_string(), "v2".to_string());
    let existing_labels = fixture.base_labels.clone();
    let new_configmaps = fixture.base_configmaps.clone();
    let new_secrets = fixture.base_secrets.clone();
    let existing_dependencies = (
        fixture.base_configmaps.clone(),
        fixture.base_secrets.clone(),
    );
    let spec_snapshot = json_copy(&fixture.base_spec_snapshot);

    let update = compute_update(
        &fixture.workload,
        &new_containers,
        &service_ports,
        &fixture.base_yaml,
        Some(&spec_snapshot),
        &new_labels,
        Some(&existing_labels),
        &new_configmaps,
        &new_secrets,
        Some(&existing_dependencies),
    );

    assert!(update.requires_catalog_bump());
    assert!(update.labels_changed);
    assert!(!update.containers_changed);
    assert!(!update.ports_changed);
    assert!(!update.spec_changed);
    assert!(!update.dependencies_changed);
    assert!(!update.has_model_updates());
}

#[test]
fn compute_catalog_workload_update_detects_dependency_change() {
    let fixture = WorkloadTestFixture::new();
    let new_containers = fixture.base_containers.clone();
    let service_ports = fixture.base_ports.clone();
    let new_labels = fixture.base_labels.clone();
    let existing_labels = fixture.base_labels.clone();
    let mut new_configmaps = fixture.base_configmaps.clone();
    new_configmaps.insert("cfg-extra".to_string());
    let new_secrets = fixture.base_secrets.clone();
    let existing_dependencies = (
        fixture.base_configmaps.clone(),
        fixture.base_secrets.clone(),
    );
    let spec_snapshot = json_copy(&fixture.base_spec_snapshot);

    let update = compute_update(
        &fixture.workload,
        &new_containers,
        &service_ports,
        &fixture.base_yaml,
        Some(&spec_snapshot),
        &new_labels,
        Some(&existing_labels),
        &new_configmaps,
        &new_secrets,
        Some(&existing_dependencies),
    );

    assert!(update.requires_catalog_bump());
    assert!(update.dependencies_changed);
    assert!(!update.containers_changed);
    assert!(!update.ports_changed);
    assert!(!update.spec_changed);
    assert!(!update.labels_changed);
}

fn texts(pairs: &[(&str, &str)]) -> TextMap<String> {
    let mut map = TextMap::new();
    for (key, value) in pairs {
        map.insert(key.to_string(), value.to_string());
    }
    map
}

fn manifest(kind: &str, version: &str, spec: &str) -> String {
    format!("apiVersion: {version}\nkind: {kind}\nmetadata:\n  name: x\nspec:\n{spec}")
}

const POD: &str = "    template:\n      metadata:\n        labels:\n          app: x\n      spec:\n        containers:\n          - name: x\n            image: busybox:1\n            envFrom:\n              - configMapRef:\n                  name: \" cfg \"\n            env:\n              - name: A\n                value: one\n              - name: B\n                valueFrom:\n                  secretKeyRef:\n                    name: sec\n                    key: k\n";

#[test]
fn every_kind_of_workload_is_read() {
    let selector = "    selector:\n      matchLabels:\n        app: x\n";
    let cases = [
        (ResourceType::Deployment, "Deployment", "apps/v1", format!("{selector}{POD}")),
        (ResourceType::StatefulSet, "StatefulSet", "apps/v1", format!("    serviceName: x\n{selector}{POD}")),
        (ResourceType::DaemonSet, "DaemonSet", "apps/v1", format!("{selector}{POD}")),
        (ResourceType::ReplicaSet, "ReplicaSet", "apps/v1", format!("{selector}{POD}")),
        (ResourceType::Job, "Job", "batch/v1", POD.to_string()),
        (
            ResourceType::CronJob,
            "CronJob",
            "batch/v1",
            format!(
                "    schedule: \"* * * * *\"\n    jobTemplate:\n      spec:\n{}",
                POD.lines().map(|l| format!("    {l}\n")).collect::<String>()
            ),
        ),
    ];
    for (resource_type, kind, version, spec) in cases {
        let yaml = manifest(kind, version, &spec);
        let found = extract_workload_from_yaml(resource_type, &yaml).unwrap();
        assert_eq!(found.containers.len(), 1, "{kind}");
        assert_eq!(found.containers[0].original_image, "busybox:1");
        assert_eq!(found.containers[0].original_env_vars.len(), 0);
        assert!(found.configmap_refs.contains("cfg"));
        assert!(found.secret_refs.contains("sec"));
        if resource_type == ResourceType::CronJob {
            assert_eq!(found.ready_replicas, Some(1));
        } else {
            assert_eq!(found.pod_labels.get("app"), Some(&"x".to_string()));
            assert_eq!(found.ready_replicas, None);
        }
    }
}

#[test]
fn manifests_that_cannot_be_used_are_told_apart() {
    let no_yaml = extract_workload_from_yaml(ResourceType::Deployment, ": : :");
    assert!(matches!(no_yaml, Err(WorkloadError::Yaml(_))));
    let no_type = extract_workload_from_yaml(ResourceType::Deployment, "spec: 3");
    assert!(matches!(no_type, Err(WorkloadError::Yaml(_))));
    let no_pod = extract_workload_from_yaml(
        ResourceType::Deployment,
        &manifest("Deployment", "apps/v1", "    selector: {}\n    template: {}\n"),
    );
    assert!(matches!(
        no_pod,
        Err(WorkloadError::MissingPodSpec(ResourceType::Deployment))
    ));
    let no_image = extract_workload_from_yaml(
        ResourceType::Deployment,
        &manifest(
            "Deployment",
            "apps/v1",
            "    selector: {}\n    template:\n      spec:\n        containers:\n          - name: bare\n",
        ),
    );
    match no_image {
        Err(WorkloadError::MissingImage(name)) => assert_eq!(name, "bare"),
        other => panic!("unexpected outcome {other:?}"),
    }
}

#[test]
fn manifests_keep_only_the_fields_of_their_type() {
    let yaml = manifest("Deployment", "apps/v1", "    selector: {}\n    template: {}\n    unknown: 1\n");
    let typed = parse_manifest(ResourceType::Deployment, &yaml).unwrap();
    let raw = parse_yaml(&yaml).unwrap();
    assert!(typed.get("spec").unwrap().get("unknown").is_none());
    assert!(raw.get("spec").unwrap().get("unknown").is_some());
    assert!(parse_yaml("a: [1").is_err());
}

#[test]
fn snapshots_ignore_replicas_and_missing_specs() {
    assert!(spec_section_from_yaml("kind: Deployment").unwrap().is_none());
    let spec = spec_section_from_yaml("spec:\n  replicas: 4\n  paused: true\n").unwrap().unwrap();
    assert!(spec.get("replicas").is_none());
    assert!(json_eq(spec.get("paused").unwrap(), &Json::Bool(true)));
    assert!(spec_section_from_yaml(": : :").is_err());
}

fn container(name: &str, image: &str) -> KubeContainerInfo {
    KubeContainerInfo {
        name: name.to_string(),
        original_image: image.to_string(),
        image: KubeContainerImage::FollowOriginal,
        cpu_request: None,
        cpu_limit: None,
        memory_request: None,
        memory_limit: None,
        env_vars: Vec::new(),
        original_env_vars: Vec::new(),
        ports: Vec::new(),
    }
}

#[test]
fn merging_follows_the_manifest_and_keeps_customizations() {
    let mut customized = container("web", "nginx:1");
    customized.image = KubeContainerImage::Custom("mine:2".to_string());
    customized.env_vars = vec![KubeEnvVar {
        name: "A".to_string(),
        value: "b".to_string(),
    }];
    let existing = vec![container("gone", "old:1"), customized];
    let fresh = vec![container("new", "n:1"), container("web", "nginx:3")];
    let merged = merge_containers(&existing, &fresh);
    let names: Vec<&str> = merged.iter().map(|c| c.name.as_str()).collect();
    assert_eq!(names, ["new", "web"]);
    assert_eq!(merged[1].original_image, "nginx:3");
    assert_eq!(merged[1].image, KubeContainerImage::Custom("mine:2".to_string()));
    assert_eq!(merged[1].env_vars.len(), 1);
    let again = merge_containers(&merged, &fresh);
    assert_eq!(again, merged);
}

fn port(number: i32) -> KubeServicePort {
    KubeServicePort {
        name: None,
        port: number,
        target_port: Some(number),
        protocol: None,
        node_port: None,
        original_target_port: None,
    }
}

#[test]
fn ports_come_from_services_that_select_the_workload() {
    let labels = texts(&[("app", "web"), ("tier", "front")]);
    let service = |name: &str, selector: &[(&str, &str)], ports: Vec<KubeServicePort>| {
        CachedClusterService {
            name: name.to_string(),
            selector: texts(selector),
            ports,
        }
    };
    let services = vec![
        service("web", &[("app", "web")], vec![port(80), port(443)]),
        service("api", &[("app", "api")], vec![port(9000)]),
        service("all", &[], vec![port(1)]),
        service("again", &[("tier", "front")], vec![port(80)]),
    ];
    let ports = ports_from_cached_services(&labels, &services);
    let numbers: Vec<i32> = ports.iter().map(|p| p.port).collect();
    assert_eq!(numbers, [80, 443]);
}

#[test]
fn an_unreadable_stored_manifest_counts_as_changed() {
    let fixture = WorkloadTestFixture::new();
    let facts = WorkloadFacts {
        containers: &fixture.base_containers,
        ports: &fixture.base_ports,
        yaml: &fixture.base_yaml,
        spec_snapshot: Some(&fixture.base_spec_snapshot),
        labels: &fixture.base_labels,
        configmaps: &fixture.base_configmaps,
        secrets: &fixture.base_secrets,
    };
    let update = catalog_update(
        &fixture.workload,
        &facts,
        &Err("broken".to_string()),
        Some(&fixture.base_labels),
        Some(&(fixture.base_configmaps.clone(), fixture.base_secrets.clone())),
    );
    assert!(update.spec_changed);
    assert_eq!(update.workload_yaml, Some(fixture.base_yaml.clone()));
    assert!(update.has_model_updates());
}

#[test]
fn catalog_state_is_gathered_by_workload() {
    let label = |id: u128, key: &str, value: &str| LabelRow {
        workload_id: id,
        label_key: key.to_string(),
        label_value: value.to_string(),
    };
    let dependency = |id: u128, kind: &str, name: &str| DependencyRow {
        workload_id: id,
        resource_type: kind.to_string(),
        resource_name: name.to_string(),
    };
    let state = load_existing_catalog_state(
        &vec![label(1, "app", "web"), label(2, "app", "api"), label(1, "v", "2")],
        &vec![
            dependency(1, "configmap", "cfg"),
            dependency(1, "secret", "sec"),
            dependency(1, "other", "x"),
        ],
    );
    assert_eq!(state.labels[&1].len(), 2);
    assert_eq!(state.labels[&2].get("app"), Some(&"api".to_string()));
    let (configmaps, secrets) = &state.dependencies[&1];
    assert!(configmaps.contains("cfg") && configmaps.len() == 1);
    assert!(secrets.contains("sec") && secrets.len() == 1);
}

#[test]
fn bumps_are_grouped_by_catalog() {
    let bumps: Vec<CatalogBump> = group_by_catalog(&vec![(10, 1), (20, 2), (10, 3)]);
    let flat: Vec<(u128, Vec<u128>)> =
        bumps.into_iter().map(|b| (b.catalog_id, b.workload_ids)).collect();
    assert_eq!(flat, [(10, vec![1, 3]), (20, vec![2])]);
}

#[test]
fn documents_are_compared_by_what_they_say() {
    let number = |text: &str| Json::Number(text.to_string());
    assert!(json_eq(&number("0.0"), &number("-0.0")));
    assert!(!json_eq(&number("0"), &number("0.0")));
    assert!(!json_eq(&number("1.0"), &number("-1.0")));
    let object = |members: &[(&str, &str)]| {
        Json::Object(
            members
                .iter()
                .map(|(key, value)| (key.to_string(), number(value)))
                .collect(),
        )
    };
    assert!(json_eq(
        &object(&[("a", "1"), ("b", "0.0")]),
        &object(&[("b", "-0.0"), ("a", "1")])
    ));
    assert!(!json_eq(&object(&[("a", "1")]), &object(&[("a", "1"), ("b", "2")])));
    assert!(!json_eq(&object(&[("a", "1"), ("b", "2")]), &object(&[("a", "1")])));
    assert!(!json_eq(&object(&[("a", "1")]), &object(&[("a", "2")])));
}

#[test]
fn sections_are_read_whatever_stands_around_them() {
    let odd = spec_section_from_yaml("null: 1\n[1, 2]: 3\nspec:\n  replicas: 2\n  paused: true\n");
    assert!(json_eq(
        &odd.unwrap().unwrap(),
        &Json::Object(vec![("paused".to_string(), Json::Bool(true))])
    ));
    let tagged = spec_section_from_yaml("!tag\nspec:\n  a: b\n").unwrap();
    assert!(json_eq(
        &tagged.unwrap(),
        &Json::Object(vec![("a".to_string(), Json::Text("b".to_string()))])
    ));
    assert!(spec_section_from_yaml("kind: Pod\n").unwrap().is_none());
    assert!(spec_section_from_yaml("spec:\n  [1, 2]: 3\n").is_err());
}
