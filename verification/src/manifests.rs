//! Manifests that are applied to a cluster.
use crate::cluster_events::{service_content, service_value};
use crate::cluster_resources::{is_prepared, prepare_manifest};
use crate::cluster_server::ApplyStep;
use crate::json::{json_of, value_content, Json, JsonView};
use crate::kube_rpc::{KubeWorkloadYamlOnly, KubeWorkloadsWithResources, ResourceType};
use crate::text_map::TextMap;
use crate::workload::{manifest_content, parse_manifest};
use vstd::prelude::*;

verus! {

/// What a manifest describes.
#[derive(Debug, Clone, Copy, PartialEq, Eq, Structural)]
pub enum ManifestKind {
    ConfigMap,
    Secret,
    Service,
    Deployment,
    StatefulSet,
    DaemonSet,
    ReplicaSet,
    Pod,
    Job,
    CronJob,
}

/// What a YAML text says as a `ConfigMap`, as a JSON document or the text of
/// the parser's error.
pub uninterp spec fn config_map_content(yaml: Seq<char>) -> Result<JsonView, Seq<char>>;

/// `serde_yaml::from_str` into a `ConfigMap` of `k8s_openapi`, handed on by
/// `serde_json::to_value` under the member names of the Kubernetes API.
#[verifier::external_body]
fn config_map_value(yaml: &str) -> (r: Result<serde_json::Value, String>)
    ensures
        match r {
            Ok(v) => config_map_content(yaml@) == Ok::<JsonView, Seq<char>>(value_content(v)),
            Err(e) => config_map_content(yaml@) == Err::<JsonView, Seq<char>>(e@),
        },
{
    let parsed: k8s_openapi::api::core::v1::ConfigMap = serde_yaml::from_str(yaml).map_err(|e| e.to_string())?;
    serde_json::to_value(parsed).map_err(|e| e.to_string())
}

/// What a YAML text says as a `Secret`, as a JSON document or the text of the
/// parser's error.
pub uninterp spec fn secret_content(yaml: Seq<char>) -> Result<JsonView, Seq<char>>;

/// `serde_yaml::from_str` into a `Secret` of `k8s_openapi`, handed on by
/// `serde_json::to_value` under the member names of the Kubernetes API.
#[verifier::external_body]
fn secret_value(yaml: &str) -> (r: Result<serde_json::Value, String>)
    ensures
        match r {
            Ok(v) => secret_content(yaml@) == Ok::<JsonView, Seq<char>>(value_content(v)),
            Err(e) => secret_content(yaml@) == Err::<JsonView, Seq<char>>(e@),
        },
{
    let parsed: k8s_openapi::api::core::v1::Secret = serde_yaml::from_str(yaml).map_err(|e| e.to_string())?;
    serde_json::to_value(parsed).map_err(|e| e.to_string())
}

/// What a YAML text says as a `Pod`, as a JSON document or the text of the
/// parser's error.
pub uninterp spec fn pod_content(yaml: Seq<char>) -> Result<JsonView, Seq<char>>;

/// `serde_yaml::from_str` into a `Pod` of `k8s_openapi`, handed on by
/// `serde_json::to_value` under the member names of the Kubernetes API.
#[verifier::external_body]
fn pod_value(yaml: &str) -> (r: Result<serde_json::Value, String>)
    ensures
        match r {
            Ok(v) => pod_content(yaml@) == Ok::<JsonView, Seq<char>>(value_content(v)),
            Err(e) => pod_content(yaml@) == Err::<JsonView, Seq<char>>(e@),
        },
{
    let parsed: k8s_openapi::api::core::v1::Pod = serde_yaml::from_str(yaml).map_err(|e| e.to_string())?;
    serde_json::to_value(parsed).map_err(|e| e.to_string())
}

/// What a YAML text says as a manifest of the given kind, as a JSON document
/// or the text of the parser's error.
pub open spec fn apply_content(kind: ManifestKind, yaml: Seq<char>) -> Result<
    JsonView,
    Seq<char>,
> {
    match kind {
        ManifestKind::ConfigMap => config_map_content(yaml),
        ManifestKind::Secret => secret_content(yaml),
        ManifestKind::Service => service_content(yaml),
        ManifestKind::Deployment => manifest_content(ResourceType::Deployment, yaml),
        ManifestKind::StatefulSet => manifest_content(ResourceType::StatefulSet, yaml),
        ManifestKind::DaemonSet => manifest_content(ResourceType::DaemonSet, yaml),
        ManifestKind::ReplicaSet => manifest_content(ResourceType::ReplicaSet, yaml),
        ManifestKind::Pod => pod_content(yaml),
        ManifestKind::Job => manifest_content(ResourceType::Job, yaml),
        ManifestKind::CronJob => manifest_content(ResourceType::CronJob, yaml),
    }
}

fn document_of(parsed: Result<serde_json::Value, String>) -> (r: Result<Json, String>)
    ensures
        match parsed {
            Ok(v) => r matches Ok(j) && j@ == value_content(v),
            Err(e) => r == Err::<Json, String>(e),
        },
{
    match parsed {
        Ok(v) => Ok(json_of(v)),
        Err(e) => Err(e),
    }
}

/// Reads a YAML text as a manifest of the given kind.
pub fn parse_manifest_yaml(kind: ManifestKind, yaml: &str) -> (r: Result<Json, String>)
    ensures
        match apply_content(kind, yaml@) {
            Ok(doc) => r matches Ok(j) && j@ == doc,
            Err(text) => r matches Err(m) && m@ == text,
        },
{
    match kind {
        ManifestKind::ConfigMap => document_of(config_map_value(yaml)),
        ManifestKind::Secret => document_of(secret_value(yaml)),
        ManifestKind::Service => document_of(service_value(yaml)),
        ManifestKind::Deployment => parse_manifest(ResourceType::Deployment, yaml),
        ManifestKind::StatefulSet => parse_manifest(ResourceType::StatefulSet, yaml),
        ManifestKind::DaemonSet => parse_manifest(ResourceType::DaemonSet, yaml),
        ManifestKind::ReplicaSet => parse_manifest(ResourceType::ReplicaSet, yaml),
        ManifestKind::Pod => document_of(pod_value(yaml)),
        ManifestKind::Job => parse_manifest(ResourceType::Job, yaml),
        ManifestKind::CronJob => parse_manifest(ResourceType::CronJob, yaml),
    }
}

/// Reads a YAML text as a manifest of the given kind, and prepares it for a
/// namespace. Fails with the parser's error where the text is no such
/// manifest.
pub fn prepare_manifest_yaml(
    kind: ManifestKind,
    yaml: &str,
    namespace: &str,
    labels: &TextMap<String>,
) -> (r: Result<Json, String>)
    ensures
        match apply_content(kind, yaml@) {
            Ok(doc) => r matches Ok(j) && is_prepared(doc, namespace@, labels.texts(), j@),
            Err(text) => r matches Err(m) && m@ == text,
        },
{
    match parse_manifest_yaml(kind, yaml) {
        Ok(doc) => Ok(prepare_manifest(&doc, namespace, labels)),
        Err(e) => Err(e),
    }
}

/// What a workload that is applied is, and its manifest.
pub open spec fn workload_yaml(workload: KubeWorkloadYamlOnly) -> (ManifestKind, Seq<char>) {
    match workload {
        KubeWorkloadYamlOnly::Deployment(yaml) => (ManifestKind::Deployment, yaml@),
        KubeWorkloadYamlOnly::StatefulSet(yaml) => (ManifestKind::StatefulSet, yaml@),
        KubeWorkloadYamlOnly::DaemonSet(yaml) => (ManifestKind::DaemonSet, yaml@),
        KubeWorkloadYamlOnly::ReplicaSet(yaml) => (ManifestKind::ReplicaSet, yaml@),
        KubeWorkloadYamlOnly::Pod(yaml) => (ManifestKind::Pod, yaml@),
        KubeWorkloadYamlOnly::Job(yaml) => (ManifestKind::Job, yaml@),
        KubeWorkloadYamlOnly::CronJob(yaml) => (ManifestKind::CronJob, yaml@),
    }
}

/// Tells what a workload that is applied is, and gives its manifest.
pub fn workload_manifest(workload: &KubeWorkloadYamlOnly) -> (r: (ManifestKind, &str))
    ensures
        (r.0, r.1@) == workload_yaml(*workload),
{
    match workload {
        KubeWorkloadYamlOnly::Deployment(yaml) => (ManifestKind::Deployment, yaml.as_str()),
        KubeWorkloadYamlOnly::StatefulSet(yaml) => (ManifestKind::StatefulSet, yaml.as_str()),
        KubeWorkloadYamlOnly::DaemonSet(yaml) => (ManifestKind::DaemonSet, yaml.as_str()),
        KubeWorkloadYamlOnly::ReplicaSet(yaml) => (ManifestKind::ReplicaSet, yaml.as_str()),
        KubeWorkloadYamlOnly::Pod(yaml) => (ManifestKind::Pod, yaml.as_str()),
        KubeWorkloadYamlOnly::Job(yaml) => (ManifestKind::Job, yaml.as_str()),
        KubeWorkloadYamlOnly::CronJob(yaml) => (ManifestKind::CronJob, yaml.as_str()),
    }
}

/// The step is one of some resource.
pub open spec fn is_step_of(resources: KubeWorkloadsWithResources, step: ApplyStep) -> bool {
    match step {
        ApplyStep::ConfigMap(i) => i < resources.configmaps.entry_seq().len(),
        ApplyStep::Secret(i) => i < resources.secrets.entry_seq().len(),
        ApplyStep::Workload(i) => i < resources.workloads@.len(),
        ApplyStep::Service(i) => i < resources.services.entry_seq().len(),
    }
}

/// What a step applies.
pub open spec fn step_yaml(resources: KubeWorkloadsWithResources, step: ApplyStep) -> (
    ManifestKind,
    Seq<char>,
) {
    match step {
        ApplyStep::ConfigMap(i) => (
            ManifestKind::ConfigMap,
            resources.configmaps.entry_seq()[i as int].1@,
        ),
        ApplyStep::Secret(i) => (ManifestKind::Secret, resources.secrets.entry_seq()[i as int].1@),
        ApplyStep::Workload(i) => workload_yaml(resources.workloads@[i as int]),
        ApplyStep::Service(i) => (
            ManifestKind::Service,
            resources.services.entry_seq()[i as int].1.yaml@,
        ),
    }
}

/// The manifest that a step applies, and its kind.
pub fn step_manifest(resources: &KubeWorkloadsWithResources, step: ApplyStep) -> (r: (
    ManifestKind,
    &str,
))
    requires
        is_step_of(*resources, step),
    ensures
        (r.0, r.1@) == step_yaml(*resources, step),
{
    match step {
        ApplyStep::ConfigMap(i) => {
            let (_, yaml) = resources.configmaps.entry(i);
            (ManifestKind::ConfigMap, yaml.as_str())
        },
        ApplyStep::Secret(i) => {
            let (_, yaml) = resources.secrets.entry(i);
            (ManifestKind::Secret, yaml.as_str())
        },
        ApplyStep::Workload(i) => workload_manifest(&resources.workloads[i]),
        ApplyStep::Service(i) => {
            let (_, service) = resources.services.entry(i);
            (ManifestKind::Service, service.yaml.as_str())
        },
    }
}

/// Every step of the order in which resources are applied is one of them.
pub proof fn law_steps_have_manifests(resources: KubeWorkloadsWithResources, k: int)
    requires
        0 <= k < crate::cluster_server::apply_order(
            resources.configmaps.entry_seq().len(),
            resources.secrets.entry_seq().len(),
            resources.workloads@.len(),
            resources.services.entry_seq().len(),
        ).len(),
        resources.configmaps.entry_seq().len() <= usize::MAX,
        resources.secrets.entry_seq().len() <= usize::MAX,
        resources.workloads@.len() <= usize::MAX,
        resources.services.entry_seq().len() <= usize::MAX,
    ensures
        is_step_of(
            resources,
            crate::cluster_server::apply_order(
                resources.configmaps.entry_seq().len(),
                resources.secrets.entry_seq().len(),
                resources.workloads@.len(),
                resources.services.entry_seq().len(),
            )[k],
        ),
{
}

/// Preparing a manifest is reading it and then preparing what was read. A text
/// that cannot be read fails with the same error either way.
pub proof fn law_prepared_is_read_first(
    kind: ManifestKind,
    yaml: &str,
    namespace: &str,
    labels: TextMap<String>,
    parsed: Result<Json, String>,
    r: Result<Json, String>,
)
    requires
        call_ensures(parse_manifest_yaml, (kind, yaml), parsed),
        call_ensures(prepare_manifest_yaml, (kind, yaml, namespace, &labels), r),
    ensures
        parsed is Ok <==> r is Ok,
        parsed matches Ok(doc) ==> (r matches Ok(j) && is_prepared(
            doc@,
            namespace@,
            labels.texts(),
            j@,
        )),
        parsed matches Err(e) ==> (r matches Err(m) && m@ == e@),
{
}

/// Each kind of manifest is read as what it is.
pub proof fn law_kinds_are_read_apart(kind: ManifestKind, yaml: &str, r: Result<Json, String>)
    requires
        call_ensures(parse_manifest_yaml, (kind, yaml), r),
    ensures
        ({
            let said = match r {
                Ok(j) => Ok::<JsonView, Seq<char>>(j@),
                Err(e) => Err::<JsonView, Seq<char>>(e@),
            };
            &&& kind is ConfigMap ==> said == config_map_content(yaml@)
            &&& kind is Secret ==> said == secret_content(yaml@)
            &&& kind is Service ==> said == service_content(yaml@)
            &&& kind is Pod ==> said == pod_content(yaml@)
            &&& kind is Deployment ==> said == manifest_content(ResourceType::Deployment, yaml@)
            &&& kind is StatefulSet ==> said == manifest_content(ResourceType::StatefulSet, yaml@)
            &&& kind is DaemonSet ==> said == manifest_content(ResourceType::DaemonSet, yaml@)
            &&& kind is ReplicaSet ==> said == manifest_content(ResourceType::ReplicaSet, yaml@)
            &&& kind is Job ==> said == manifest_content(ResourceType::Job, yaml@)
            &&& kind is CronJob ==> said == manifest_content(ResourceType::CronJob, yaml@)
        }),
{
}

/// The manifest of a workload is the text that it came with, whatever it is,
/// and its kind is what it came as.
pub proof fn law_workloads_keep_their_kind(
    workload: KubeWorkloadYamlOnly,
    r: (ManifestKind, &str),
)
    requires
        call_ensures(workload_manifest, (&workload,), r),
    ensures
        workload matches KubeWorkloadYamlOnly::Deployment(y) ==> r.0 is Deployment && r.1@ == y@,
        workload matches KubeWorkloadYamlOnly::StatefulSet(y) ==> r.0 is StatefulSet && r.1@ == y@,
        workload matches KubeWorkloadYamlOnly::DaemonSet(y) ==> r.0 is DaemonSet && r.1@ == y@,
        workload matches KubeWorkloadYamlOnly::ReplicaSet(y) ==> r.0 is ReplicaSet && r.1@ == y@,
        workload matches KubeWorkloadYamlOnly::Pod(y) ==> r.0 is Pod && r.1@ == y@,
        workload matches KubeWorkloadYamlOnly::Job(y) ==> r.0 is Job && r.1@ == y@,
        workload matches KubeWorkloadYamlOnly::CronJob(y) ==> r.0 is CronJob && r.1@ == y@,
{
}

/// A step applies the manifest of its own resource.
pub proof fn law_steps_apply_their_own(
    resources: KubeWorkloadsWithResources,
    step: ApplyStep,
    r: (ManifestKind, &str),
    workload: (ManifestKind, &str),
)
    requires
        is_step_of(resources, step),
        call_ensures(step_manifest, (&resources, step), r),
        step matches ApplyStep::Workload(i) ==> call_ensures(
            workload_manifest,
            (&resources.workloads@[i as int],),
            workload,
        ),
    ensures
        step matches ApplyStep::ConfigMap(i) ==> r.0 is ConfigMap && r.1@
            == resources.configmaps.entry_seq()[i as int].1@,
        step matches ApplyStep::Secret(i) ==> r.0 is Secret && r.1@
            == resources.secrets.entry_seq()[i as int].1@,
        step matches ApplyStep::Service(i) ==> r.0 is Service && r.1@
            == resources.services.entry_seq()[i as int].1.yaml@,
        step is Workload ==> r.0 == workload.0 && r.1@ == workload.1@,
{
}

} // verus!
