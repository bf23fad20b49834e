//! The server's answers to events of a cluster.
use crate::catalog::{
    ports_from_cached_services, same_port, service_views, workload_ports, CachedClusterService,
};
use crate::catalog_sync::{
    bump_views, compute_catalog_workload_update, distinct_groups, group_by_catalog, grouped,
    in_group, is_update, law_grouped, lemma_same_ports, lemma_update_of_dependencies,
    lemma_update_of_labels, stored_snapshot, CatalogBump, CatalogWorkload, CatalogWorkloadUpdate,
    ExistingCatalogState, WorkloadFacts,
};
use crate::ids::{id_from_str, id_text, id_to_string, parsed_id};
use crate::json::{
    get_in, i32_in, i32_of, items_of, json_of, json_of_texts, json_view, json_views, list_in,
    member, member_of, only_texts, opt_view, text_in, text_of, texts_in, texts_of, value_content,
    Json, JsonView,
};
use crate::kube_rpc::{
    ProxyBranchRouteConfig, ProxyRouteAccessLevel, ResourceChangeEvent, ResourceChangeType,
    ResourceType,
};
use crate::kube_types::{
    same_opt_i32, same_service_ports, service_port_views, KubeServicePort, KubeWorkloadKind,
    ServicePortView,
};
use crate::text::{concat, concat3, format_i64, opt_text, signed_decimal};
use crate::text_map::TextMap;
use crate::workload::{
    extract_workload_from_yaml, extracted, manifest_content, workload_kind, workload_kind_for,
    ExtractedView, ExtractedWorkload, WorkloadError, WorkloadErrorView,
};
use std::collections::HashMap;
use vstd::prelude::*;

verus! {

broadcast use vstd::std_specs::hash::group_hash_axioms;

// ---------------------------------------------------------------------------
// Which handler
// ---------------------------------------------------------------------------

/// Who answers a change of a resource.
#[derive(Debug, Clone, Copy, PartialEq, Eq, Structural)]
pub enum ChangeHandler {
    Service,
    ConfigMap,
    Secret,
    Workload,
}

/// Who answers a change of a resource of the given type.
pub open spec fn handler_of(resource_type: ResourceType) -> ChangeHandler {
    match resource_type {
        ResourceType::Service => ChangeHandler::Service,
        ResourceType::ConfigMap => ChangeHandler::ConfigMap,
        ResourceType::Secret => ChangeHandler::Secret,
        _ => ChangeHandler::Workload,
    }
}

pub fn change_handler(resource_type: ResourceType) -> (r: ChangeHandler)
    ensures
        r == handler_of(resource_type),
{
    match resource_type {
        ResourceType::Service => ChangeHandler::Service,
        ResourceType::ConfigMap => ChangeHandler::ConfigMap,
        ResourceType::Secret => ChangeHandler::Secret,
        _ => ChangeHandler::Workload,
    }
}

/// The workload handler gets the workloads and nothing else.
pub proof fn law_workload_handler_gets_workloads(resource_type: ResourceType)
    ensures
        (handler_of(resource_type) == ChangeHandler::Workload) == (workload_kind(resource_type)
            is Some),
{
}

// ---------------------------------------------------------------------------
// Workloads
// ---------------------------------------------------------------------------

/// What a change of a workload asks for.
#[derive(Debug)]
pub enum WorkloadChange {
    /// Nothing.
    Ignore,
    /// To forget the ready replicas of the workload with these labels.
    Forget { metadata_labels: TextMap<String> },
    /// To bring the catalog in step, then the ready replicas.
    Sync { kind: KubeWorkloadKind, workload: ExtractedWorkload },
    /// The event has no manifest.
    MissingYaml,
    /// The manifest cannot be used.
    Unusable(WorkloadError),
}

/// What the manifest of an event says: nothing where there is none.
pub open spec fn event_manifest(event: ResourceChangeEvent) -> Option<
    Result<ExtractedView, WorkloadErrorView>,
> {
    match event.resource_yaml {
        None => None,
        Some(yaml) => Some(
            match manifest_content(event.resource_type, yaml@) {
                Err(text) => Err(WorkloadErrorView::Yaml(text)),
                Ok(doc) => extracted(event.resource_type, doc),
            },
        ),
    }
}

/// `c` is what a change of a workload asks for, given its manifest.
pub open spec fn is_workload_change(
    event: ResourceChangeEvent,
    manifest: Option<Result<ExtractedView, WorkloadErrorView>>,
    c: WorkloadChange,
) -> bool {
    match workload_kind(event.resource_type) {
        None => c is Ignore,
        Some(kind) => if event.change_type == ResourceChangeType::Deleted {
            c matches WorkloadChange::Forget { metadata_labels } && metadata_labels.texts()
                == match manifest {
                Some(Ok(v)) => v.metadata_labels,
                _ => Map::<Seq<char>, Seq<char>>::empty(),
            }
        } else {
            match manifest {
                None => c is MissingYaml,
                Some(Err(e)) => c matches WorkloadChange::Unusable(u) && u@ == e,
                Some(Ok(v)) => if v.containers.len() == 0 {
                    c is Ignore
                } else {
                    c matches WorkloadChange::Sync { kind: k, workload } && k == kind && workload@
                        == v
                },
            }
        },
    }
}

/// Decides what a change of a workload asks for, given what its manifest
/// says.
pub fn decide_workload_change(
    event: &ResourceChangeEvent,
    manifest: Option<Result<ExtractedWorkload, WorkloadError>>,
) -> (r: WorkloadChange)
    ensures
        is_workload_change(
            *event,
            match manifest {
                None => None,
                Some(Ok(w)) => Some(Ok(w@)),
                Some(Err(e)) => Some(Err(e@)),
            },
            r,
        ),
{
    let kind: KubeWorkloadKind = match workload_kind_for(event.resource_type) {
        Some(k) => k,
        None => return WorkloadChange::Ignore,
    };
    if event.change_type == ResourceChangeType::Deleted {
        let metadata_labels: TextMap<String> = match manifest {
            Some(Ok(w)) => w.metadata_labels,
            _ => {
                let none: TextMap<String> = TextMap::new();
                proof {
                    assert(none.texts() =~= Map::<Seq<char>, Seq<char>>::empty());
                }
                none
            },
        };
        return WorkloadChange::Forget { metadata_labels };
    }
    match manifest {
        None => WorkloadChange::MissingYaml,
        Some(Err(e)) => WorkloadChange::Unusable(e),
        Some(Ok(workload)) => {
            if workload.containers.len() == 0 {
                WorkloadChange::Ignore
            } else {
                WorkloadChange::Sync { kind, workload }
            }
        },
    }
}

/// Decides what a change of a workload asks for.
pub fn handle_workload_change(event: &ResourceChangeEvent) -> (r: WorkloadChange)
    ensures
        is_workload_change(*event, event_manifest(*event), r),
{
    let manifest: Option<Result<ExtractedWorkload, WorkloadError>> = match &event.resource_yaml {
        Some(yaml) => Some(extract_workload_from_yaml(event.resource_type, yaml.as_str())),
        None => None,
    };
    decide_workload_change(event, manifest)
}

// ---------------------------------------------------------------------------
// The catalog
// ---------------------------------------------------------------------------

/// What has to be written for a list of workloads: for each of them an update,
/// or nothing where it is passed over, and the catalogs that get a new
/// version.
#[derive(Debug)]
pub struct CatalogPlan {
    pub updates: Vec<Option<CatalogWorkloadUpdate>>,
    pub bumps: Vec<CatalogBump>,
}

/// The stored kind of a workload is known to be another one.
pub open spec fn kind_mismatch(workload: CatalogWorkload, kind: KubeWorkloadKind) -> bool {
    workload.kind matches Some(k) && k != kind
}

/// The catalogs and workloads whose updates need a new version.
pub open spec fn bumped(
    workloads: Seq<CatalogWorkload>,
    updates: Seq<Option<CatalogWorkloadUpdate>>,
) -> Seq<(u128, u128)>
    decreases workloads.len(),
{
    if workloads.len() == 0 || updates.len() != workloads.len() {
        seq![]
    } else {
        let earlier = bumped(workloads.drop_last(), updates.drop_last());
        if updates.last() matches Some(u) && u.spec_requires_bump() {
            earlier.push((workloads.last().app_catalog_id, workloads.last().id))
        } else {
            earlier
        }
    }
}

/// Works out what the catalog needs after a manifest changed.
pub fn plan_catalog_sync(
    kind: KubeWorkloadKind,
    workloads: &Vec<CatalogWorkload>,
    facts: &WorkloadFacts,
    state: &ExistingCatalogState,
) -> (r: CatalogPlan)
    ensures
        r.updates@.len() == workloads@.len(),
        forall|i: int|
            #![trigger r.updates@[i]]
            0 <= i < workloads@.len() ==> match r.updates@[i] {
                None => kind_mismatch(workloads@[i], kind),
                Some(u) => !kind_mismatch(workloads@[i], kind) && is_update(
                    workloads@[i],
                    *facts,
                    stored_snapshot(workloads@[i].workload_yaml@),
                    state.labels_for(workloads@[i].id),
                    state.dependencies_for(workloads@[i].id),
                    u,
                ),
            },
        bump_views(r.bumps@) == grouped(bumped(workloads@, r.updates@)),
{
    let mut updates: Vec<Option<CatalogWorkloadUpdate>> = Vec::new();
    let mut pairs: Vec<(u128, u128)> = Vec::new();
    let mut i: usize = 0;
    proof {
        assert(workloads@.take(0) =~= Seq::<CatalogWorkload>::empty());
        assert(pairs@ =~= Seq::<(u128, u128)>::empty());
    }
    while i < workloads.len()
        invariant
            i <= workloads@.len(),
            updates@.len() == i,
            forall|k: int|
                #![trigger updates@[k]]
                0 <= k < i ==> match updates@[k] {
                    None => kind_mismatch(workloads@[k], kind),
                    Some(u) => !kind_mismatch(workloads@[k], kind) && is_update(
                        workloads@[k],
                        *facts,
                        stored_snapshot(workloads@[k].workload_yaml@),
                        state.labels_for(workloads@[k].id),
                        state.dependencies_for(workloads@[k].id),
                        u,
                    ),
                },
            pairs@ == bumped(workloads@.take(i as int), updates@),
        decreases workloads@.len() - i,
    {
        let workload: &CatalogWorkload = &workloads[i];
        let ghost before = updates@;
        let mismatch: bool = match workload.kind {
            Some(k) => k != kind,
            None => false,
        };
        proof {
            assert(workloads@.take(i as int + 1).drop_last() =~= workloads@.take(i as int));
            assert(workloads@.take(i as int + 1).last() == *workload);
        }
        if mismatch {
            updates.push(None);
        } else {
            let update: CatalogWorkloadUpdate = compute_catalog_workload_update(
                workload,
                facts,
                state.labels.get(&workload.id),
                state.dependencies.get(&workload.id),
            );
            if update.requires_catalog_bump() {
                pairs.push((workload.app_catalog_id, workload.id));
            }
            updates.push(Some(update));
        }
        proof {
            assert(updates@.drop_last() =~= before);
        }
        i = i + 1;
    }
    proof {
        assert(workloads@.take(workloads@.len() as int) =~= workloads@);
    }
    let bumps: Vec<CatalogBump> = group_by_catalog(&pairs);
    CatalogPlan { updates, bumps }
}

/// The ports that have to be written for a list of workloads, and the
/// catalogs that get a new version.
#[derive(Debug)]
pub struct PortPlan {
    pub ports: Vec<Option<Vec<KubeServicePort>>>,
    pub bumps: Vec<CatalogBump>,
}

/// The labels of a workload; none where nothing is stored.
pub open spec fn labels_or_none(labels: Map<u128, TextMap<String>>, id: u128) -> Map<
    Seq<char>,
    Seq<char>,
> {
    if labels.contains_key(id) {
        labels[id].texts()
    } else {
        Map::empty()
    }
}

/// The ports that services give a workload now.
pub open spec fn current_ports(
    workload: CatalogWorkload,
    labels: Map<u128, TextMap<String>>,
    services: Vec<CachedClusterService>,
) -> Seq<ServicePortView> {
    workload_ports(labels_or_none(labels, workload.id), service_views(services@))
}

/// The catalogs and workloads whose ports are written.
pub open spec fn rewritten(
    workloads: Seq<CatalogWorkload>,
    ports: Seq<Option<Vec<KubeServicePort>>>,
) -> Seq<(u128, u128)>
    decreases workloads.len(),
{
    if workloads.len() == 0 || ports.len() != workloads.len() {
        seq![]
    } else {
        let earlier = rewritten(workloads.drop_last(), ports.drop_last());
        if ports.last() is Some {
            earlier.push((workloads.last().app_catalog_id, workloads.last().id))
        } else {
            earlier
        }
    }
}

/// Works out what the catalog needs after a service changed that selects
/// workloads. For each workload that it selects the services are given that
/// may offer it.
pub fn reconcile_workload_ports(
    workloads: &Vec<CatalogWorkload>,
    labels: &HashMap<u128, TextMap<String>>,
    services: &Vec<Vec<CachedClusterService>>,
) -> (r: PortPlan)
    requires
        services@.len() == workloads@.len(),
    ensures
        r.ports@.len() == workloads@.len(),
        forall|i: int|
            #![trigger r.ports@[i]]
            0 <= i < workloads@.len() ==> {
                let now = current_ports(workloads@[i], labels@, services@[i]);
                match r.ports@[i] {
                    None => workloads@[i].ports_canonical && now == service_port_views(
                        workloads@[i].ports@,
                    ),
                    Some(p) => service_port_views(p@) == now && !(workloads@[i].ports_canonical
                        && now == service_port_views(workloads@[i].ports@)),
                }
            },
        bump_views(r.bumps@) == grouped(rewritten(workloads@, r.ports@)),
{
    let mut ports: Vec<Option<Vec<KubeServicePort>>> = Vec::new();
    let mut pairs: Vec<(u128, u128)> = Vec::new();
    let none: TextMap<String> = TextMap::new();
    let mut i: usize = 0;
    proof {
        assert(none.texts() =~= Map::<Seq<char>, Seq<char>>::empty());
        assert(workloads@.take(0) =~= Seq::<CatalogWorkload>::empty());
        assert(pairs@ =~= Seq::<(u128, u128)>::empty());
    }
    while i < workloads.len()
        invariant
            i <= workloads@.len(),
            services@.len() == workloads@.len(),
            none.texts() == Map::<Seq<char>, Seq<char>>::empty(),
            ports@.len() == i,
            forall|k: int|
                #![trigger ports@[k]]
                0 <= k < i ==> {
                    let now = current_ports(workloads@[k], labels@, services@[k]);
                    match ports@[k] {
                        None => workloads@[k].ports_canonical && now == service_port_views(
                            workloads@[k].ports@,
                        ),
                        Some(p) => service_port_views(p@) == now && !(workloads@[k].ports_canonical
                            && now == service_port_views(workloads@[k].ports@)),
                    }
                },
            pairs@ == rewritten(workloads@.take(i as int), ports@),
        decreases workloads@.len() - i,
    {
        let workload: &CatalogWorkload = &workloads[i];
        let ghost before = ports@;
        proof {
            assert(workloads@.take(i as int + 1).drop_last() =~= workloads@.take(i as int));
            assert(workloads@.take(i as int + 1).last() == *workload);
        }
        let now: Vec<KubeServicePort> = match labels.get(&workload.id) {
            Some(mine) => ports_from_cached_services(mine, &services[i]),
            None => ports_from_cached_services(&none, &services[i]),
        };
        if workload.ports_canonical && same_service_ports(&now, &workload.ports) {
            ports.push(None);
        } else {
            pairs.push((workload.app_catalog_id, workload.id));
            ports.push(Some(now));
        }
        proof {
            assert(ports@.drop_last() =~= before);
        }
        i = i + 1;
    }
    proof {
        assert(workloads@.take(workloads@.len() as int) =~= workloads@);
    }
    let bumps: Vec<CatalogBump> = group_by_catalog(&pairs);
    PortPlan { ports, bumps }
}

/// Each pair the other way round.
pub open spec fn swapped(rows: Seq<(u128, u128)>) -> Seq<(u128, u128)> {
    Seq::new(rows.len(), |i: int| (rows[i].1, rows[i].0))
}

/// The catalogs that get a new version after a ConfigMap or a Secret changed,
/// given the workloads that read it, each with its catalog.
pub fn dependency_bumps(rows: &Vec<(u128, u128)>) -> (r: Vec<CatalogBump>)
    ensures
        bump_views(r@) == grouped(swapped(rows@)),
{
    let mut pairs: Vec<(u128, u128)> = Vec::new();
    let mut i: usize = 0;
    while i < rows.len()
        invariant
            i <= rows@.len(),
            pairs@ == swapped(rows@).take(i as int),
        decreases rows@.len() - i,
    {
        pairs.push((rows[i].1, rows[i].0));
        proof {
            assert(swapped(rows@).take(i as int + 1) =~= swapped(rows@).take(i as int).push(
                swapped(rows@)[i as int],
            ));
        }
        i = i + 1;
    }
    proof {
        assert(swapped(rows@).take(rows@.len() as int) =~= swapped(rows@));
    }
    group_by_catalog(&pairs)
}

// ---------------------------------------------------------------------------
// Services
// ---------------------------------------------------------------------------

/// The port of a pod that a service port leads to.
#[derive(Debug, PartialEq, Eq)]
pub enum TargetPort {
    Number(i32),
    Name(String),
}

/// A port of a service as its manifest says it.
#[derive(Debug, PartialEq, Eq)]
pub struct ServicePortSpec {
    pub name: Option<String>,
    pub port: i32,
    pub target_port: Option<TargetPort>,
    pub protocol: Option<String>,
    pub app_protocol: Option<String>,
    pub node_port: Option<i32>,
}

/// A service as its manifest says it.
#[derive(Debug)]
pub struct ServiceSpec {
    pub selector: TextMap<String>,
    pub ports: Vec<ServicePortSpec>,
    pub service_type: Option<String>,
    pub cluster_ip: Option<String>,
}

/// `t` is the target port that a document says.
pub open spec fn is_target_port(j: Option<JsonView>, t: Option<TargetPort>) -> bool {
    match j {
        Some(JsonView::Text(name)) => t matches Some(TargetPort::Name(n)) && n@ == name,
        _ => match i32_of(j) {
            Some(v) => t == Some(TargetPort::Number(v)),
            None => t is None,
        },
    }
}

/// `p` is the port that a document says.
pub open spec fn is_service_port(j: JsonView, p: ServicePortSpec) -> bool {
    &&& opt_text(p.name) == text_of(member(j, "name"@))
    &&& p.port == match i32_of(member(j, "port"@)) {
        Some(v) => v,
        None => 0i32,
    }
    &&& is_target_port(member(j, "targetPort"@), p.target_port)
    &&& opt_text(p.protocol) == text_of(member(j, "protocol"@))
    &&& opt_text(p.app_protocol) == text_of(member(j, "appProtocol"@))
    &&& p.node_port == i32_of(member(j, "nodePort"@))
}

/// `s` is the service that a manifest with the given content says.
pub open spec fn is_service(doc: JsonView, s: ServiceSpec) -> bool {
    let section = member(doc, "spec"@);
    let ports = items_of(member_of(section, "ports"@));
    &&& s.selector.texts() == texts_of(member_of(section, "selector"@))
    &&& s.ports@.len() == ports.len()
    &&& forall|i: int| 0 <= i < ports.len() ==> is_service_port(ports[i], #[trigger] s.ports@[i])
    &&& opt_text(s.service_type) == text_of(member_of(section, "type"@))
    &&& opt_text(s.cluster_ip) == text_of(member_of(section, "clusterIP"@))
}

fn target_port_in(j: Option<&Json>) -> (r: Option<TargetPort>)
    ensures
        is_target_port(opt_view(j), r),
{
    match j {
        Some(Json::Text(name)) => Some(TargetPort::Name(name.clone())),
        _ => match i32_in(j) {
            Some(v) => Some(TargetPort::Number(v)),
            None => None,
        },
    }
}

/// Reads a service out of its manifest.
pub fn extract_service(doc: &Json) -> (r: ServiceSpec)
    ensures
        is_service(doc@, r),
{
    let section: Option<&Json> = doc.get("spec");
    let mut ports: Vec<ServicePortSpec> = Vec::new();
    let ghost all = items_of(member_of(member(doc@, "spec"@), "ports"@));
    if let Some(items) = list_in(get_in(section, "ports")) {
        let mut i: usize = 0;
        while i < items.len()
            invariant
                i <= items@.len(),
                all == json_views(items@),
                ports@.len() == i,
                forall|k: int| 0 <= k < i ==> is_service_port(all[k], #[trigger] ports@[k]),
            decreases items@.len() - i,
        {
            let item: &Json = &items[i];
            proof {
                assert(all[i as int] == item@);
            }
            ports.push(
                ServicePortSpec {
                    name: text_in(item.get("name")),
                    port: match i32_in(item.get("port")) {
                        Some(v) => v,
                        None => 0,
                    },
                    target_port: target_port_in(item.get("targetPort")),
                    protocol: text_in(item.get("protocol")),
                    app_protocol: text_in(item.get("appProtocol")),
                    node_port: i32_in(item.get("nodePort")),
                },
            );
            i = i + 1;
        }
    }
    ServiceSpec {
        selector: texts_in(get_in(section, "selector")),
        ports,
        service_type: text_in(get_in(section, "type")),
        cluster_ip: text_in(get_in(section, "clusterIP")),
    }
}

/// A text that may be missing, as a JSON document.
pub open spec fn text_json(text: Option<Seq<char>>) -> JsonView {
    match text {
        Some(t) => JsonView::Text(t),
        None => JsonView::Null,
    }
}

/// A number as a JSON document.
pub open spec fn number_json(n: i32) -> JsonView {
    JsonView::Number(signed_decimal(n as int))
}

/// A target port that may be missing, as a JSON document.
pub open spec fn target_port_json(t: Option<TargetPort>) -> JsonView {
    match t {
        Some(TargetPort::Number(n)) => number_json(n),
        Some(TargetPort::Name(name)) => JsonView::Text(name@),
        None => JsonView::Null,
    }
}

/// A port as it is stored.
pub open spec fn port_json(p: ServicePortSpec) -> JsonView {
    JsonView::Object(
        seq![
            ("app_protocol"@, text_json(opt_text(p.app_protocol))),
            (
                "name"@,
                text_json(opt_text(p.name)),
            ),
            (
                "node_port"@,
                match p.node_port {
                    Some(n) => number_json(n),
                    None => JsonView::Null,
                },
            ),
            ("port"@, number_json(p.port)),
            ("protocol"@, text_json(opt_text(p.protocol))),
            ("target_port"@, target_port_json(p.target_port)),
        ],
    )
}

/// The ports of a service as they are stored.
pub open spec fn ports_json(ports: Seq<ServicePortSpec>) -> JsonView {
    JsonView::List(Seq::new(ports.len(), |i: int| port_json(ports[i])))
}

fn stored_text(text: &Option<String>) -> (r: Json)
    ensures
        r@ == text_json(opt_text(*text)),
{
    match text {
        Some(t) => Json::Text(t.clone()),
        None => Json::Null,
    }
}

fn stored_number(n: i32) -> (r: Json)
    ensures
        r@ == number_json(n),
{
    Json::Number(format_i64(n as i64))
}

fn stored_port(p: &ServicePortSpec) -> (r: Json)
    ensures
        r@ == port_json(*p),
{
    let target: Json = match &p.target_port {
        Some(TargetPort::Number(n)) => stored_number(*n),
        Some(TargetPort::Name(name)) => Json::Text(name.clone()),
        None => Json::Null,
    };
    let node_port: Json = match p.node_port {
        Some(n) => stored_number(n),
        None => Json::Null,
    };
    let mut members: Vec<(String, Json)> = Vec::new();
    members.push(("app_protocol".to_owned(), stored_text(&p.app_protocol)));
    members.push(("name".to_owned(), stored_text(&p.name)));
    members.push(("node_port".to_owned(), node_port));
    members.push(("port".to_owned(), stored_number(p.port)));
    members.push(("protocol".to_owned(), stored_text(&p.protocol)));
    members.push(("target_port".to_owned(), target));
    let ghost list = members@;
    let r = Json::Object(members);
    proof {
        let stored = port_json(*p)->Object_0;
        assert forall|i: int| 0 <= i < 6 implies #[trigger] r@->Object_0[i] == stored[i] by {
            assert(r@->Object_0[i] == (list[i].0@, json_view(list[i].1)));
        }
        assert(r@->Object_0 =~= stored);
    }
    r
}

/// The ports of a service as they are stored: an object for each, with the
/// members that are missing in the manifest as nulls.
pub fn service_ports_json(s: &ServiceSpec) -> (r: Json)
    ensures
        r@ == ports_json(s.ports@),
{
    let mut items: Vec<Json> = Vec::new();
    let mut i: usize = 0;
    while i < s.ports.len()
        invariant
            i <= s.ports@.len(),
            items@.len() == i,
            forall|k: int| 0 <= k < i ==> json_view(#[trigger] items@[k]) == port_json(s.ports@[k]),
        decreases s.ports@.len() - i,
    {
        items.push(stored_port(&s.ports[i]));
        i = i + 1;
    }
    let r = Json::List(items);
    proof {
        assert(r@->List_0 =~= ports_json(s.ports@)->List_0);
    }
    r
}

/// The selector of a service as it is stored: an object of texts.
pub fn service_selector_json(s: &ServiceSpec) -> (r: Json)
    ensures
        only_texts(r@),
        texts_of(Some(r@)) == s.selector.texts(),
{
    json_of_texts(&s.selector)
}

/// What a YAML text says as a `Service`, as a JSON document or the text of
/// the parser's error.
pub uninterp spec fn service_content(yaml: Seq<char>) -> Result<JsonView, Seq<char>>;

/// `serde_yaml::from_str` into a `Service` of `k8s_openapi`, handed on by
/// `serde_json::to_value` under the member names of the Kubernetes API.
#[verifier::external_body]
pub(crate) fn service_value(yaml: &str) -> (r: Result<serde_json::Value, String>)
    ensures
        match r {
            Ok(v) => service_content(yaml@) == Ok::<JsonView, Seq<char>>(value_content(v)),
            Err(e) => service_content(yaml@) == Err::<JsonView, Seq<char>>(e@),
        },
{
    let parsed: k8s_openapi::api::core::v1::Service = serde_yaml::from_str(yaml).map_err(|e| e.to_string())?;
    serde_json::to_value(parsed).map_err(|e| e.to_string())
}

/// What a change of a service asks for.
#[derive(Debug)]
pub enum ServiceChange {
    /// To forget the service, then to reconcile what it selected, if it
    /// selected anything.
    Forget,
    /// To remember the service, then to reconcile what it selects, if it
    /// selects anything.
    Remember(ServiceSpec),
    /// The event has no manifest.
    MissingYaml,
    /// The manifest cannot be read; the text of the error.
    Unusable(String),
}

/// Decides what a change of a service asks for.
pub fn handle_service_change(event: &ResourceChangeEvent) -> (r: ServiceChange)
    ensures
        if event.change_type == ResourceChangeType::Deleted {
            r is Forget
        } else {
            match event.resource_yaml {
                None => r is MissingYaml,
                Some(yaml) => match service_content(yaml@) {
                    Err(text) => r matches ServiceChange::Unusable(e) && e@ == text,
                    Ok(doc) => r matches ServiceChange::Remember(s) && is_service(doc, s),
                },
            }
        },
{
    if event.change_type == ResourceChangeType::Deleted {
        return ServiceChange::Forget;
    }
    match &event.resource_yaml {
        None => ServiceChange::MissingYaml,
        Some(yaml) => match service_value(yaml.as_str()) {
            Err(e) => ServiceChange::Unusable(e),
            Ok(v) => {
                let doc: Json = json_of(v);
                ServiceChange::Remember(extract_service(&doc))
            },
        },
    }
}

/// The selector selects workloads. An empty one selects none.
pub open spec fn selects(selector: Map<Seq<char>, Seq<char>>) -> bool {
    selector != Map::<Seq<char>, Seq<char>>::empty()
}

/// Tells whether workloads have to be reconciled with a selector. Nothing is
/// looked up for an empty one.
pub fn selector_needs_reconcile(selector: &TextMap<String>) -> (r: bool)
    ensures
        r == selects(selector.texts()),
{
    proof {
        let texts = selector.texts();
        if selector@ =~= Map::<Seq<char>, String>::empty() {
            assert(texts =~= Map::<Seq<char>, Seq<char>>::empty());
        } else {
            assert(selector@.dom() =~= texts.dom());
            if texts =~= Map::<Seq<char>, Seq<char>>::empty() {
                assert(selector@ =~= Map::<Seq<char>, String>::empty());
            }
        }
    }
    !selector.is_empty()
}

/// Tells whether workloads have to be reconciled with a service that is
/// remembered.
pub fn needs_reconcile(s: &ServiceSpec) -> (r: bool)
    ensures
        r == (s.selector.texts() != Map::<Seq<char>, Seq<char>>::empty()),
{
    selector_needs_reconcile(&s.selector)
}

/// Tells whether workloads have to be reconciled with a service that is
/// forgotten, by the selector that is stored of it.
pub fn forgotten_needs_reconcile(stored: Option<&TextMap<String>>) -> (r: bool)
    ensures
        r == (match stored {
            Some(selector) => selector.texts() != Map::<Seq<char>, Seq<char>>::empty(),
            None => false,
        }),
{
    match stored {
        Some(selector) => selector_needs_reconcile(selector),
        None => false,
    }
}

// ---------------------------------------------------------------------------
// Ready replicas
// ---------------------------------------------------------------------------

/// An environment as far as it matters here.
#[derive(Debug, Clone, Copy, PartialEq, Eq, Structural)]
pub struct EnvironmentRecord {
    pub id: u128,
    pub cluster_id: u128,
    pub organization_id: u128,
}

/// A workload of an environment as far as it matters here.
#[derive(Debug, Clone, Copy, PartialEq, Eq, Structural)]
pub struct WorkloadRecord {
    pub id: u128,
    pub ready_replicas: Option<i32>,
}

/// A changed number of ready replicas.
#[derive(Debug, Clone, Copy, PartialEq, Eq, Structural)]
pub struct EnvironmentWorkloadStatusEvent {
    pub organization_id: u128,
    pub environment_id: u128,
    pub workload_id: u128,
    pub ready_replicas: Option<i32>,
    pub updated_at: i64,
}

/// Where the environment of a workload is looked up.
#[derive(Debug, Clone, Copy, PartialEq, Eq, Structural)]
pub enum EnvironmentLookup {
    ById(u128),
    ByNamespace,
}

/// The identifier that a label holds.
pub open spec fn label_id(labels: Map<Seq<char>, Seq<char>>, key: Seq<char>) -> Option<u128> {
    if labels.contains_key(key) {
        parsed_id(labels[key])
    } else {
        None
    }
}

fn id_label(labels: &TextMap<String>, key: &str) -> (r: Option<u128>)
    ensures
        r == label_id(labels.texts(), key@),
{
    match labels.get(key) {
        Some(text) => id_from_str(text.as_str()),
        None => None,
    }
}

/// Where the environment of a workload with these labels is looked up.
pub fn environment_lookup(metadata_labels: &TextMap<String>) -> (r: EnvironmentLookup)
    ensures
        r == match label_id(metadata_labels.texts(), "lapdev.io/branch-environment-id"@) {
            Some(id) => EnvironmentLookup::ById(id),
            None => EnvironmentLookup::ByNamespace,
        },
{
    match id_label(metadata_labels, "lapdev.io/branch-environment-id") {
        Some(id) => EnvironmentLookup::ById(id),
        None => EnvironmentLookup::ByNamespace,
    }
}

/// How the workload of an environment is looked up.
#[derive(Debug, Clone, Copy, PartialEq, Eq, Structural)]
pub enum WorkloadLookup {
    /// There is no environment, so nothing is to be done.
    Stop,
    /// By the workload that it branches from, then by name.
    ByBaseThenName { environment: EnvironmentRecord, base_workload_id: u128 },
    /// By name.
    ByName { environment: EnvironmentRecord },
}

/// How the workload is looked up once its environment was. An environment
/// that a label names has to belong to the cluster.
pub fn workload_lookup(
    lookup: EnvironmentLookup,
    cluster_id: u128,
    environment: Option<EnvironmentRecord>,
    metadata_labels: &TextMap<String>,
) -> (r: WorkloadLookup)
    ensures
        r == match environment {
            None => WorkloadLookup::Stop,
            Some(env) => if lookup is ById && env.cluster_id != cluster_id {
                WorkloadLookup::Stop
            } else {
                match label_id(metadata_labels.texts(), "lapdev.base-workload-id"@) {
                    Some(base) => WorkloadLookup::ByBaseThenName {
                        environment: env,
                        base_workload_id: base,
                    },
                    None => WorkloadLookup::ByName { environment: env },
                }
            },
        },
{
    let env: EnvironmentRecord = match environment {
        Some(env) => env,
        None => return WorkloadLookup::Stop,
    };
    if let EnvironmentLookup::ById(_) = lookup {
        if env.cluster_id != cluster_id {
            return WorkloadLookup::Stop;
        }
    }
    match id_label(metadata_labels, "lapdev.base-workload-id") {
        Some(base_workload_id) => WorkloadLookup::ByBaseThenName {
            environment: env,
            base_workload_id,
        },
        None => WorkloadLookup::ByName { environment: env },
    }
}

/// What has to be written and told once the workload was looked up: nothing
/// where it is unknown or its number of ready replicas stays the same.
pub fn ready_replicas_update(
    environment: EnvironmentRecord,
    workload: Option<WorkloadRecord>,
    ready_replicas: Option<i32>,
    event_timestamp: i64,
) -> (r: Option<EnvironmentWorkloadStatusEvent>)
    ensures
        r == match workload {
            Some(w) => if w.ready_replicas == ready_replicas {
                None
            } else {
                Some(
                    EnvironmentWorkloadStatusEvent {
                        organization_id: environment.organization_id,
                        environment_id: environment.id,
                        workload_id: w.id,
                        ready_replicas,
                        updated_at: event_timestamp,
                    },
                )
            },
            None => None,
        },
{
    match workload {
        Some(w) => {
            if same_opt_i32(w.ready_replicas, ready_replicas) {
                None
            } else {
                Some(
                    EnvironmentWorkloadStatusEvent {
                        organization_id: environment.organization_id,
                        environment_id: environment.id,
                        workload_id: w.id,
                        ready_replicas,
                        updated_at: event_timestamp,
                    },
                )
            }
        },
        None => None,
    }
}

// ---------------------------------------------------------------------------
// Routes to branches
// ---------------------------------------------------------------------------

/// The names under which a branch serves the ports of one service.
pub open spec fn named_ports(
    names: Map<u16, Seq<char>>,
    name: Seq<char>,
    ports: Seq<ServicePortView>,
) -> Map<u16, Seq<char>>
    decreases ports.len(),
{
    if ports.len() == 0 {
        names
    } else {
        let earlier = named_ports(names, name, ports.drop_last());
        let port = ports.last().port;
        if 0 <= port <= u16::MAX {
            earlier.insert(port as u16, name)
        } else {
            earlier
        }
    }
}

/// The names under which a branch serves the ports of services. A later
/// service replaces an earlier one at a port.
pub open spec fn branch_names(
    branch: u128,
    services: Seq<crate::catalog::ServiceView>,
) -> Map<u16, Seq<char>>
    decreases services.len(),
{
    if services.len() == 0 {
        Map::empty()
    } else {
        named_ports(
            branch_names(branch, services.drop_last()),
            services.last().name + ("-"@ + id_text(branch)),
            services.last().ports,
        )
    }
}

/// What a map of names holds.
pub open spec fn name_texts(names: Map<u16, String>) -> Map<u16, Seq<char>> {
    names.map_values(|s: String| s@)
}

/// `route` leads to a branch under the given names, for its owner.
pub open spec fn is_branch_route(
    branch: u128,
    names: Map<u16, Seq<char>>,
    route: ProxyBranchRouteConfig,
) -> bool {
    &&& route.branch_environment_id == branch
    &&& name_texts(route.service_names@) == names
    &&& route.headers.texts() == Map::<Seq<char>, Seq<char>>::empty()
    &&& route.requires_auth
    &&& route.access_level == ProxyRouteAccessLevel::Personal
    &&& route.timeout_ms is None
    &&& route.devbox_route is None
}

fn add_named_ports(names: &mut HashMap<u16, String>, name: &String, ports: &Vec<KubeServicePort>)
    ensures
        name_texts(final(names)@) == named_ports(
            name_texts(old(names)@),
            name@,
            service_port_views(ports@),
        ),
{
    let ghost start = name_texts(names@);
    let ghost all = service_port_views(ports@);
    let mut i: usize = 0;
    proof {
        assert(all.take(0) =~= Seq::<ServicePortView>::empty());
    }
    while i < ports.len()
        invariant
            i <= ports@.len(),
            all == service_port_views(ports@),
            name_texts(names@) == named_ports(start, name@, all.take(i as int)),
        decreases ports@.len() - i,
    {
        let port: i32 = ports[i].port;
        let ghost before = names@;
        proof {
            assert(all.take(i as int + 1).drop_last() =~= all.take(i as int));
            assert(all.take(i as int + 1).last() == ports@[i as int]@);
        }
        if 0 <= port && port <= 65535 {
            let copy: String = name.clone();
            names.insert(port as u16, copy);
            proof {
                assert(name_texts(names@) =~= name_texts(before).insert(port as u16, name@));
            }
        }
        i = i + 1;
    }
    proof {
        assert(all.take(all.len() as int) =~= all);
    }
}

/// The route to a branch through the services that it shares; none where no
/// port can be served.
pub fn build_branch_service_route_config_from_services(
    branch_environment_id: u128,
    shared_services: &Vec<CachedClusterService>,
) -> (r: Option<ProxyBranchRouteConfig>)
    ensures
        ({
            let names = branch_names(branch_environment_id, service_views(shared_services@));
            match r {
                Some(route) => names != Map::<u16, Seq<char>>::empty() && is_branch_route(
                    branch_environment_id,
                    names,
                    route,
                ),
                None => names == Map::<u16, Seq<char>>::empty(),
            }
        }),
{
    let ghost all = service_views(shared_services@);
    let mut service_names: HashMap<u16, String> = HashMap::new();
    let id: String = id_to_string(branch_environment_id);
    let suffix: String = concat("-", id.as_str());
    let mut i: usize = 0;
    proof {
        assert(all.take(0) =~= Seq::<crate::catalog::ServiceView>::empty());
        assert(name_texts(service_names@) =~= Map::<u16, Seq<char>>::empty());
    }
    while i < shared_services.len()
        invariant
            i <= shared_services@.len(),
            all == service_views(shared_services@),
            suffix@ == "-"@ + id_text(branch_environment_id),
            name_texts(service_names@) == branch_names(branch_environment_id, all.take(i as int)),
        decreases shared_services@.len() - i,
    {
        proof {
            assert(all.take(i as int + 1).drop_last() =~= all.take(i as int));
            assert(all.take(i as int + 1).last() == shared_services@[i as int]@);
        }
        let name: String = concat(shared_services[i].name.as_str(), suffix.as_str());
        add_named_ports(&mut service_names, &name, &shared_services[i].ports);
        i = i + 1;
    }
    proof {
        assert(all.take(all.len() as int) =~= all);
    }
    if service_names.is_empty() {
        proof {
            assert(name_texts(service_names@) =~= Map::<u16, Seq<char>>::empty());
        }
        return None;
    }
    let headers: TextMap<String> = TextMap::new();
    proof {
        assert(headers.texts() =~= Map::<Seq<char>, Seq<char>>::empty());
        if name_texts(service_names@) == Map::<u16, Seq<char>>::empty() {
            assert forall|k: u16| !service_names@.contains_key(k) by {
                assert(name_texts(service_names@).contains_key(k) == service_names@.contains_key(
                    k,
                ));
            }
            assert(service_names@ =~= Map::<u16, String>::empty());
        }
    }
    Some(
        ProxyBranchRouteConfig {
            branch_environment_id,
            service_names,
            headers,
            requires_auth: true,
            access_level: ProxyRouteAccessLevel::Personal,
            timeout_ms: None,
            devbox_route: None,
        },
    )
}

/// A branch is listed: it is another environment, known, and of the cluster.
pub open spec fn is_listed_branch(
    environment_id: u128,
    cluster_id: u128,
    branch: (u128, Option<EnvironmentRecord>),
) -> bool {
    branch.0 != environment_id && (branch.1 matches Some(env) && env.cluster_id == cluster_id)
}

/// The branches that routes are listed for, in order.
pub open spec fn listed_branches(
    environment_id: u128,
    cluster_id: u128,
    branches: Seq<(u128, Option<EnvironmentRecord>)>,
) -> Seq<u128>
    decreases branches.len(),
{
    if branches.len() == 0 {
        seq![]
    } else {
        let earlier = listed_branches(environment_id, cluster_id, branches.drop_last());
        if is_listed_branch(environment_id, cluster_id, branches.last()) {
            earlier.push(branches.last().0)
        } else {
            earlier
        }
    }
}

/// Those of the branches that have a port to serve. All share the services,
/// so it is all of them or none.
pub open spec fn routed_branches(
    branches: Seq<u128>,
    services: Seq<crate::catalog::ServiceView>,
) -> Seq<u128>
    decreases branches.len(),
{
    if branches.len() == 0 {
        seq![]
    } else {
        let earlier = routed_branches(branches.drop_last(), services);
        if branch_names(branches.last(), services) != Map::<u16, Seq<char>>::empty() {
            earlier.push(branches.last())
        } else {
            earlier
        }
    }
}

/// `routes` are those to all branches of a workload, in order.
pub open spec fn are_branch_routes(
    environment_id: u128,
    cluster_id: u128,
    services: Seq<crate::catalog::ServiceView>,
    branches: Seq<(u128, Option<EnvironmentRecord>)>,
    routes: Seq<ProxyBranchRouteConfig>,
) -> bool {
    let routed = routed_branches(listed_branches(environment_id, cluster_id, branches), services);
    &&& routes.len() == routed.len()
    &&& forall|i: int|
        0 <= i < routed.len() ==> is_branch_route(
            routed[i],
            branch_names(routed[i], services),
            #[trigger] routes[i],
        )
}

/// The routes to all branches of a workload, given each branch's environment
/// where it is known.
pub fn branch_service_routes(
    environment_id: u128,
    cluster_id: u128,
    shared_services: &Vec<CachedClusterService>,
    branches: &Vec<(u128, Option<EnvironmentRecord>)>,
) -> (r: Vec<ProxyBranchRouteConfig>)
    ensures
        are_branch_routes(
            environment_id,
            cluster_id,
            service_views(shared_services@),
            branches@,
            r@,
        ),
{
    let ghost services = service_views(shared_services@);
    let mut out: Vec<ProxyBranchRouteConfig> = Vec::new();
    let mut i: usize = 0;
    let ghost mut listed: Seq<u128> = seq![];
    let ghost mut routed: Seq<u128> = seq![];
    proof {
        assert(branches@.take(0) =~= Seq::<(u128, Option<EnvironmentRecord>)>::empty());
    }
    while i < branches.len()
        invariant
            i <= branches@.len(),
            services == service_views(shared_services@),
            listed == listed_branches(environment_id, cluster_id, branches@.take(i as int)),
            routed == routed_branches(listed, services),
            out@.len() == routed.len(),
            forall|k: int|
                0 <= k < routed.len() ==> is_branch_route(
                    routed[k],
                    branch_names(routed[k], services),
                    #[trigger] out@[k],
                ),
        decreases branches@.len() - i,
    {
        let (branch, environment) = branches[i];
        proof {
            assert(branches@.take(i as int + 1).drop_last() =~= branches@.take(i as int));
            assert(branches@.take(i as int + 1).last() == branches@[i as int]);
        }
        let listed_branch: bool = branch != environment_id && match environment {
            Some(env) => env.cluster_id == cluster_id,
            None => false,
        };
        if listed_branch {
            proof {
                assert(listed.push(branch).drop_last() =~= listed);
                listed = listed.push(branch);
            }
            if let Some(route) = build_branch_service_route_config_from_services(
                branch,
                shared_services,
            ) {
                out.push(route);
                proof {
                    routed = routed.push(branch);
                }
            }
        }
        i = i + 1;
    }
    proof {
        assert(branches@.take(branches@.len() as int) =~= branches@);
    }
    out
}

/// Why an environment cannot be used.
#[derive(Debug, PartialEq, Eq)]
pub enum EnvironmentError {
    FetchFailed { environment_id: u128, error: String },
    NotFound(u128),
    OtherCluster { environment_id: u128, cluster_id: u128 },
}

impl EnvironmentError {
    /// The text of the error.
    pub open spec fn text(&self) -> Seq<char> {
        match self {
            EnvironmentError::FetchFailed { environment_id, error } =>
            "Failed to fetch environment "@ + id_text(*environment_id) + ": "@ + error@,
            EnvironmentError::NotFound(id) => "Environment "@ + id_text(*id) + " not found"@,
            EnvironmentError::OtherCluster { environment_id, cluster_id } => "Environment "@
                + id_text(*environment_id) + " does not belong to cluster "@ + id_text(
                *cluster_id,
            ),
        }
    }

    pub fn message(&self) -> (r: String)
        ensures
            r@ == self.text(),
    {
        match self {
            EnvironmentError::FetchFailed { environment_id, error } => {
                let id: String = id_to_string(*environment_id);
                let head: String = concat3("Failed to fetch environment ", id.as_str(), ": ");
                concat(head.as_str(), error.as_str())
            },
            EnvironmentError::NotFound(id) => {
                let id: String = id_to_string(*id);
                concat3("Environment ", id.as_str(), " not found")
            },
            EnvironmentError::OtherCluster { environment_id, cluster_id } => {
                let id: String = id_to_string(*environment_id);
                let head: String = concat3(
                    "Environment ",
                    id.as_str(),
                    " does not belong to cluster ",
                );
                let cluster: String = id_to_string(*cluster_id);
                concat(head.as_str(), cluster.as_str())
            },
        }
    }
}

/// What keeps an environment that was looked up from being used.
pub open spec fn environment_failure(
    environment_id: u128,
    cluster_id: u128,
    found: Result<Option<EnvironmentRecord>, String>,
) -> Option<EnvironmentError> {
    match found {
        Err(error) => Some(EnvironmentError::FetchFailed { environment_id, error }),
        Ok(None) => Some(EnvironmentError::NotFound(environment_id)),
        Ok(Some(env)) => if env.cluster_id != cluster_id {
            Some(EnvironmentError::OtherCluster { environment_id, cluster_id })
        } else {
            None
        },
    }
}

/// Checks that an environment that was looked up is known and of the cluster.
pub fn check_environment(
    environment_id: u128,
    cluster_id: u128,
    found: Result<Option<EnvironmentRecord>, String>,
) -> (r: Result<EnvironmentRecord, EnvironmentError>)
    ensures
        match environment_failure(environment_id, cluster_id, found) {
            Some(e) => r == Err::<EnvironmentRecord, EnvironmentError>(e),
            None => r matches Ok(env) && found == Ok::<Option<EnvironmentRecord>, String>(
                Some(env),
            ),
        },
{
    match found {
        Err(error) => Err(EnvironmentError::FetchFailed { environment_id, error }),
        Ok(None) => Err(EnvironmentError::NotFound(environment_id)),
        Ok(Some(env)) => {
            if env.cluster_id != cluster_id {
                Err(EnvironmentError::OtherCluster { environment_id, cluster_id })
            } else {
                Ok(env)
            }
        },
    }
}

// ---------------------------------------------------------------------------
// Laws
// ---------------------------------------------------------------------------

/// Services, ConfigMaps and Secrets have a handler each, and all other
/// resources are workloads.
pub proof fn law_every_change_has_its_handler(resource_type: ResourceType, r: ChangeHandler)
    requires
        call_ensures(change_handler, (resource_type,), r),
    ensures
        (r == ChangeHandler::Service) == (resource_type == ResourceType::Service),
        (r == ChangeHandler::ConfigMap) == (resource_type == ResourceType::ConfigMap),
        (r == ChangeHandler::Secret) == (resource_type == ResourceType::Secret),
{
}

/// The resource is a workload.
pub open spec fn is_workload(resource_type: ResourceType) -> bool {
    resource_type != ResourceType::Service && resource_type != ResourceType::ConfigMap
        && resource_type != ResourceType::Secret
}

/// A workload that is gone is forgotten, with the labels that its manifest
/// still tells. One that is there is brought in step just where its manifest
/// can be read and has a container. Every other change is told apart: no
/// manifest, one that cannot be read, one without containers.
pub proof fn law_workload_changes_are_answered(
    event: ResourceChangeEvent,
    manifest: Option<Result<ExtractedWorkload, WorkloadError>>,
    r: WorkloadChange,
)
    requires
        call_ensures(decide_workload_change, (&event, manifest), r),
    ensures
        ({
            let gone = event.change_type == ResourceChangeType::Deleted;
            let workload = is_workload(event.resource_type);
            &&& (r is Forget) == (workload && gone)
            &&& (r is MissingYaml) == (workload && !gone && manifest is None)
            &&& (r is Unusable) == (workload && !gone && manifest matches Some(Err(_)))
            &&& (r is Sync) == (workload && !gone && (manifest matches Some(Ok(w))
                && w.containers@.len() > 0))
            &&& r matches WorkloadChange::Forget { metadata_labels } ==> match manifest {
                Some(Ok(w)) => metadata_labels.texts() == w.metadata_labels.texts(),
                _ => forall|k: Seq<char>| !#[trigger] metadata_labels.texts().contains_key(k),
            }
            &&& r matches WorkloadChange::Unusable(e) ==> manifest->0->Err_0@ == e@
            &&& r matches WorkloadChange::Sync { kind, workload: w } ==> {
                let m = manifest->0->Ok_0;
                &&& workload_kind(event.resource_type) == Some(kind)
                &&& w@ == m@
            }
        }),
{
    if let Some(Ok(w)) = manifest {
        assert(w@.containers.len() == w.containers@.len());
    }
}

proof fn lemma_groups(bumps: Seq<CatalogBump>, catalog: u128, workload: u128)
    ensures
        in_group(bump_views(bumps), catalog, workload) <==> exists|b: int|
            0 <= b < bumps.len() && (#[trigger] bumps[b]).catalog_id == catalog
                && bumps[b].workload_ids@.contains(workload),
        distinct_groups(bump_views(bumps)) <==> forall|a: int, b: int|
            0 <= a < b < bumps.len() ==> (#[trigger] bumps[a]).catalog_id != (
            #[trigger] bumps[b]).catalog_id,
{
    let groups = bump_views(bumps);
    assert(groups.len() == bumps.len());
    assert forall|b: int| 0 <= b < bumps.len() implies #[trigger] groups[b] == (
        bumps[b].catalog_id,
        bumps[b].workload_ids@,
    ) by {}
    if in_group(groups, catalog, workload) {
        let b = choose|b: int|
            0 <= b < groups.len() && (#[trigger] groups[b]).0 == catalog && groups[b].1.contains(
                workload,
            );
        assert(bumps[b].catalog_id == catalog);
    }
    if exists|b: int|
        0 <= b < bumps.len() && (#[trigger] bumps[b]).catalog_id == catalog
            && bumps[b].workload_ids@.contains(workload) {
        let b = choose|b: int|
            0 <= b < bumps.len() && (#[trigger] bumps[b]).catalog_id == catalog
                && bumps[b].workload_ids@.contains(workload);
        assert(groups[b].0 == catalog);
    }
    if distinct_groups(groups) {
        assert forall|a: int, b: int| 0 <= a < b < bumps.len() implies (
        #[trigger] bumps[a]).catalog_id != (#[trigger] bumps[b]).catalog_id by {
            assert(groups[a].0 != groups[b].0);
        }
    }
    if forall|a: int, b: int|
        0 <= a < b < bumps.len() ==> (#[trigger] bumps[a]).catalog_id != (
        #[trigger] bumps[b]).catalog_id {
        assert forall|a: int, b: int| 0 <= a < b < groups.len() implies (#[trigger] groups[a]).0
            != (#[trigger] groups[b]).0 by {
            assert(bumps[a].catalog_id != bumps[b].catalog_id);
        }
    }
}

proof fn lemma_bumped(
    workloads: Seq<CatalogWorkload>,
    updates: Seq<Option<CatalogWorkloadUpdate>>,
    catalog: u128,
    workload: u128,
)
    requires
        workloads.len() == updates.len(),
    ensures
        bumped(workloads, updates).contains((catalog, workload)) <==> exists|i: int|
            0 <= i < workloads.len() && (#[trigger] workloads[i]).app_catalog_id == catalog
                && workloads[i].id == workload && (updates[i] matches Some(u)
                && u.spec_requires_bump()),
    decreases workloads.len(),
{
    if workloads.len() > 0 {
        let n = workloads.len() - 1;
        let ws = workloads.drop_last();
        let us = updates.drop_last();
        lemma_bumped(ws, us, catalog, workload);
        let earlier = bumped(ws, us);
        let all = bumped(workloads, updates);
        assert(workloads[n] == workloads.last() && updates[n] == updates.last());
        if all.contains((catalog, workload)) {
            let k = choose|k: int| 0 <= k < all.len() && all[k] == (catalog, workload);
            if k < earlier.len() {
                assert(earlier[k] == all[k]);
                assert(earlier.contains((catalog, workload)));
                let i = choose|i: int|
                    0 <= i < ws.len() && (#[trigger] ws[i]).app_catalog_id == catalog && ws[i].id
                        == workload && (us[i] matches Some(u) && u.spec_requires_bump());
                assert(workloads[i] == ws[i] && updates[i] == us[i]);
            } else {
                assert(workloads[n].app_catalog_id == catalog);
            }
        }
        if exists|i: int|
            0 <= i < workloads.len() && (#[trigger] workloads[i]).app_catalog_id == catalog
                && workloads[i].id == workload && (updates[i] matches Some(u)
                && u.spec_requires_bump()) {
            let i = choose|i: int|
                0 <= i < workloads.len() && (#[trigger] workloads[i]).app_catalog_id == catalog
                    && workloads[i].id == workload && (updates[i] matches Some(u)
                    && u.spec_requires_bump());
            if i < n {
                assert(ws[i] == workloads[i] && us[i] == updates[i]);
                assert(earlier.contains((catalog, workload)));
                let k = choose|k: int| 0 <= k < earlier.len() && earlier[k] == (catalog, workload);
                assert(all[k] == earlier[k]);
            } else {
                assert(all[all.len() - 1] == (catalog, workload));
            }
        }
    }
}

/// A catalog gets a new version for just those of its workloads of which
/// something changed, and once at most.
pub proof fn law_changed_catalogs_get_a_version(
    kind: KubeWorkloadKind,
    workloads: Vec<CatalogWorkload>,
    facts: WorkloadFacts,
    state: ExistingCatalogState,
    r: CatalogPlan,
    catalog: u128,
    workload: u128,
)
    requires
        call_ensures(plan_catalog_sync, (kind, &workloads, &facts, &state), r),
    ensures
        r.updates@.len() == workloads@.len(),
        (exists|b: int|
            0 <= b < r.bumps@.len() && (#[trigger] r.bumps@[b]).catalog_id == catalog
                && r.bumps@[b].workload_ids@.contains(workload)) <==> exists|i: int|
            0 <= i < workloads@.len() && (#[trigger] workloads@[i]).app_catalog_id == catalog
                && workloads@[i].id == workload && (r.updates@[i] matches Some(u) && (
            u.containers_changed || u.ports_changed || u.spec_changed || u.labels_changed
                || u.dependencies_changed)),
        forall|a: int, b: int|
            0 <= a < b < r.bumps@.len() ==> (#[trigger] r.bumps@[a]).catalog_id != (
            #[trigger] r.bumps@[b]).catalog_id,
{
    lemma_bumped(workloads@, r.updates@, catalog, workload);
    law_grouped(bumped(workloads@, r.updates@));
    lemma_groups(r.bumps@, catalog, workload);
    assert(in_group(bump_views(r.bumps@), catalog, workload) <==> bumped(
        workloads@,
        r.updates@,
    ).contains((catalog, workload)));
    if exists|i: int|
        0 <= i < workloads@.len() && (#[trigger] workloads@[i]).app_catalog_id == catalog
            && workloads@[i].id == workload && (r.updates@[i] matches Some(u) && (
        u.containers_changed || u.ports_changed || u.spec_changed || u.labels_changed
            || u.dependencies_changed)) {
        let i = choose|i: int|
            0 <= i < workloads@.len() && (#[trigger] workloads@[i]).app_catalog_id == catalog
                && workloads@[i].id == workload && (r.updates@[i] matches Some(u) && (
            u.containers_changed || u.ports_changed || u.spec_changed || u.labels_changed
                || u.dependencies_changed));
        assert(r.updates@[i]->0.spec_requires_bump());
        assert(bumped(workloads@, r.updates@).contains((catalog, workload)));
    }
}

/// A workload is passed over just where it is known to be of another kind.
/// Else its update compares the manifest with the labels and the dependencies
/// that are stored of this very workload.
pub proof fn law_each_workload_is_compared(
    kind: KubeWorkloadKind,
    workloads: Vec<CatalogWorkload>,
    facts: WorkloadFacts,
    state: ExistingCatalogState,
    r: CatalogPlan,
    i: int,
)
    requires
        call_ensures(plan_catalog_sync, (kind, &workloads, &facts, &state), r),
        0 <= i < workloads@.len(),
    ensures
        (r.updates@[i] is None) == (workloads@[i].kind matches Some(k) && k != kind),
        r.updates@[i] matches Some(u) ==> {
            let id = workloads@[i].id;
            let new = facts.labels.texts();
            &&& !u.dependencies_changed <==> forall|n: Seq<char>|
                (#[trigger] facts.configmaps@.contains(n)) == (state.dependencies@.contains_key(
                    id,
                ) && state.dependencies@[id].0@.contains(n)) && facts.secrets@.contains(n) == (
                state.dependencies@.contains_key(id) && state.dependencies@[id].1@.contains(n))
            &&& !u.labels_changed <==> forall|k: Seq<char>|
                (#[trigger] new.contains_key(k)) == (state.labels@.contains_key(id)
                    && state.labels@[id].texts().contains_key(k)) && (new.contains_key(k)
                    ==> new[k] == state.labels@[id].texts()[k])
            &&& (u.workload_yaml matches Some(y) ==> y@ == facts.yaml@)
        },
{
    let w = workloads@[i];
    if let Some(u) = r.updates@[i] {
        let labels = state.labels_for(w.id);
        let dependencies = state.dependencies_for(w.id);
        lemma_update_of_dependencies(
            w,
            facts,
            stored_snapshot(w.workload_yaml@),
            labels,
            dependencies,
            u,
        );
        lemma_update_of_labels(
            w,
            facts,
            stored_snapshot(w.workload_yaml@),
            labels,
            dependencies,
            u,
        );
        assert(state.label_texts().contains_key(w.id) == state.labels@.contains_key(w.id));
        assert(state.dependency_names().contains_key(w.id) == state.dependencies@.contains_key(
            w.id,
        ));
    }
}

proof fn lemma_rewritten(
    workloads: Seq<CatalogWorkload>,
    ports: Seq<Option<Vec<KubeServicePort>>>,
    catalog: u128,
    workload: u128,
)
    requires
        workloads.len() == ports.len(),
    ensures
        rewritten(workloads, ports).contains((catalog, workload)) <==> exists|i: int|
            0 <= i < workloads.len() && (#[trigger] workloads[i]).app_catalog_id == catalog
                && workloads[i].id == workload && ports[i] is Some,
    decreases workloads.len(),
{
    if workloads.len() > 0 {
        let n = workloads.len() - 1;
        let ws = workloads.drop_last();
        let ps = ports.drop_last();
        lemma_rewritten(ws, ps, catalog, workload);
        let earlier = rewritten(ws, ps);
        let all = rewritten(workloads, ports);
        assert(workloads[n] == workloads.last() && ports[n] == ports.last());
        if all.contains((catalog, workload)) {
            let k = choose|k: int| 0 <= k < all.len() && all[k] == (catalog, workload);
            if k < earlier.len() {
                assert(earlier[k] == all[k]);
                assert(earlier.contains((catalog, workload)));
                let i = choose|i: int|
                    0 <= i < ws.len() && (#[trigger] ws[i]).app_catalog_id == catalog && ws[i].id
                        == workload && ps[i] is Some;
                assert(workloads[i] == ws[i] && ports[i] == ps[i]);
            } else {
                assert(workloads[n].app_catalog_id == catalog);
            }
        }
        if exists|i: int|
            0 <= i < workloads.len() && (#[trigger] workloads[i]).app_catalog_id == catalog
                && workloads[i].id == workload && ports[i] is Some {
            let i = choose|i: int|
                0 <= i < workloads.len() && (#[trigger] workloads[i]).app_catalog_id == catalog
                    && workloads[i].id == workload && ports[i] is Some;
            if i < n {
                assert(ws[i] == workloads[i] && ps[i] == ports[i]);
                assert(earlier.contains((catalog, workload)));
                let k = choose|k: int| 0 <= k < earlier.len() && earlier[k] == (catalog, workload);
                assert(all[k] == earlier[k]);
            } else {
                assert(all[all.len() - 1] == (catalog, workload));
            }
        }
    }
}

/// After a service changed, a workload is written the ports that its services
/// offer by its stored labels, unless it has just these. Its catalog gets a
/// new version where it is written, once at most.
pub proof fn law_ports_are_reconciled(
    workloads: Vec<CatalogWorkload>,
    labels: HashMap<u128, TextMap<String>>,
    services: Vec<Vec<CachedClusterService>>,
    r: PortPlan,
    i: int,
    mine: TextMap<String>,
    now: Vec<KubeServicePort>,
)
    requires
        services@.len() == workloads@.len(),
        call_ensures(reconcile_workload_ports, (&workloads, &labels, &services), r),
        0 <= i < workloads@.len(),
        labels@.contains_key(workloads@[i].id) ==> mine == labels@[workloads@[i].id],
        !labels@.contains_key(workloads@[i].id) ==> mine@ == Map::<Seq<char>, String>::empty(),
        call_ensures(ports_from_cached_services, (&mine, &services@[i]), now),
    ensures
        ({
            let same = now@.len() == workloads@[i].ports@.len() && forall|j: int|
                0 <= j < now@.len() ==> same_port(#[trigger] now@[j], workloads@[i].ports@[j]);
            match r.ports@[i] {
                None => workloads@[i].ports_canonical && same,
                Some(p) => !(workloads@[i].ports_canonical && same) && p@.len() == now@.len()
                    && forall|j: int|
                    0 <= j < now@.len() ==> same_port(#[trigger] p@[j], now@[j]),
            }
        }),
{
    if !labels@.contains_key(workloads@[i].id) {
        assert(mine.texts() =~= Map::<Seq<char>, Seq<char>>::empty());
    }
    assert(service_port_views(now@) == current_ports(workloads@[i], labels@, services@[i]));
    lemma_same_ports(now@, workloads@[i].ports@);
    if let Some(p) = r.ports@[i] {
        lemma_same_ports(p@, now@);
    }
}

/// The catalogs that get a new version after a service changed are those of
/// the workloads whose ports are written, once each.
pub proof fn law_reconciled_catalogs_get_a_version(
    workloads: Vec<CatalogWorkload>,
    labels: HashMap<u128, TextMap<String>>,
    services: Vec<Vec<CachedClusterService>>,
    r: PortPlan,
    catalog: u128,
    workload: u128,
)
    requires
        services@.len() == workloads@.len(),
        call_ensures(reconcile_workload_ports, (&workloads, &labels, &services), r),
    ensures
        (exists|b: int|
            0 <= b < r.bumps@.len() && (#[trigger] r.bumps@[b]).catalog_id == catalog
                && r.bumps@[b].workload_ids@.contains(workload)) <==> exists|i: int|
            0 <= i < workloads@.len() && (#[trigger] workloads@[i]).app_catalog_id == catalog
                && workloads@[i].id == workload && r.ports@[i] is Some,
        forall|a: int, b: int|
            0 <= a < b < r.bumps@.len() ==> (#[trigger] r.bumps@[a]).catalog_id != (
            #[trigger] r.bumps@[b]).catalog_id,
{
    lemma_rewritten(workloads@, r.ports@, catalog, workload);
    law_grouped(rewritten(workloads@, r.ports@));
    lemma_groups(r.bumps@, catalog, workload);
    assert(in_group(bump_views(r.bumps@), catalog, workload) <==> rewritten(
        workloads@,
        r.ports@,
    ).contains((catalog, workload)));
}

/// A changed ConfigMap or Secret gives each catalog of a workload that reads
/// it a new version, for just those workloads, once each.
pub proof fn law_readers_get_a_version(
    rows: Vec<(u128, u128)>,
    r: Vec<CatalogBump>,
    workload: u128,
    catalog: u128,
)
    requires
        call_ensures(dependency_bumps, (&rows,), r),
    ensures
        (exists|b: int|
            0 <= b < r@.len() && (#[trigger] r@[b]).catalog_id == catalog
                && r@[b].workload_ids@.contains(workload)) <==> rows@.contains(
            (workload, catalog),
        ),
        forall|a: int, b: int|
            0 <= a < b < r@.len() ==> (#[trigger] r@[a]).catalog_id != (
            #[trigger] r@[b]).catalog_id,
{
    let pairs = swapped(rows@);
    law_grouped(pairs);
    lemma_groups(r@, catalog, workload);
    assert(in_group(bump_views(r@), catalog, workload) <==> pairs.contains((catalog, workload)));
    if pairs.contains((catalog, workload)) {
        let i = choose|i: int| 0 <= i < pairs.len() && pairs[i] == (catalog, workload);
        assert(rows@[i] == (workload, catalog));
    }
    if rows@.contains((workload, catalog)) {
        let i = choose|i: int| 0 <= i < rows@.len() && rows@[i] == (workload, catalog);
        assert(pairs[i] == (catalog, workload));
    }
}

/// A service that was read selects by the labels of its manifest, and has its
/// ports in their order: the number, the name or number of the target, the
/// protocols and the port of the node as the manifest says them.
pub proof fn law_service_is_read(doc: Json, r: ServiceSpec)
    requires
        call_ensures(extract_service, (&doc,), r),
    ensures
        ({
            let section = member(doc@, "spec"@);
            let ports = items_of(member_of(section, "ports"@));
            &&& r.selector.texts() == texts_of(member_of(section, "selector"@))
            &&& opt_text(r.service_type) == text_of(member_of(section, "type"@))
            &&& opt_text(r.cluster_ip) == text_of(member_of(section, "clusterIP"@))
            &&& r.ports@.len() == ports.len()
            &&& forall|i: int|
                #![trigger r.ports@[i]]
                0 <= i < ports.len() ==> {
                    let p = r.ports@[i];
                    &&& opt_text(p.name) == text_of(member(ports[i], "name"@))
                    &&& opt_text(p.protocol) == text_of(member(ports[i], "protocol"@))
                    &&& opt_text(p.app_protocol) == text_of(member(ports[i], "appProtocol"@))
                    &&& p.node_port == i32_of(member(ports[i], "nodePort"@))
                    &&& i32_of(member(ports[i], "port"@)) matches Some(n) ==> p.port == n
                    &&& match member(ports[i], "targetPort"@) {
                        Some(JsonView::Text(t)) => p.target_port matches Some(TargetPort::Name(n))
                            && n@ == t,
                        other => match i32_of(other) {
                            Some(n) => p.target_port == Some(TargetPort::Number(n)),
                            None => p.target_port is None,
                        },
                    }
                }
        }),
{
    let ports = items_of(member_of(member(doc@, "spec"@), "ports"@));
    assert forall|i: int|
        #![trigger r.ports@[i]]
        0 <= i < ports.len() implies is_service_port(ports[i], r.ports@[i]) by {}
}

/// A service that is gone is forgotten, and one that is there is remembered
/// just where its manifest can be read.
pub proof fn law_service_changes_are_answered(event: ResourceChangeEvent, r: ServiceChange)
    requires
        call_ensures(handle_service_change, (&event,), r),
    ensures
        (r is Forget) == (event.change_type == ResourceChangeType::Deleted),
        (r is MissingYaml) == (event.change_type != ResourceChangeType::Deleted
            && event.resource_yaml is None),
        (r is Remember) == (event.change_type != ResourceChangeType::Deleted && (
        event.resource_yaml matches Some(yaml) && service_content(yaml@) is Ok)),
        r matches ServiceChange::Unusable(e) ==> event.resource_yaml matches Some(yaml)
            && service_content(yaml@) == Err::<JsonView, Seq<char>>(e@),
{
}

/// The environment of a workload is looked up by its label where that holds an
/// identifier, and else by its namespace; an environment that a label names
/// counts only where it is of the cluster.
pub proof fn law_environment_is_looked_up(
    labels: TextMap<String>,
    cluster: u128,
    environment: Option<EnvironmentRecord>,
    lookup: EnvironmentLookup,
    r: WorkloadLookup,
)
    requires
        call_ensures(environment_lookup, (&labels,), lookup),
        call_ensures(workload_lookup, (lookup, cluster, environment, &labels), r),
    ensures
        ({
            let texts = labels.texts();
            let named = if texts.contains_key("lapdev.io/branch-environment-id"@) {
                parsed_id(texts["lapdev.io/branch-environment-id"@])
            } else {
                None
            };
            let base = if texts.contains_key("lapdev.base-workload-id"@) {
                parsed_id(texts["lapdev.base-workload-id"@])
            } else {
                None
            };
            &&& match named {
                Some(id) => lookup == EnvironmentLookup::ById(id),
                None => lookup == EnvironmentLookup::ByNamespace,
            }
            &&& (r is Stop) == !(environment matches Some(e) && (named is None || e.cluster_id
                == cluster))
            &&& r matches WorkloadLookup::ByBaseThenName { environment: e, base_workload_id }
                ==> environment == Some(e) && base == Some(base_workload_id)
            &&& r matches WorkloadLookup::ByName { environment: e } ==> environment == Some(e)
                && base is None
        }),
{
}

/// A number of ready replicas is told just where it differs from the one that
/// is stored of a known workload, and then with that workload, its environment
/// and the time of the event.
pub proof fn law_changed_replicas_are_told(
    environment: EnvironmentRecord,
    workload: Option<WorkloadRecord>,
    ready: Option<i32>,
    time: i64,
    r: Option<EnvironmentWorkloadStatusEvent>,
)
    requires
        call_ensures(ready_replicas_update, (environment, workload, ready, time), r),
    ensures
        (r is Some) == (workload matches Some(w) && w.ready_replicas != ready),
        r matches Some(e) ==> {
            &&& e.organization_id == environment.organization_id
            &&& e.environment_id == environment.id
            &&& e.workload_id == workload->0.id
            &&& e.ready_replicas == ready
            &&& e.updated_at == time
        },
{
}

/// An environment can be used just where it was found and is of the cluster.
pub proof fn law_environment_of_the_cluster(
    id: u128,
    cluster: u128,
    found: Result<Option<EnvironmentRecord>, String>,
    r: Result<EnvironmentRecord, EnvironmentError>,
)
    requires
        call_ensures(check_environment, (id, cluster, found), r),
    ensures
        match r {
            Ok(env) => found == Ok::<Option<EnvironmentRecord>, String>(Some(env))
                && env.cluster_id == cluster,
            Err(EnvironmentError::FetchFailed { environment_id, error }) => environment_id == id
                && found == Err::<Option<EnvironmentRecord>, String>(error),
            Err(EnvironmentError::NotFound(environment_id)) => environment_id == id && found == Ok::<
                Option<EnvironmentRecord>,
                String,
            >(None),
            Err(EnvironmentError::OtherCluster { environment_id, cluster_id }) => environment_id
                == id && cluster_id == cluster && (found matches Ok(Some(env)) && env.cluster_id
                != cluster),
        },
{
}

/// Some port of the service has that number.
pub open spec fn has_port(service: CachedClusterService, port: u16) -> bool {
    exists|j: int| 0 <= j < service.ports@.len() && (#[trigger] service.ports@[j]).port == port
}

proof fn lemma_named_ports(
    names: Map<u16, Seq<char>>,
    name: Seq<char>,
    ports: Seq<ServicePortView>,
    port: u16,
)
    ensures
        ({
            let here = exists|j: int| 0 <= j < ports.len() && (#[trigger] ports[j]).port == port;
            let after = named_ports(names, name, ports);
            &&& after.contains_key(port) == (here || names.contains_key(port))
            &&& here ==> after[port] == name
            &&& !here && names.contains_key(port) ==> after[port] == names[port]
        }),
    decreases ports.len(),
{
    if ports.len() > 0 {
        let shorter = ports.drop_last();
        lemma_named_ports(names, name, shorter, port);
        if exists|j: int| 0 <= j < shorter.len() && (#[trigger] shorter[j]).port == port {
            let j = choose|j: int| 0 <= j < shorter.len() && (#[trigger] shorter[j]).port == port;
            assert(ports[j] == shorter[j]);
        }
        if exists|j: int| 0 <= j < ports.len() && (#[trigger] ports[j]).port == port {
            let j = choose|j: int| 0 <= j < ports.len() && (#[trigger] ports[j]).port == port;
            if j < shorter.len() {
                assert(shorter[j] == ports[j]);
            }
        }
        assert(ports[ports.len() - 1] == ports.last());
    }
}

proof fn lemma_view_has_port(service: CachedClusterService, port: u16)
    ensures
        has_port(service, port) <==> exists|j: int|
            0 <= j < service@.ports.len() && (#[trigger] service@.ports[j]).port == port,
{
    let ports = service@.ports;
    assert(ports.len() == service.ports@.len());
    if has_port(service, port) {
        let j = choose|j: int|
            0 <= j < service.ports@.len() && (#[trigger] service.ports@[j]).port == port;
        assert(ports[j].port == port);
    }
    if exists|j: int| 0 <= j < ports.len() && (#[trigger] ports[j]).port == port {
        let j = choose|j: int| 0 <= j < ports.len() && (#[trigger] ports[j]).port == port;
        assert(service.ports@[j].port == port);
    }
}

/// The names are those without the last service, and then its own.
proof fn lemma_last_service(branch: u128, services: Seq<CachedClusterService>, port: u16)
    requires
        services.len() > 0,
    ensures
        ({
            let names = branch_names(branch, service_views(services));
            let earlier = branch_names(branch, service_views(services.drop_last()));
            let here = has_port(services.last(), port);
            &&& names.contains_key(port) == (here || earlier.contains_key(port))
            &&& here ==> names[port] == services.last().name@ + ("-"@ + id_text(branch))
            &&& !here && earlier.contains_key(port) ==> names[port] == earlier[port]
        }),
{
    let shorter = services.drop_last();
    let last = services.last();
    assert(service_views(services).drop_last() =~= service_views(shorter));
    assert(service_views(services).last() == last@);
    let earlier = branch_names(branch, service_views(shorter));
    lemma_named_ports(earlier, last.name@ + ("-"@ + id_text(branch)), last@.ports, port);
    lemma_view_has_port(last, port);
}

proof fn lemma_branch_ports(branch: u128, services: Seq<CachedClusterService>, port: u16)
    ensures
        branch_names(branch, service_views(services)).contains_key(port) <==> exists|i: int|
            0 <= i < services.len() && has_port(#[trigger] services[i], port),
    decreases services.len(),
{
    if services.len() > 0 {
        let n = services.len() - 1;
        let shorter = services.drop_last();
        lemma_branch_ports(branch, shorter, port);
        lemma_last_service(branch, services, port);
        assert(services[n] == services.last());
        if exists|i: int| 0 <= i < shorter.len() && has_port(#[trigger] shorter[i], port) {
            let i = choose|i: int| 0 <= i < shorter.len() && has_port(#[trigger] shorter[i], port);
            assert(has_port(services[i], port));
        }
        if exists|i: int| 0 <= i < services.len() && has_port(#[trigger] services[i], port) {
            let i = choose|i: int|
                0 <= i < services.len() && has_port(#[trigger] services[i], port);
            if i < n {
                assert(has_port(shorter[i], port));
            }
        }
    } else {
        assert(service_views(services).len() == 0);
    }
}

proof fn lemma_branch_name(branch: u128, services: Seq<CachedClusterService>, port: u16, i: int)
    requires
        0 <= i < services.len(),
        has_port(services[i], port),
        forall|k: int| i < k < services.len() ==> !has_port(#[trigger] services[k], port),
    ensures
        branch_names(branch, service_views(services)).contains_key(port),
        branch_names(branch, service_views(services))[port] == services[i].name@ + ("-"@ + id_text(
            branch,
        )),
    decreases services.len(),
{
    let n = services.len() - 1;
    let shorter = services.drop_last();
    assert(services[n] == services.last());
    lemma_last_service(branch, services, port);
    if i < n {
        assert(shorter[i] == services[i]);
        assert forall|k: int| i < k < shorter.len() implies !has_port(
            #[trigger] shorter[k],
            port,
        ) by {
            assert(shorter[k] == services[k]);
        }
        assert(!has_port(services[n], port));
        lemma_branch_name(branch, shorter, port, i);
    }
}

proof fn lemma_branch_names(branch: u128, services: Seq<CachedClusterService>, port: u16)
    ensures
        ({
            let names = branch_names(branch, service_views(services));
            &&& names.contains_key(port) <==> exists|i: int|
                0 <= i < services.len() && has_port(#[trigger] services[i], port)
            &&& forall|i: int|
                0 <= i < services.len() && has_port(#[trigger] services[i], port) && (forall|
                    k: int,
                |
                    i < k < services.len() ==> !has_port(#[trigger] services[k], port))
                    ==> names[port] == services[i].name@ + ("-"@ + id_text(branch))
        }),
{
    lemma_branch_ports(branch, services, port);
    assert forall|i: int|
        0 <= i < services.len() && has_port(#[trigger] services[i], port) && (forall|k: int|
            i < k < services.len() ==> !has_port(
                #[trigger] services[k],
                port,
            )) implies branch_names(branch, service_views(services))[port] == services[i].name@ + (
    "-"@ + id_text(branch)) by {
        lemma_branch_name(branch, services, port, i);
    }
}

/// The route to a branch serves just the ports of the services that are
/// shared. Each port leads to the last service that has it, under the name
/// that the service has in the branch: its own, a dash, and the identifier of
/// the branch. Without any such port there is no route.
pub proof fn law_branch_serves_shared_ports(
    branch: u128,
    services: Vec<CachedClusterService>,
    r: Option<ProxyBranchRouteConfig>,
    port: u16,
)
    requires
        call_ensures(build_branch_service_route_config_from_services, (branch, &services), r),
    ensures
        (exists|i: int| 0 <= i < services@.len() && has_port(#[trigger] services@[i], port)) ==> r
            is Some,
        r matches Some(route) ==> {
            &&& route.branch_environment_id == branch
            &&& route.service_names@.contains_key(port) <==> exists|i: int|
                0 <= i < services@.len() && has_port(#[trigger] services@[i], port)
            &&& forall|i: int|
                0 <= i < services@.len() && has_port(#[trigger] services@[i], port) && (forall|
                    k: int,
                |
                    i < k < services@.len() ==> !has_port(#[trigger] services@[k], port))
                    ==> route.service_names@[port]@ == services@[i].name@ + "-"@ + id_text(branch)
            &&& route.requires_auth
            &&& route.access_level == ProxyRouteAccessLevel::Personal
            &&& route.timeout_ms is None
            &&& route.devbox_route is None
            &&& forall|k: Seq<char>| !#[trigger] route.headers.texts().contains_key(k)
            &&& exists|p: u16| #[trigger] route.service_names@.contains_key(p)
        },
{
    lemma_branch_names(branch, services@, port);
    let names = branch_names(branch, service_views(services@));
    if let Some(route) = r {
        let texts = name_texts(route.service_names@);
        assert(texts.contains_key(port) == route.service_names@.contains_key(port));
        assert forall|i: int|
            0 <= i < services@.len() && has_port(#[trigger] services@[i], port) && (forall|k: int|
                i < k < services@.len() ==> !has_port(
                    #[trigger] services@[k],
                    port,
                )) implies route.service_names@[port]@ == services@[i].name@ + "-"@ + id_text(
            branch,
        ) by {
            assert(texts[port] == route.service_names@[port]@);
            assert(services@[i].name@ + ("-"@ + id_text(branch)) =~= services@[i].name@ + "-"@
                + id_text(branch));
        }
        if forall|p: u16| !#[trigger] route.service_names@.contains_key(p) {
            assert forall|p: u16| !#[trigger] texts.contains_key(p) by {
                assert(!route.service_names@.contains_key(p));
            }
            assert(texts =~= Map::<u16, Seq<char>>::empty());
        }
    } else {
        assert(!names.contains_key(port));
    }
}

/// A branch whose environment is known, of the cluster and not the environment
/// itself.
pub open spec fn is_usable_branch(environment: u128, cluster: u128) -> spec_fn(
    (u128, Option<EnvironmentRecord>),
) -> bool {
    |b: (u128, Option<EnvironmentRecord>)|
        b.0 != environment && (b.1 matches Some(e) && e.cluster_id == cluster)
}

proof fn lemma_listed_filtered(
    environment: u128,
    cluster: u128,
    branches: Seq<(u128, Option<EnvironmentRecord>)>,
)
    ensures
        listed_branches(environment, cluster, branches) == branches.filter(
            is_usable_branch(environment, cluster),
        ).map_values(|b: (u128, Option<EnvironmentRecord>)| b.0),
    decreases branches.len(),
{
    let listed = is_usable_branch(environment, cluster);
    let id = |b: (u128, Option<EnvironmentRecord>)| b.0;
    reveal(Seq::filter);
    if branches.len() == 0 {
        assert(branches.filter(listed).map_values(id) =~= Seq::<u128>::empty());
    } else {
        let shorter = branches.drop_last();
        lemma_listed_filtered(environment, cluster, shorter);
        let earlier = shorter.filter(listed);
        assert(earlier.push(branches.last()).map_values(id) =~= earlier.map_values(id).push(
            branches.last().0,
        ));
    }
}

proof fn lemma_routed(branches: Seq<u128>, services: Seq<CachedClusterService>, port: u16)
    ensures
        (exists|i: int| 0 <= i < services.len() && has_port(#[trigger] services[i], port))
            ==> routed_branches(branches, service_views(services)) == branches,
    decreases branches.len(),
{
    if branches.len() > 0 && exists|i: int|
        0 <= i < services.len() && has_port(#[trigger] services[i], port) {
        lemma_routed(branches.drop_last(), services, port);
        lemma_branch_names(branches.last(), services, port);
        assert(branch_names(branches.last(), service_views(services)).contains_key(port));
        assert(branches.drop_last().push(branches.last()) =~= branches);
    } else if branches.len() == 0 {
        assert(routed_branches(branches, service_views(services)) =~= branches);
    }
}

/// The routes go to each branch of a list that is known, of the cluster and not
/// the environment itself, in their order, and each serves the port.
pub open spec fn routes_go_to(
    routes: Seq<ProxyBranchRouteConfig>,
    environment: u128,
    cluster: u128,
    branches: Seq<(u128, Option<EnvironmentRecord>)>,
    port: u16,
) -> bool {
    &&& Seq::new(routes.len(), |k: int| routes[k].branch_environment_id) == branches.filter(
        is_usable_branch(environment, cluster),
    ).map_values(|b: (u128, Option<EnvironmentRecord>)| b.0)
    &&& forall|k: int|
        0 <= k < routes.len() ==> (#[trigger] routes[k]).service_names@.contains_key(port)
            && routes[k].requires_auth && routes[k].access_level == ProxyRouteAccessLevel::Personal
}

pub proof fn lemma_routes_go_to(
    environment: u128,
    cluster: u128,
    services: Seq<CachedClusterService>,
    branches: Seq<(u128, Option<EnvironmentRecord>)>,
    routes: Seq<ProxyBranchRouteConfig>,
    port: u16,
)
    requires
        are_branch_routes(environment, cluster, service_views(services), branches, routes),
        exists|i: int| 0 <= i < services.len() && has_port(#[trigger] services[i], port),
    ensures
        routes_go_to(routes, environment, cluster, branches, port),
{
    lemma_listed_filtered(environment, cluster, branches);
    let listed = listed_branches(environment, cluster, branches);
    lemma_routed(listed, services, port);
    let views = service_views(services);
    assert forall|k: int| 0 <= k < routes.len() implies is_branch_route(
        listed[k],
        branch_names(listed[k], views),
        #[trigger] routes[k],
    ) by {}
    assert(Seq::new(routes.len(), |k: int| routes[k].branch_environment_id) =~= listed);
    assert forall|k: int| 0 <= k < routes.len() implies (
    #[trigger] routes[k]).service_names@.contains_key(port) && routes[k].requires_auth
        && routes[k].access_level == ProxyRouteAccessLevel::Personal by {
        assert(is_branch_route(listed[k], branch_names(listed[k], views), routes[k]));
        lemma_branch_names(listed[k], services, port);
        assert(name_texts(routes[k].service_names@).contains_key(port)
            == routes[k].service_names@.contains_key(port));
    }
}

/// Where the services that a workload shares have a port that can be served,
/// there is a route to each of its branches that is known, of the cluster and
/// not the environment itself, in their order, and to no other.
pub proof fn law_every_branch_gets_its_route(
    environment: u128,
    cluster: u128,
    services: Vec<CachedClusterService>,
    branches: Vec<(u128, Option<EnvironmentRecord>)>,
    r: Vec<ProxyBranchRouteConfig>,
    port: u16,
)
    requires
        call_ensures(branch_service_routes, (environment, cluster, &services, &branches), r),
        exists|i: int| 0 <= i < services@.len() && has_port(#[trigger] services@[i], port),
    ensures
        routes_go_to(r@, environment, cluster, branches@, port),
{
    lemma_routes_go_to(environment, cluster, services@, branches@, r@, port);
}

/// The workloads that a selector picks are looked up just where the selector
/// says something. A service that was forgotten without a selector picks none.
pub proof fn law_selectors_that_say_something_are_followed(
    service: ServiceSpec,
    remembered: bool,
    stored: Option<&TextMap<String>>,
    forgotten: bool,
    key: Seq<char>,
)
    requires
        call_ensures(needs_reconcile, (&service,), remembered),
        call_ensures(forgotten_needs_reconcile, (stored,), forgotten),
    ensures
        service.selector.texts().contains_key(key) ==> remembered,
        (forall|k: Seq<char>| !#[trigger] service.selector.texts().contains_key(k)) ==> !remembered,
        stored matches Some(s) ==> (s.texts().contains_key(key) ==> forgotten),
        stored is None ==> !forgotten,
        stored matches Some(s) ==> ((forall|k: Seq<char>| !#[trigger] s.texts().contains_key(k))
            ==> !forgotten),
{
    if forall|k: Seq<char>| !#[trigger] service.selector.texts().contains_key(k) {
        assert(service.selector.texts() =~= Map::<Seq<char>, Seq<char>>::empty());
    }
    if let Some(s) = stored {
        if forall|k: Seq<char>| !#[trigger] s.texts().contains_key(k) {
            assert(s.texts() =~= Map::<Seq<char>, Seq<char>>::empty());
        }
    }
}

/// The document is the text, or nothing where there is none.
pub open spec fn is_stored_text(j: Option<JsonView>, text: Option<String>) -> bool {
    match text {
        Some(t) => j == Some(JsonView::Text(t@)),
        None => j == Some(JsonView::Null),
    }
}

/// The ports of a service are stored one by one: each with its name, its
/// protocols and its numbers under names of their own, and with nothing where
/// the manifest said nothing.
pub proof fn law_ports_are_stored(service: ServiceSpec, r: Json, i: int)
    requires
        call_ensures(service_ports_json, (&service,), r),
        0 <= i < service.ports@.len(),
    ensures
        r@ matches JsonView::List(items) && items.len() == service.ports@.len() && ({
            let port = service.ports@[i];
            let stored = items[i];
            &&& is_stored_text(member(stored, "name"@), port.name)
            &&& is_stored_text(member(stored, "protocol"@), port.protocol)
            &&& is_stored_text(member(stored, "app_protocol"@), port.app_protocol)
            &&& member(stored, "port"@) == Some(
                JsonView::Number(signed_decimal(port.port as int)),
            )
            &&& member(stored, "node_port"@) == Some(
                match port.node_port {
                    Some(n) => JsonView::Number(signed_decimal(n as int)),
                    None => JsonView::Null,
                },
            )
            &&& member(stored, "target_port"@) == Some(
                match port.target_port {
                    Some(TargetPort::Number(n)) => JsonView::Number(signed_decimal(n as int)),
                    Some(TargetPort::Name(t)) => JsonView::Text(t@),
                    None => JsonView::Null,
                },
            )
        }),
{
    let items = r@->List_0;
    assert(items[i] == port_json(service.ports@[i]));
    let members = items[i]->Object_0;
    reveal_strlit("app_protocol");
    reveal_strlit("name");
    reveal_strlit("node_port");
    reveal_strlit("port");
    reveal_strlit("protocol");
    reveal_strlit("target_port");
    assert(members[0].0.len() == 12 && members[2].0.len() == 9);
    assert(members[4].0.len() == 8 && members[5].0.len() == 11);
    assert(members[1].0.len() == 4 && members[1].0[0] == 'n');
    assert(members[3].0.len() == 4 && members[3].0[0] == 'p');
    crate::json::law_member_is_the_first(members, 0);
    crate::json::law_member_is_the_first(members, 1);
    crate::json::law_member_is_the_first(members, 2);
    crate::json::law_member_is_the_first(members, 3);
    crate::json::law_member_is_the_first(members, 4);
    crate::json::law_member_is_the_first(members, 5);
}

} // verus!
