//! What a change in the cluster means for the application catalog and for
//! the environments that run workloads of it.
use crate::catalog::{
    containers_by_name, law_merge_follows_manifest, law_merge_of_the_known,
    lemma_view_of_manifest_part, merge_containers, merged, same_in_manifest, same_port,
};
use crate::json::{
    json_eq, law_same_as_itself, same_json, without, yaml_member_content, Json, JsonView,
};
use crate::kube_types::{
    container_views, copy_service_ports, same_containers, same_service_ports, service_port_views,
    KubeContainerInfo, KubeServicePort, KubeWorkloadKind,
};
use crate::text::{lower, opt_text, same, to_lower};
use crate::text_map::{TextMap, TextSet};
use crate::workload::{yaml_snapshot, spec_section_from_yaml};
use std::collections::HashMap;
use vstd::prelude::*;

verus! {

broadcast use vstd::std_specs::hash::group_hash_axioms;

// ---------------------------------------------------------------------------
// One workload
// ---------------------------------------------------------------------------

/// A workload of the catalog. The stored containers and ports are what could
/// be read of them; the flags tell whether they are stored just as they would
/// be written now.
#[derive(Debug)]
pub struct CatalogWorkload {
    pub id: u128,
    pub app_catalog_id: u128,
    pub cluster_id: u128,
    pub namespace: String,
    /// The stored kind, where it can be read.
    pub kind: Option<KubeWorkloadKind>,
    pub containers: Vec<KubeContainerInfo>,
    pub containers_canonical: bool,
    pub ports: Vec<KubeServicePort>,
    pub ports_canonical: bool,
    pub workload_yaml: String,
}

/// What a manifest says of a workload.
#[derive(Debug)]
pub struct WorkloadFacts<'a> {
    pub containers: &'a Vec<KubeContainerInfo>,
    pub ports: &'a Vec<KubeServicePort>,
    pub yaml: &'a str,
    pub spec_snapshot: Option<&'a Json>,
    pub labels: &'a TextMap<String>,
    pub configmaps: &'a TextSet,
    pub secrets: &'a TextSet,
}

/// What has to change in the catalog for one workload.
#[derive(Debug)]
pub struct CatalogWorkloadUpdate {
    pub containers: Option<Vec<KubeContainerInfo>>,
    pub ports: Option<Vec<KubeServicePort>>,
    pub workload_yaml: Option<String>,
    pub containers_changed: bool,
    pub ports_changed: bool,
    pub spec_changed: bool,
    pub labels_changed: bool,
    pub dependencies_changed: bool,
}

impl CatalogWorkloadUpdate {
    /// Something of the stored workload has to be written.
    pub open spec fn spec_has_model_updates(&self) -> bool {
        self.containers is Some || self.ports is Some || self.workload_yaml is Some
    }

    /// The catalog gets a new version.
    pub open spec fn spec_requires_bump(&self) -> bool {
        self.containers_changed || self.ports_changed || self.spec_changed || self.labels_changed
            || self.dependencies_changed
    }

    pub fn has_model_updates(&self) -> (r: bool)
        ensures
            r == self.spec_has_model_updates(),
    {
        self.containers.is_some() || self.ports.is_some() || self.workload_yaml.is_some()
    }

    pub fn requires_catalog_bump(&self) -> (r: bool)
        ensures
            r == self.spec_requires_bump(),
    {
        self.containers_changed || self.ports_changed || self.spec_changed || self.labels_changed
            || self.dependencies_changed
    }
}

/// The specification of a stored manifest: what it is, or that the manifest
/// cannot be read.
pub open spec fn stored_snapshot(yaml: Seq<char>) -> Result<Option<JsonView>, ()> {
    match yaml_snapshot(yaml) {
        Ok(section) => Ok(section),
        Err(_) => Err(()),
    }
}

/// Both specifications are missing, or both say the same.
pub open spec fn same_snapshots(a: Option<JsonView>, b: Option<JsonView>) -> bool {
    match (a, b) {
        (Some(x), Some(y)) => same_json(x, y),
        (None, None) => true,
        _ => false,
    }
}

/// What an optional document holds.
pub open spec fn snapshot_view(s: Option<&Json>) -> Option<JsonView> {
    match s {
        Some(j) => Some(j@),
        None => None,
    }
}

/// The set of labels changed. No stored labels are as good as none.
pub open spec fn labels_differ(
    stored: Option<Map<Seq<char>, Seq<char>>>,
    new: Map<Seq<char>, Seq<char>>,
) -> bool {
    match stored {
        Some(m) => m != new,
        None => new != Map::<Seq<char>, Seq<char>>::empty(),
    }
}

/// The names of ConfigMaps or Secrets changed.
pub open spec fn names_differ(
    stored: Option<(Set<Seq<char>>, Set<Seq<char>>)>,
    configmaps: Set<Seq<char>>,
    secrets: Set<Seq<char>>,
) -> bool {
    match stored {
        Some((c, s)) => c != configmaps || s != secrets,
        None => !(configmaps == Set::<Seq<char>>::empty() && secrets == Set::<Seq<char>>::empty()),
    }
}

/// `u` is the update that a workload needs, given the specification of its
/// stored manifest.
pub open spec fn is_update(
    workload: CatalogWorkload,
    facts: WorkloadFacts,
    stored: Result<Option<JsonView>, ()>,
    labels: Option<Map<Seq<char>, Seq<char>>>,
    dependencies: Option<(Set<Seq<char>>, Set<Seq<char>>)>,
    u: CatalogWorkloadUpdate,
) -> bool {
    let m = merged(
        containers_by_name(container_views(workload.containers@)),
        container_views(facts.containers@),
    ).0;
    &&& u.containers_changed == !(workload.containers_canonical && m == container_views(
        workload.containers@,
    ))
    &&& (u.containers is Some) == u.containers_changed
    &&& u.containers matches Some(c) ==> container_views(c@) == m
    &&& u.ports_changed == !(workload.ports_canonical && service_port_views(facts.ports@)
        == service_port_views(workload.ports@))
    &&& (u.ports is Some) == u.ports_changed
    &&& u.ports matches Some(p) ==> service_port_views(p@) == service_port_views(facts.ports@)
    &&& u.spec_changed == (match stored {
        Ok(s) => !same_snapshots(s, snapshot_view(facts.spec_snapshot)),
        Err(_) => true,
    })
    &&& (u.workload_yaml is Some) == u.spec_changed
    &&& u.workload_yaml matches Some(y) ==> y@ == facts.yaml@
    &&& u.labels_changed == labels_differ(labels, facts.labels.texts())
    &&& u.dependencies_changed == names_differ(dependencies, facts.configmaps@, facts.secrets@)
}

/// What optional stored labels hold.
pub open spec fn labels_view(m: Option<&TextMap<String>>) -> Option<Map<Seq<char>, Seq<char>>> {
    match m {
        Some(t) => Some(t.texts()),
        None => None,
    }
}

/// What optional stored dependencies hold.
pub open spec fn dependencies_view(d: Option<&(TextSet, TextSet)>) -> Option<
    (Set<Seq<char>>, Set<Seq<char>>),
> {
    match d {
        Some(p) => Some((p.0@, p.1@)),
        None => None,
    }
}

fn is_empty_labels(m: &TextMap<String>) -> (r: bool)
    ensures
        r == (m.texts() == Map::<Seq<char>, Seq<char>>::empty()),
{
    let r: bool = m.is_empty();
    proof {
        if r {
            assert(m.texts() =~= Map::<Seq<char>, Seq<char>>::empty());
        } else if m.texts() == Map::<Seq<char>, Seq<char>>::empty() {
            assert forall|k: Seq<char>| !m@.contains_key(k) by {
                assert(m.texts().contains_key(k) == m@.contains_key(k));
            }
            assert(m@ =~= Map::<Seq<char>, String>::empty());
        }
    }
    r
}

/// Works out what has to change in the catalog for one workload, given the
/// specification of its stored manifest where that could be read.
pub fn catalog_update(
    workload: &CatalogWorkload,
    facts: &WorkloadFacts,
    stored: &Result<Option<Json>, String>,
    existing_labels: Option<&TextMap<String>>,
    existing_dependencies: Option<&(TextSet, TextSet)>,
) -> (r: CatalogWorkloadUpdate)
    ensures
        is_update(
            *workload,
            *facts,
            match *stored {
                Ok(Some(j)) => Ok(Some(j@)),
                Ok(None) => Ok(None),
                Err(_) => Err(()),
            },
            labels_view(existing_labels),
            dependencies_view(existing_dependencies),
            r,
        ),
{
    let merged_containers: Vec<KubeContainerInfo> = merge_containers(
        &workload.containers,
        facts.containers,
    );
    let containers_changed: bool = !(workload.containers_canonical && same_containers(
        &merged_containers,
        &workload.containers,
    ));
    let ports_changed: bool = !(workload.ports_canonical && same_service_ports(
        facts.ports,
        &workload.ports,
    ));
    let spec_changed: bool = match stored {
        Ok(s) => match (s, facts.spec_snapshot) {
            (Some(a), Some(b)) => !json_eq(a, b),
            (None, None) => false,
            _ => true,
        },
        Err(_) => true,
    };
    let labels_changed: bool = match existing_labels {
        Some(current) => !current.same_texts(facts.labels),
        None => !is_empty_labels(facts.labels),
    };
    let dependencies_changed: bool = match existing_dependencies {
        Some(p) => !p.0.same_texts(facts.configmaps) || !p.1.same_texts(facts.secrets),
        None => !(facts.configmaps.is_empty() && facts.secrets.is_empty()),
    };
    CatalogWorkloadUpdate {
        containers: if containers_changed {
            Some(merged_containers)
        } else {
            None
        },
        ports: if ports_changed {
            Some(copy_service_ports(facts.ports))
        } else {
            None
        },
        workload_yaml: if spec_changed {
            Some(facts.yaml.to_owned())
        } else {
            None
        },
        containers_changed,
        ports_changed,
        spec_changed,
        labels_changed,
        dependencies_changed,
    }
}

/// Works out what has to change in the catalog for one workload.
pub fn compute_catalog_workload_update(
    workload: &CatalogWorkload,
    facts: &WorkloadFacts,
    existing_labels: Option<&TextMap<String>>,
    existing_dependencies: Option<&(TextSet, TextSet)>,
) -> (r: CatalogWorkloadUpdate)
    ensures
        is_update(
            *workload,
            *facts,
            stored_snapshot(workload.workload_yaml@),
            labels_view(existing_labels),
            dependencies_view(existing_dependencies),
            r,
        ),
{
    let stored: Result<Option<Json>, String> = spec_section_from_yaml(
        workload.workload_yaml.as_str(),
    );
    catalog_update(workload, facts, &stored, existing_labels, existing_dependencies)
}

/// Whatever is written to a stored workload gives its catalog a new version.
pub proof fn law_model_updates_bump(
    workload: CatalogWorkload,
    facts: WorkloadFacts,
    stored: Result<Option<JsonView>, ()>,
    labels: Option<Map<Seq<char>, Seq<char>>>,
    dependencies: Option<(Set<Seq<char>>, Set<Seq<char>>)>,
    u: CatalogWorkloadUpdate,
)
    requires
        is_update(workload, facts, stored, labels, dependencies, u),
    ensures
        u.spec_has_model_updates() ==> u.spec_requires_bump(),
        u.spec_has_model_updates() == (u.containers_changed || u.ports_changed || u.spec_changed),
{
}

/// A workload whose manifest says what is stored needs no update at all.
pub proof fn law_no_change_no_bump(
    workload: CatalogWorkload,
    facts: WorkloadFacts,
    labels: Map<Seq<char>, Seq<char>>,
    dependencies: (Set<Seq<char>>, Set<Seq<char>>),
    u: CatalogWorkloadUpdate,
)
    requires
        is_update(
            workload,
            facts,
            Ok(snapshot_view(facts.spec_snapshot)),
            Some(labels),
            Some(dependencies),
            u,
        ),
        workload.containers_canonical,
        workload.ports_canonical,
        merged(
            containers_by_name(container_views(workload.containers@)),
            container_views(facts.containers@),
        ).0 == container_views(workload.containers@),
        service_port_views(facts.ports@) == service_port_views(workload.ports@),
        labels == facts.labels.texts(),
        dependencies == (facts.configmaps@, facts.secrets@),
    ensures
        !u.spec_requires_bump(),
        !u.spec_has_model_updates(),
{
    if let Some(j) = snapshot_view(facts.spec_snapshot) {
        law_same_as_itself(j);
    }
}

/// Every change gives the catalog a new version, and nothing else does. What
/// is written is the manifest's own: the ports, and the text of the manifest.
pub proof fn law_every_change_bumps(u: CatalogWorkloadUpdate, bump: bool, writes: bool)
    requires
        call_ensures(CatalogWorkloadUpdate::requires_catalog_bump, (&u,), bump),
        call_ensures(CatalogWorkloadUpdate::has_model_updates, (&u,), writes),
    ensures
        u.containers_changed ==> bump,
        u.ports_changed ==> bump,
        u.spec_changed ==> bump,
        u.labels_changed ==> bump,
        u.dependencies_changed ==> bump,
        bump ==> u.containers_changed || u.ports_changed || u.spec_changed || u.labels_changed
            || u.dependencies_changed,
        writes == (u.containers is Some || u.ports is Some || u.workload_yaml is Some),
{
}

/// An update notices a name that is in just one of the stored and the new
/// ConfigMaps, or in just one of the stored and the new Secrets, and nothing
/// else counts as a change of dependencies.
pub proof fn lemma_update_of_dependencies(
    workload: CatalogWorkload,
    facts: WorkloadFacts,
    stored: Result<Option<JsonView>, ()>,
    labels: Option<Map<Seq<char>, Seq<char>>>,
    dependencies: Option<(Set<Seq<char>>, Set<Seq<char>>)>,
    u: CatalogWorkloadUpdate,
)
    requires
        is_update(workload, facts, stored, labels, dependencies, u),
    ensures
        !u.dependencies_changed <==> forall|n: Seq<char>|
            (#[trigger] facts.configmaps@.contains(n)) == (dependencies matches Some(d)
                && d.0.contains(n)) && facts.secrets@.contains(n) == (dependencies matches Some(d)
                && d.1.contains(n)),
{
    if forall|n: Seq<char>|
        (#[trigger] facts.configmaps@.contains(n)) == (dependencies matches Some(d)
            && d.0.contains(n)) && facts.secrets@.contains(n) == (dependencies matches Some(d)
            && d.1.contains(n)) {
        match dependencies {
            Some(d) => {
                assert forall|n: Seq<char>| d.0.contains(n) == facts.configmaps@.contains(n) by {
                    assert(facts.configmaps@.contains(n) == d.0.contains(n));
                }
                assert forall|n: Seq<char>| d.1.contains(n) == facts.secrets@.contains(n) by {
                    assert(facts.configmaps@.contains(n) == d.0.contains(n));
                }
                assert(d.0 =~= facts.configmaps@);
                assert(d.1 =~= facts.secrets@);
            },
            None => {
                assert forall|n: Seq<char>| !facts.secrets@.contains(n) by {
                    assert(!facts.configmaps@.contains(n));
                }
                assert(facts.configmaps@ =~= Set::<Seq<char>>::empty());
                assert(facts.secrets@ =~= Set::<Seq<char>>::empty());
            },
        }
    }
}

/// An update notices a label that is stored with another value or not at all,
/// and one that is no longer there, and nothing else counts as a change of
/// labels.
pub proof fn lemma_update_of_labels(
    workload: CatalogWorkload,
    facts: WorkloadFacts,
    stored: Result<Option<JsonView>, ()>,
    labels: Option<Map<Seq<char>, Seq<char>>>,
    dependencies: Option<(Set<Seq<char>>, Set<Seq<char>>)>,
    u: CatalogWorkloadUpdate,
)
    requires
        is_update(workload, facts, stored, labels, dependencies, u),
    ensures
        !u.labels_changed <==> forall|k: Seq<char>|
            (#[trigger] facts.labels.texts().contains_key(k)) == (labels matches Some(m)
                && m.contains_key(k)) && (facts.labels.texts().contains_key(k)
                ==> facts.labels.texts()[k] == labels->0[k]),
{
    let new = facts.labels.texts();
    if forall|k: Seq<char>|
        (#[trigger] new.contains_key(k)) == (labels matches Some(m) && m.contains_key(k)) && (
        new.contains_key(k) ==> new[k] == labels->0[k]) {
        match labels {
            Some(m) => {
                assert forall|k: Seq<char>| m.contains_key(k) implies new.contains_key(k) by {
                    assert(new.contains_key(k) == m.contains_key(k));
                }
                assert(m =~= new);
            },
            None => {
                assert(new =~= Map::<Seq<char>, Seq<char>>::empty());
            },
        }
    }
}

/// A name that is in just one of the stored and the new ConfigMaps, or in just
/// one of the stored and the new Secrets, is a change of dependencies; without
/// such a name there is none. No stored dependencies are as good as none.
pub proof fn law_dependencies_are_compared(
    workload: CatalogWorkload,
    facts: WorkloadFacts,
    labels: Option<&TextMap<String>>,
    dependencies: Option<&(TextSet, TextSet)>,
    u: CatalogWorkloadUpdate,
)
    requires
        call_ensures(
            compute_catalog_workload_update,
            (&workload, &facts, labels, dependencies),
            u,
        ),
    ensures
        ({
            let stored_configmap = |n: Seq<char>|
                dependencies matches Some(d) && d.0@.contains(n);
            let stored_secret = |n: Seq<char>| dependencies matches Some(d) && d.1@.contains(n);
            &&& forall|n: Seq<char>| #[trigger]
                facts.configmaps@.contains(n) != stored_configmap(n) ==> u.dependencies_changed
            &&& forall|n: Seq<char>| #[trigger]
                facts.secrets@.contains(n) != stored_secret(n) ==> u.dependencies_changed
            &&& u.dependencies_changed ==> {
                ||| exists|n: Seq<char>| #[trigger]
                    facts.configmaps@.contains(n) != stored_configmap(n)
                ||| exists|n: Seq<char>| #[trigger]
                    facts.secrets@.contains(n) != stored_secret(n)
            }
        }),
{
    let stored_configmap = |n: Seq<char>| dependencies matches Some(d) && d.0@.contains(n);
    let stored_secret = |n: Seq<char>| dependencies matches Some(d) && d.1@.contains(n);
    if forall|n: Seq<char>| #[trigger] facts.configmaps@.contains(n) == stored_configmap(n) {
        if forall|n: Seq<char>| #[trigger] facts.secrets@.contains(n) == stored_secret(n) {
            match dependencies {
                Some(d) => {
                    assert(d.0@ =~= facts.configmaps@);
                    assert(d.1@ =~= facts.secrets@);
                },
                None => {
                    assert(facts.configmaps@ =~= Set::<Seq<char>>::empty());
                    assert(facts.secrets@ =~= Set::<Seq<char>>::empty());
                },
            }
        }
    }
}

/// An update without a new version leaves both kinds of dependencies as they
/// are stored.
pub proof fn law_no_bump_same_dependencies(
    workload: CatalogWorkload,
    facts: WorkloadFacts,
    labels: Option<&TextMap<String>>,
    dependencies: Option<&(TextSet, TextSet)>,
    u: CatalogWorkloadUpdate,
    n: Seq<char>,
)
    requires
        call_ensures(
            compute_catalog_workload_update,
            (&workload, &facts, labels, dependencies),
            u,
        ),
        call_ensures(CatalogWorkloadUpdate::requires_catalog_bump, (&u,), false),
    ensures
        facts.configmaps@.contains(n) == (dependencies matches Some(d) && d.0@.contains(n)),
        facts.secrets@.contains(n) == (dependencies matches Some(d) && d.1@.contains(n)),
{
    law_dependencies_are_compared(workload, facts, labels, dependencies, u);
}

/// A label that has one value among the stored labels and another, or none,
/// in the manifest is a change of labels; so is a label that is new. Without
/// such a label there is none.
pub proof fn law_labels_are_compared(
    workload: CatalogWorkload,
    facts: WorkloadFacts,
    labels: Option<&TextMap<String>>,
    dependencies: Option<&(TextSet, TextSet)>,
    u: CatalogWorkloadUpdate,
)
    requires
        call_ensures(
            compute_catalog_workload_update,
            (&workload, &facts, labels, dependencies),
            u,
        ),
    ensures
        ({
            let new = facts.labels.texts();
            let is_stored = |k: Seq<char>| labels matches Some(m) && m.texts().contains_key(k);
            &&& forall|k: Seq<char>| #[trigger]
                new.contains_key(k) != is_stored(k) ==> u.labels_changed
            &&& forall|k: Seq<char>| #[trigger]
                new.contains_key(k) && is_stored(k) && new[k] != labels->0.texts()[k]
                    ==> u.labels_changed
            &&& u.labels_changed ==> exists|k: Seq<char>|
                #![trigger new.contains_key(k)]
                new.contains_key(k) != is_stored(k) || (new.contains_key(k) && new[k]
                    != labels->0.texts()[k])
        }),
{
    let new = facts.labels.texts();
    let is_stored = |k: Seq<char>| labels matches Some(m) && m.texts().contains_key(k);
    if forall|k: Seq<char>|
        #![trigger new.contains_key(k)]
        new.contains_key(k) == is_stored(k) && (new.contains_key(k) ==> new[k]
            == labels->0.texts()[k]) {
        match labels {
            Some(m) => {
                assert forall|k: Seq<char>| m.texts().contains_key(k) implies new.contains_key(
                    k,
                ) by {
                    assert(new.contains_key(k) == is_stored(k));
                }
                assert(m.texts() =~= new);
            },
            None => {
                assert forall|k: Seq<char>| !new.contains_key(k) by {
                    assert(new.contains_key(k) == is_stored(k));
                }
                assert(new =~= Map::<Seq<char>, Seq<char>>::empty());
            },
        }
    }
}

pub proof fn lemma_same_ports(a: Seq<KubeServicePort>, b: Seq<KubeServicePort>)
    ensures
        service_port_views(a) == service_port_views(b) <==> a.len() == b.len() && forall|i: int|
            0 <= i < a.len() ==> same_port(#[trigger] a[i], b[i]),
{
    let x = service_port_views(a);
    let y = service_port_views(b);
    assert(x.len() == a.len() && y.len() == b.len());
    if x == y {
        assert forall|i: int| 0 <= i < a.len() implies same_port(#[trigger] a[i], b[i]) by {
            assert(x[i] == a[i]@ && y[i] == b[i]@);
        }
    }
    if a.len() == b.len() && forall|i: int| 0 <= i < a.len() ==> same_port(#[trigger] a[i], b[i]) {
        assert forall|i: int| 0 <= i < a.len() implies x[i] == y[i] by {
            assert(same_port(a[i], b[i]));
        }
        assert(x =~= y);
    }
}

/// The ports of a workload change just where they are not stored as they
/// would be written, or where some port differs, or one is missing or new.
/// Then the ports of the manifest are written.
pub proof fn law_ports_are_compared(
    workload: CatalogWorkload,
    facts: WorkloadFacts,
    labels: Option<&TextMap<String>>,
    dependencies: Option<&(TextSet, TextSet)>,
    u: CatalogWorkloadUpdate,
)
    requires
        call_ensures(
            compute_catalog_workload_update,
            (&workload, &facts, labels, dependencies),
            u,
        ),
    ensures
        u.ports_changed == !(workload.ports_canonical && workload.ports@.len()
            == facts.ports@.len() && forall|i: int|
            0 <= i < workload.ports@.len() ==> same_port(
                #[trigger] workload.ports@[i],
                facts.ports@[i],
            )),
        match u.ports {
            Some(written) => u.ports_changed && written@.len() == facts.ports@.len() && forall|
                i: int,
            |
                0 <= i < written@.len() ==> same_port(#[trigger] written@[i], facts.ports@[i]),
            None => !u.ports_changed,
        },
{
    lemma_same_ports(workload.ports@, facts.ports@);
    if let Some(written) = u.ports {
        lemma_same_ports(written@, facts.ports@);
    }
}

/// The specification of a workload changes where its stored manifest cannot
/// be read, where just one of the stored and the new manifest has a
/// specification, and where both have one and these do not say the same, the
/// stored one taken without its replicas. Then the new manifest is written.
pub proof fn law_specifications_are_compared(
    workload: CatalogWorkload,
    facts: WorkloadFacts,
    labels: Option<&TextMap<String>>,
    dependencies: Option<&(TextSet, TextSet)>,
    u: CatalogWorkloadUpdate,
)
    requires
        call_ensures(
            compute_catalog_workload_update,
            (&workload, &facts, labels, dependencies),
            u,
        ),
    ensures
        match yaml_member_content(workload.workload_yaml@, "spec"@) {
            Err(_) => u.spec_changed,
            Ok(None) => u.spec_changed == (facts.spec_snapshot is Some),
            Ok(Some(stored)) => match facts.spec_snapshot {
                None => u.spec_changed,
                Some(new) => u.spec_changed == !same_json(without(stored, "replicas"@), new@),
            },
        },
        match u.workload_yaml {
            Some(written) => u.spec_changed && written@ == facts.yaml@,
            None => !u.spec_changed,
        },
{
}

/// Containers that are left alone are stored as they would be written, and say
/// of each container of the manifest, in its order, what the manifest says.
/// Containers that change are written with what the manifest says.
pub proof fn law_containers_are_compared(
    workload: CatalogWorkload,
    facts: WorkloadFacts,
    labels: Option<&TextMap<String>>,
    dependencies: Option<&(TextSet, TextSet)>,
    u: CatalogWorkloadUpdate,
)
    requires
        call_ensures(
            compute_catalog_workload_update,
            (&workload, &facts, labels, dependencies),
            u,
        ),
    ensures
        match u.containers {
            None => !u.containers_changed && workload.containers_canonical
                && workload.containers@.len() == facts.containers@.len() && forall|i: int|
                0 <= i < facts.containers@.len() ==> same_in_manifest(
                    #[trigger] workload.containers@[i],
                    facts.containers@[i],
                ),
            Some(written) => u.containers_changed && written@.len() == facts.containers@.len()
                && forall|i: int|
                0 <= i < facts.containers@.len() ==> same_in_manifest(
                    #[trigger] written@[i],
                    facts.containers@[i],
                ),
        },
{
    let known = container_views(workload.containers@);
    let new = container_views(facts.containers@);
    law_merge_follows_manifest(known, new);
    let m = merged(containers_by_name(known), new).0;
    assert(known.len() == workload.containers@.len() && new.len() == facts.containers@.len());
    match u.containers {
        None => {
            assert forall|i: int| 0 <= i < facts.containers@.len() implies same_in_manifest(
                #[trigger] workload.containers@[i],
                facts.containers@[i],
            ) by {
                assert(m[i] == workload.containers@[i]@ && new[i] == facts.containers@[i]@);
                lemma_view_of_manifest_part(workload.containers@[i], facts.containers@[i]);
            }
        },
        Some(written) => {
            assert(container_views(written@).len() == written@.len());
            assert forall|i: int| 0 <= i < facts.containers@.len() implies same_in_manifest(
                #[trigger] written@[i],
                facts.containers@[i],
            ) by {
                assert(container_views(written@)[i] == written@[i]@);
                assert(m[i] == written@[i]@ && new[i] == facts.containers@[i]@);
                lemma_view_of_manifest_part(written@[i], facts.containers@[i]);
            }
        },
    }
}

/// Containers of different names that the manifest says nothing new of are
/// left alone, where they are stored as they would be written.
pub proof fn law_same_containers_are_left_alone(
    workload: CatalogWorkload,
    facts: WorkloadFacts,
    labels: Option<&TextMap<String>>,
    dependencies: Option<&(TextSet, TextSet)>,
    u: CatalogWorkloadUpdate,
)
    requires
        call_ensures(
            compute_catalog_workload_update,
            (&workload, &facts, labels, dependencies),
            u,
        ),
        workload.containers_canonical,
        workload.containers@.len() == facts.containers@.len(),
        forall|i: int, j: int|
            0 <= i < j < workload.containers@.len() ==> (#[trigger] workload.containers@[i]).name@
                != (#[trigger] workload.containers@[j]).name@,
        forall|i: int|
            0 <= i < facts.containers@.len() ==> same_in_manifest(
                #[trigger] workload.containers@[i],
                facts.containers@[i],
            ),
    ensures
        !u.containers_changed,
        u.containers is None,
{
    let known = container_views(workload.containers@);
    let new = container_views(facts.containers@);
    assert(known.len() == workload.containers@.len() && new.len() == facts.containers@.len());
    assert forall|i: int, j: int| 0 <= i < j < known.len() implies (#[trigger] known[i]).name != (
    #[trigger] known[j]).name by {
        assert(known[i] == workload.containers@[i]@ && known[j] == workload.containers@[j]@);
        assert(workload.containers@[i].name@ != workload.containers@[j].name@);
    }
    assert forall|i: int|
        #![trigger known[i]]
        #![trigger new[i]]
        0 <= i < known.len() implies {
        &&& known[i].name == new[i].name
        &&& known[i].original_image == new[i].original_image
        &&& known[i].cpu_request == new[i].cpu_request
        &&& known[i].cpu_limit == new[i].cpu_limit
        &&& known[i].memory_request == new[i].memory_request
        &&& known[i].memory_limit == new[i].memory_limit
        &&& known[i].ports == new[i].ports
    } by {
        assert(known[i] == workload.containers@[i]@ && new[i] == facts.containers@[i]@);
        assert(same_in_manifest(workload.containers@[i], facts.containers@[i]));
        lemma_view_of_manifest_part(workload.containers@[i], facts.containers@[i]);
    }
    law_merge_of_the_known(known, new);
}

// ---------------------------------------------------------------------------
// Stored labels and dependencies
// ---------------------------------------------------------------------------

/// A stored label of a workload.
#[derive(Debug)]
pub struct LabelRow {
    pub workload_id: u128,
    pub label_key: String,
    pub label_value: String,
}

/// A stored dependency of a workload.
#[derive(Debug)]
pub struct DependencyRow {
    pub workload_id: u128,
    pub resource_type: String,
    pub resource_name: String,
}

/// The stored labels of each workload; a later row replaces an earlier one of
/// the same key.
pub open spec fn labels_by_workload(rows: Seq<LabelRow>) -> Map<u128, Map<Seq<char>, Seq<char>>>
    decreases rows.len(),
{
    if rows.len() == 0 {
        Map::empty()
    } else {
        let m = labels_by_workload(rows.drop_last());
        let row = rows.last();
        let mine = if m.contains_key(row.workload_id) {
            m[row.workload_id]
        } else {
            Map::empty()
        };
        m.insert(row.workload_id, mine.insert(row.label_key@, row.label_value@))
    }
}

/// The stored dependencies of each workload: ConfigMaps and Secrets. Rows of
/// another type say nothing but that the workload has rows.
pub open spec fn dependencies_by_workload(rows: Seq<DependencyRow>) -> Map<
    u128,
    (Set<Seq<char>>, Set<Seq<char>>),
>
    decreases rows.len(),
{
    if rows.len() == 0 {
        Map::empty()
    } else {
        let m = dependencies_by_workload(rows.drop_last());
        let row = rows.last();
        let (c, s) = if m.contains_key(row.workload_id) {
            m[row.workload_id]
        } else {
            (Set::empty(), Set::empty())
        };
        let kind = lower(row.resource_type@);
        m.insert(
            row.workload_id,
            if kind == "configmap"@ {
                (c.insert(row.resource_name@), s)
            } else if kind == "secret"@ {
                (c, s.insert(row.resource_name@))
            } else {
                (c, s)
            },
        )
    }
}

/// What the catalog knows of labels and dependencies.
#[derive(Debug)]
pub struct ExistingCatalogState {
    pub labels: HashMap<u128, TextMap<String>>,
    pub dependencies: HashMap<u128, (TextSet, TextSet)>,
}

impl ExistingCatalogState {
    /// The labels of each workload.
    pub open spec fn label_texts(&self) -> Map<u128, Map<Seq<char>, Seq<char>>> {
        self.labels@.map_values(|m: TextMap<String>| m.texts())
    }

    /// The dependencies of each workload.
    pub open spec fn dependency_names(&self) -> Map<u128, (Set<Seq<char>>, Set<Seq<char>>)> {
        self.dependencies@.map_values(|d: (TextSet, TextSet)| (d.0@, d.1@))
    }

    /// The labels of one workload.
    pub open spec fn labels_for(&self, id: u128) -> Option<Map<Seq<char>, Seq<char>>> {
        if self.label_texts().contains_key(id) {
            Some(self.label_texts()[id])
        } else {
            None
        }
    }

    /// The dependencies of one workload.
    pub open spec fn dependencies_for(&self, id: u128) -> Option<
        (Set<Seq<char>>, Set<Seq<char>>),
    > {
        if self.dependency_names().contains_key(id) {
            Some(self.dependency_names()[id])
        } else {
            None
        }
    }
}

fn group_labels(rows: &Vec<LabelRow>) -> (r: HashMap<u128, TextMap<String>>)
    ensures
        r@.map_values(|m: TextMap<String>| m.texts()) == labels_by_workload(rows@),
{
    let mut out: HashMap<u128, TextMap<String>> = HashMap::new();
    let mut i: usize = 0;
    proof {
        assert(rows@.take(0) =~= Seq::<LabelRow>::empty());
        assert(out@.map_values(|m: TextMap<String>| m.texts()) =~= labels_by_workload(
            rows@.take(0),
        ));
    }
    while i < rows.len()
        invariant
            i <= rows@.len(),
            out@.map_values(|m: TextMap<String>| m.texts()) == labels_by_workload(
                rows@.take(i as int),
            ),
        decreases rows@.len() - i,
    {
        let row: &LabelRow = &rows[i];
        let ghost texts = out@.map_values(|m: TextMap<String>| m.texts());
        let ghost before = out@;
        proof {
            assert(rows@.take(i as int + 1).drop_last() =~= rows@.take(i as int));
            assert(texts.contains_key(row.workload_id) == out@.contains_key(row.workload_id));
        }
        let mut mine: TextMap<String> = match out.remove(&row.workload_id) {
            Some(m) => m,
            None => TextMap::new(),
        };
        let ghost mine_before = mine.texts();
        proof {
            if !before.contains_key(row.workload_id) {
                assert(mine_before =~= Map::<Seq<char>, Seq<char>>::empty());
            }
        }
        mine.insert(row.label_key.clone(), row.label_value.clone());
        proof {
            assert(mine.texts() =~= mine_before.insert(row.label_key@, row.label_value@));
        }
        let ghost done = mine.texts();
        out.insert(row.workload_id, mine);
        proof {
            assert(out@.map_values(|m: TextMap<String>| m.texts()) =~= texts.insert(
                row.workload_id,
                done,
            ));
        }
        i = i + 1;
    }
    proof {
        assert(rows@.take(rows@.len() as int) =~= rows@);
    }
    out
}

fn group_dependencies(rows: &Vec<DependencyRow>) -> (r: HashMap<u128, (TextSet, TextSet)>)
    ensures
        r@.map_values(|d: (TextSet, TextSet)| (d.0@, d.1@)) == dependencies_by_workload(rows@),
{
    let mut out: HashMap<u128, (TextSet, TextSet)> = HashMap::new();
    let mut i: usize = 0;
    proof {
        assert(rows@.take(0) =~= Seq::<DependencyRow>::empty());
        assert(out@.map_values(|d: (TextSet, TextSet)| (d.0@, d.1@)) =~= dependencies_by_workload(
            rows@.take(0),
        ));
    }
    while i < rows.len()
        invariant
            i <= rows@.len(),
            out@.map_values(|d: (TextSet, TextSet)| (d.0@, d.1@)) == dependencies_by_workload(
                rows@.take(i as int),
            ),
        decreases rows@.len() - i,
    {
        let row: &DependencyRow = &rows[i];
        let ghost names = out@.map_values(|d: (TextSet, TextSet)| (d.0@, d.1@));
        proof {
            assert(rows@.take(i as int + 1).drop_last() =~= rows@.take(i as int));
            assert(names.contains_key(row.workload_id) == out@.contains_key(row.workload_id));
        }
        let (mut configmaps, mut secrets) = match out.remove(&row.workload_id) {
            Some(d) => d,
            None => (TextSet::new(), TextSet::new()),
        };
        let kind: String = to_lower(row.resource_type.as_str());
        if same(kind.as_str(), "configmap") {
            configmaps.insert(row.resource_name.clone());
        } else if same(kind.as_str(), "secret") {
            secrets.insert(row.resource_name.clone());
        }
        let ghost done = (configmaps@, secrets@);
        out.insert(row.workload_id, (configmaps, secrets));
        proof {
            assert(out@.map_values(|d: (TextSet, TextSet)| (d.0@, d.1@)) =~= names.insert(
                row.workload_id,
                done,
            ));
        }
        i = i + 1;
    }
    proof {
        assert(rows@.take(rows@.len() as int) =~= rows@);
    }
    out
}

/// Collects what the catalog knows out of its rows.
pub fn load_existing_catalog_state(
    label_rows: &Vec<LabelRow>,
    dependency_rows: &Vec<DependencyRow>,
) -> (r: ExistingCatalogState)
    ensures
        r.label_texts() == labels_by_workload(label_rows@),
        r.dependency_names() == dependencies_by_workload(dependency_rows@),
{
    ExistingCatalogState {
        labels: group_labels(label_rows),
        dependencies: group_dependencies(dependency_rows),
    }
}

proof fn lemma_dependency_rows(rows: Seq<DependencyRow>, id: u128, name: Seq<char>)
    ensures
        ({
            let m = dependencies_by_workload(rows);
            &&& m.contains_key(id) <==> exists|i: int|
                0 <= i < rows.len() && (#[trigger] rows[i]).workload_id == id
            &&& m.contains_key(id) ==> (m[id].0.contains(name) <==> exists|i: int|
                0 <= i < rows.len() && (#[trigger] rows[i]).workload_id == id && lower(
                    rows[i].resource_type@,
                ) == "configmap"@ && rows[i].resource_name@ == name)
            &&& m.contains_key(id) ==> (m[id].1.contains(name) <==> exists|i: int|
                0 <= i < rows.len() && (#[trigger] rows[i]).workload_id == id && lower(
                    rows[i].resource_type@,
                ) == "secret"@ && rows[i].resource_name@ == name)
        }),
    decreases rows.len(),
{
    reveal_strlit("configmap");
    reveal_strlit("secret");
    assert("configmap"@[0] == 'c' && "secret"@[0] == 's');
    if rows.len() > 0 {
        let n = rows.len() - 1;
        let shorter = rows.drop_last();
        lemma_dependency_rows(shorter, id, name);
        let m = dependencies_by_workload(shorter);
        assert(rows[n] == rows.last());
        assert forall|i: int| 0 <= i < n implies #[trigger] shorter[i] == rows[i] by {}
        if exists|i: int| 0 <= i < shorter.len() && (#[trigger] shorter[i]).workload_id == id {
            let i = choose|i: int|
                0 <= i < shorter.len() && (#[trigger] shorter[i]).workload_id == id;
            assert(rows[i].workload_id == id);
        }
        if exists|i: int|
            0 <= i < shorter.len() && (#[trigger] shorter[i]).workload_id == id && lower(
                shorter[i].resource_type@,
            ) == "configmap"@ && shorter[i].resource_name@ == name {
            let i = choose|i: int|
                0 <= i < shorter.len() && (#[trigger] shorter[i]).workload_id == id && lower(
                    shorter[i].resource_type@,
                ) == "configmap"@ && shorter[i].resource_name@ == name;
            assert(rows[i].workload_id == id);
            assert(m.contains_key(id) && m[id].0.contains(name));
        }
        if exists|i: int|
            0 <= i < shorter.len() && (#[trigger] shorter[i]).workload_id == id && lower(
                shorter[i].resource_type@,
            ) == "secret"@ && shorter[i].resource_name@ == name {
            let i = choose|i: int|
                0 <= i < shorter.len() && (#[trigger] shorter[i]).workload_id == id && lower(
                    shorter[i].resource_type@,
                ) == "secret"@ && shorter[i].resource_name@ == name;
            assert(rows[i].workload_id == id);
            assert(m.contains_key(id) && m[id].1.contains(name));
        }
        if exists|i: int| 0 <= i < rows.len() && (#[trigger] rows[i]).workload_id == id {
            let i = choose|i: int| 0 <= i < rows.len() && (#[trigger] rows[i]).workload_id == id;
            if i < n {
                assert(shorter[i].workload_id == id);
            }
        }
        if exists|i: int|
            0 <= i < rows.len() && (#[trigger] rows[i]).workload_id == id && lower(
                rows[i].resource_type@,
            ) == "configmap"@ && rows[i].resource_name@ == name {
            let i = choose|i: int|
                0 <= i < rows.len() && (#[trigger] rows[i]).workload_id == id && lower(
                    rows[i].resource_type@,
                ) == "configmap"@ && rows[i].resource_name@ == name;
            if i < n {
                assert(shorter[i].workload_id == id);
            }
        }
        if exists|i: int|
            0 <= i < rows.len() && (#[trigger] rows[i]).workload_id == id && lower(
                rows[i].resource_type@,
            ) == "secret"@ && rows[i].resource_name@ == name {
            let i = choose|i: int|
                0 <= i < rows.len() && (#[trigger] rows[i]).workload_id == id && lower(
                    rows[i].resource_type@,
                ) == "secret"@ && rows[i].resource_name@ == name;
            if i < n {
                assert(shorter[i].workload_id == id);
            }
        }
    }
}

#[verifier::rlimit(40)]
proof fn lemma_label_rows(rows: Seq<LabelRow>, id: u128, key: Seq<char>)
    ensures
        ({
            let m = labels_by_workload(rows);
            &&& m.contains_key(id) <==> exists|i: int|
                0 <= i < rows.len() && (#[trigger] rows[i]).workload_id == id
            &&& m.contains_key(id) ==> (m[id].contains_key(key) <==> exists|i: int|
                0 <= i < rows.len() && (#[trigger] rows[i]).workload_id == id && rows[i].label_key@
                    == key)
            &&& forall|i: int|
                0 <= i < rows.len() && (#[trigger] rows[i]).workload_id == id
                    && rows[i].label_key@ == key && (forall|j: int|
                    i < j < rows.len() ==> !((#[trigger] rows[j]).workload_id == id
                        && rows[j].label_key@ == key)) ==> m.contains_key(id)
                    && m[id].contains_key(key) && m[id][key] == rows[i].label_value@
        }),
    decreases rows.len(),
{
    if rows.len() > 0 {
        let n = rows.len() - 1;
        let shorter = rows.drop_last();
        lemma_label_rows(shorter, id, key);
        let m = labels_by_workload(shorter);
        assert(rows[n] == rows.last());
        assert forall|i: int| 0 <= i < n implies #[trigger] shorter[i] == rows[i] by {}
        if exists|i: int| 0 <= i < shorter.len() && (#[trigger] shorter[i]).workload_id == id {
            let i = choose|i: int|
                0 <= i < shorter.len() && (#[trigger] shorter[i]).workload_id == id;
            assert(rows[i].workload_id == id);
        }
        if exists|i: int| 0 <= i < rows.len() && (#[trigger] rows[i]).workload_id == id {
            let i = choose|i: int| 0 <= i < rows.len() && (#[trigger] rows[i]).workload_id == id;
            if i < n {
                assert(shorter[i].workload_id == id);
            }
        }
        if exists|i: int|
            0 <= i < shorter.len() && (#[trigger] shorter[i]).workload_id == id
                && shorter[i].label_key@ == key {
            let i = choose|i: int|
                0 <= i < shorter.len() && (#[trigger] shorter[i]).workload_id == id
                    && shorter[i].label_key@ == key;
            assert(rows[i].workload_id == id);
            assert(m.contains_key(id) && m[id].contains_key(key));
        }
        if exists|i: int|
            0 <= i < rows.len() && (#[trigger] rows[i]).workload_id == id && rows[i].label_key@
                == key {
            let i = choose|i: int|
                0 <= i < rows.len() && (#[trigger] rows[i]).workload_id == id && rows[i].label_key@
                    == key;
            if i < n {
                assert(shorter[i].workload_id == id);
            }
        }
        assert forall|i: int|
            0 <= i < rows.len() && (#[trigger] rows[i]).workload_id == id && rows[i].label_key@
                == key && (forall|j: int|
                i < j < rows.len() ==> !((#[trigger] rows[j]).workload_id == id
                    && rows[j].label_key@ == key)) implies labels_by_workload(rows).contains_key(
            id,
        ) && labels_by_workload(rows)[id].contains_key(key) && labels_by_workload(rows)[id][key]
            == rows[i].label_value@ by {
            if i < n {
                assert(shorter[i].workload_id == id);
                assert forall|j: int| i < j < shorter.len() implies !((
                #[trigger] shorter[j]).workload_id == id && shorter[j].label_key@ == key) by {
                    assert(!(rows[j].workload_id == id && rows[j].label_key@ == key));
                }
                assert(!(rows[n].workload_id == id && rows[n].label_key@ == key));
            }
        }
    }
}

/// What is known of a workload's dependencies is just what its rows say: the
/// names of its rows for ConfigMaps, and those of its rows for Secrets, the
/// type written in whatever case.
pub proof fn law_dependency_rows_are_loaded(
    label_rows: Vec<LabelRow>,
    rows: Vec<DependencyRow>,
    r: ExistingCatalogState,
    id: u128,
    name: Seq<char>,
)
    requires
        call_ensures(load_existing_catalog_state, (&label_rows, &rows), r),
    ensures
        r.dependencies@.contains_key(id) <==> exists|i: int|
            0 <= i < rows@.len() && (#[trigger] rows@[i]).workload_id == id,
        r.dependencies@.contains_key(id) ==> {
            &&& r.dependencies@[id].0@.contains(name) <==> exists|i: int|
                0 <= i < rows@.len() && (#[trigger] rows@[i]).workload_id == id && lower(
                    rows@[i].resource_type@,
                ) == "configmap"@ && rows@[i].resource_name@ == name
            &&& r.dependencies@[id].1@.contains(name) <==> exists|i: int|
                0 <= i < rows@.len() && (#[trigger] rows@[i]).workload_id == id && lower(
                    rows@[i].resource_type@,
                ) == "secret"@ && rows@[i].resource_name@ == name
        },
{
    lemma_dependency_rows(rows@, id, name);
    assert(r.dependency_names().contains_key(id) == r.dependencies@.contains_key(id));
    if r.dependencies@.contains_key(id) {
        assert(r.dependency_names()[id] == (r.dependencies@[id].0@, r.dependencies@[id].1@));
    }
}

/// What is known of a workload's labels is just what its rows say, and the
/// last row of a key counts.
pub proof fn law_label_rows_are_loaded(
    rows: Vec<LabelRow>,
    dependency_rows: Vec<DependencyRow>,
    r: ExistingCatalogState,
    id: u128,
    key: Seq<char>,
)
    requires
        call_ensures(load_existing_catalog_state, (&rows, &dependency_rows), r),
    ensures
        r.labels@.contains_key(id) <==> exists|i: int|
            0 <= i < rows@.len() && (#[trigger] rows@[i]).workload_id == id,
        r.labels@.contains_key(id) ==> (r.labels@[id].texts().contains_key(key) <==> exists|i: int|
            0 <= i < rows@.len() && (#[trigger] rows@[i]).workload_id == id && rows@[i].label_key@
                == key),
        forall|i: int|
            0 <= i < rows@.len() && (#[trigger] rows@[i]).workload_id == id
                && rows@[i].label_key@ == key && (forall|j: int|
                i < j < rows@.len() ==> !((#[trigger] rows@[j]).workload_id == id
                    && rows@[j].label_key@ == key)) ==> r.labels@[id].texts()[key]
                == rows@[i].label_value@,
{
    lemma_label_rows(rows@, id, key);
    assert(r.label_texts().contains_key(id) == r.labels@.contains_key(id));
    if r.labels@.contains_key(id) {
        assert(r.label_texts()[id] == r.labels@[id].texts());
    }
}

// ---------------------------------------------------------------------------
// Grouping by catalog
// ---------------------------------------------------------------------------

/// A catalog that gets a new version, and the workloads that changed in it.
#[derive(Debug, PartialEq, Eq)]
pub struct CatalogBump {
    pub catalog_id: u128,
    pub workload_ids: Vec<u128>,
}

/// What each of a list of bumps holds.
pub open spec fn bump_views(bumps: Seq<CatalogBump>) -> Seq<(u128, Seq<u128>)> {
    Seq::new(bumps.len(), |i: int| (bumps[i].catalog_id, bumps[i].workload_ids@))
}

/// The index of the group of a catalog; the number of groups where it has
/// none.
pub open spec fn group_index(groups: Seq<(u128, Seq<u128>)>, catalog: u128) -> nat
    decreases groups.len(),
{
    if groups.len() == 0 || groups[0].0 == catalog {
        0
    } else {
        1 + group_index(groups.drop_first(), catalog)
    }
}

/// The groups with one more workload in the group of its catalog.
pub open spec fn add_to_group(groups: Seq<(u128, Seq<u128>)>, catalog: u128, workload: u128) -> Seq<
    (u128, Seq<u128>),
> {
    let i = group_index(groups, catalog) as int;
    if i < groups.len() {
        groups.update(i, (catalog, groups[i].1.push(workload)))
    } else {
        groups.push((catalog, seq![workload]))
    }
}

/// Workloads grouped by catalog; each pair is a catalog and a workload.
pub open spec fn grouped(pairs: Seq<(u128, u128)>) -> Seq<(u128, Seq<u128>)>
    decreases pairs.len(),
{
    if pairs.len() == 0 {
        seq![]
    } else {
        add_to_group(grouped(pairs.drop_last()), pairs.last().0, pairs.last().1)
    }
}

proof fn lemma_group_index(groups: Seq<(u128, Seq<u128>)>, catalog: u128)
    ensures
        group_index(groups, catalog) <= groups.len(),
        group_index(groups, catalog) < groups.len() ==> groups[group_index(
            groups,
            catalog,
        ) as int].0 == catalog,
        forall|j: int| 0 <= j < group_index(groups, catalog) ==> groups[j].0 != catalog,
    decreases groups.len(),
{
    if groups.len() > 0 && groups[0].0 != catalog {
        let rest = groups.drop_first();
        lemma_group_index(rest, catalog);
        assert forall|j: int| 0 <= j < group_index(groups, catalog) implies groups[j].0
            != catalog by {
            if j > 0 {
                assert(rest[j - 1] == groups[j]);
            }
        }
    }
}

fn push_to_group(bumps: &mut Vec<CatalogBump>, catalog: u128, workload: u128)
    ensures
        bump_views(final(bumps)@) == add_to_group(bump_views(old(bumps)@), catalog, workload),
{
    let ghost groups = bump_views(bumps@);
    let mut i: usize = 0;
    proof {
        assert(groups.skip(0) =~= groups);
    }
    while i < bumps.len() && bumps[i].catalog_id != catalog
        invariant
            i <= bumps@.len(),
            bumps@ == old(bumps)@,
            groups == bump_views(bumps@),
            group_index(groups, catalog) == i + group_index(groups.skip(i as int), catalog),
        decreases bumps@.len() - i,
    {
        proof {
            assert(groups.skip(i as int)[0] == groups[i as int]);
            assert(groups.skip(i as int).drop_first() =~= groups.skip(i as int + 1));
        }
        i = i + 1;
    }
    proof {
        if i < bumps@.len() {
            assert(groups.skip(i as int)[0] == groups[i as int]);
        }
        assert(group_index(groups, catalog) == i);
    }
    if i < bumps.len() {
        let mut ids: Vec<u128> = bumps[i].workload_ids.clone();
        proof {
            assert(ids@ =~= bumps@[i as int].workload_ids@);
        }
        ids.push(workload);
        let ghost grown = ids@;
        bumps.set(i, CatalogBump { catalog_id: catalog, workload_ids: ids });
        proof {
            assert(bump_views(bumps@) =~= groups.update(i as int, (catalog, grown)));
        }
    } else {
        let ids: Vec<u128> = vec![workload];
        let ghost grown = ids@;
        bumps.push(CatalogBump { catalog_id: catalog, workload_ids: ids });
        proof {
            assert(grown =~= seq![workload]);
            assert(bump_views(bumps@) =~= groups.push((catalog, grown)));
        }
    }
}

/// Groups workloads by catalog; each pair is a catalog and a workload.
pub fn group_by_catalog(pairs: &Vec<(u128, u128)>) -> (r: Vec<CatalogBump>)
    ensures
        bump_views(r@) == grouped(pairs@),
{
    let mut out: Vec<CatalogBump> = Vec::new();
    let mut i: usize = 0;
    proof {
        assert(pairs@.take(0) =~= Seq::<(u128, u128)>::empty());
        assert(bump_views(out@) =~= Seq::<(u128, Seq<u128>)>::empty());
    }
    while i < pairs.len()
        invariant
            i <= pairs@.len(),
            bump_views(out@) == grouped(pairs@.take(i as int)),
        decreases pairs@.len() - i,
    {
        proof {
            assert(pairs@.take(i as int + 1).drop_last() =~= pairs@.take(i as int));
        }
        push_to_group(&mut out, pairs[i].0, pairs[i].1);
        i = i + 1;
    }
    proof {
        assert(pairs@.take(pairs@.len() as int) =~= pairs@);
    }
    out
}

/// No catalog has two groups.
pub open spec fn distinct_groups(groups: Seq<(u128, Seq<u128>)>) -> bool {
    forall|i: int, j: int|
        0 <= i < j < groups.len() ==> (#[trigger] groups[i]).0 != (#[trigger] groups[j]).0
}

/// Some group of the catalog holds the workload.
pub open spec fn in_group(groups: Seq<(u128, Seq<u128>)>, catalog: u128, workload: u128) -> bool {
    exists|i: int|
        0 <= i < groups.len() && (#[trigger] groups[i]).0 == catalog && groups[i].1.contains(
            workload,
        )
}

proof fn lemma_add_to_group(groups: Seq<(u128, Seq<u128>)>, catalog: u128, workload: u128)
    requires
        distinct_groups(groups),
    ensures
        distinct_groups(add_to_group(groups, catalog, workload)),
        forall|c: u128, w: u128|
            in_group(add_to_group(groups, catalog, workload), c, w) <==> (in_group(groups, c, w) || (
            c == catalog && w == workload)),
{
    lemma_group_index(groups, catalog);
    let k = group_index(groups, catalog) as int;
    let after = add_to_group(groups, catalog, workload);
    assert forall|c: u128, w: u128|
        in_group(after, c, w) <==> (in_group(groups, c, w) || (c == catalog && w == workload)) by {
        if in_group(after, c, w) {
            let i = choose|i: int|
                0 <= i < after.len() && (#[trigger] after[i]).0 == c && after[i].1.contains(w);
            let p = choose|p: int| 0 <= p < after[i].1.len() && after[i].1[p] == w;
            if i == k {
                if k < groups.len() && p < groups[k].1.len() {
                    assert(groups[k].1[p] == w);
                    assert(groups[k].1.contains(w));
                }
            } else {
                assert(groups[i] == after[i]);
            }
        }
        if in_group(groups, c, w) {
            let i = choose|i: int|
                0 <= i < groups.len() && (#[trigger] groups[i]).0 == c && groups[i].1.contains(w);
            let p = choose|p: int| 0 <= p < groups[i].1.len() && groups[i].1[p] == w;
            assert(after[i].1[p] == w);
            assert(after[i].0 == c);
            assert(after[i].1.contains(w));
        }
        if c == catalog && w == workload {
            assert(after[k].0 == c);
            assert(after[k].1[after[k].1.len() - 1] == w);
            assert(after[k].1.contains(w));
        }
    }
}

/// Every catalog has one group, and it holds just the workloads that were
/// given for it.
pub proof fn law_grouped(pairs: Seq<(u128, u128)>)
    ensures
        distinct_groups(grouped(pairs)),
        forall|c: u128, w: u128|
            #![trigger in_group(grouped(pairs), c, w)]
            in_group(grouped(pairs), c, w) <==> pairs.contains((c, w)),
    decreases pairs.len(),
{
    if pairs.len() == 0 {
        assert(forall|c: u128, w: u128| !in_group(grouped(pairs), c, w));
    } else {
        let shorter = pairs.drop_last();
        let last = pairs.last();
        law_grouped(shorter);
        lemma_add_to_group(grouped(shorter), last.0, last.1);
        assert forall|c: u128, w: u128|
            #![trigger in_group(grouped(pairs), c, w)]
            in_group(grouped(pairs), c, w) <==> pairs.contains((c, w)) by {
            assert(grouped(pairs) == add_to_group(grouped(shorter), last.0, last.1));
            assert(in_group(grouped(shorter), c, w) <==> shorter.contains((c, w)));
            assert(in_group(add_to_group(grouped(shorter), last.0, last.1), c, w) <==> (in_group(
                grouped(shorter),
                c,
                w,
            ) || (c == last.0 && w == last.1)));
            if pairs.contains((c, w)) {
                let i = choose|i: int| 0 <= i < pairs.len() && pairs[i] == (c, w);
                if i < shorter.len() {
                    assert(shorter[i] == (c, w));
                    assert(shorter.contains((c, w)));
                }
            }
            if shorter.contains((c, w)) {
                let i = choose|i: int| 0 <= i < shorter.len() && shorter[i] == (c, w);
                assert(pairs[i] == (c, w));
            }
            assert(pairs[pairs.len() - 1] == last);
        }
    }
}

} // verus!
