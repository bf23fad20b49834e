//! What a workload manifest says of its pods: containers, labels, the
//! ConfigMaps and Secrets that it reads, and how many replicas are ready.
use crate::json::{
    find_member, get_in, i32_in, i32_of, items_of, json_of, json_views, json_without, list_in, member,
    member_of, opt_view, text_in, text_of, texts_in, texts_of, value_content, without,
    yaml_member, yaml_member_content, Json, JsonView,
};
use crate::kube_rpc::ResourceType;
use crate::kube_types::{
    container_port_views, container_views, ContainerPortView, ContainerView, KubeContainerImage,
    KubeContainerInfo, KubeContainerPort, KubeWorkloadKind,
};
use crate::text::{
    concat, concat3, is_space, opt_text, trim, trim_end, trim_start, trim_string,
};
use crate::text_map::{TextMap, TextSet};
use vstd::prelude::*;

verus! {

/// The workload kind of a resource, where it is a workload.
pub open spec fn workload_kind(resource_type: ResourceType) -> Option<KubeWorkloadKind> {
    match resource_type {
        ResourceType::Deployment => Some(KubeWorkloadKind::Deployment),
        ResourceType::StatefulSet => Some(KubeWorkloadKind::StatefulSet),
        ResourceType::DaemonSet => Some(KubeWorkloadKind::DaemonSet),
        ResourceType::ReplicaSet => Some(KubeWorkloadKind::ReplicaSet),
        ResourceType::Job => Some(KubeWorkloadKind::Job),
        ResourceType::CronJob => Some(KubeWorkloadKind::CronJob),
        ResourceType::ConfigMap => None,
        ResourceType::Secret => None,
        ResourceType::Service => None,
    }
}

pub fn workload_kind_for(resource_type: ResourceType) -> (r: Option<KubeWorkloadKind>)
    ensures
        r == workload_kind(resource_type),
{
    match resource_type {
        ResourceType::Deployment => Some(KubeWorkloadKind::Deployment),
        ResourceType::StatefulSet => Some(KubeWorkloadKind::StatefulSet),
        ResourceType::DaemonSet => Some(KubeWorkloadKind::DaemonSet),
        ResourceType::ReplicaSet => Some(KubeWorkloadKind::ReplicaSet),
        ResourceType::Job => Some(KubeWorkloadKind::Job),
        ResourceType::CronJob => Some(KubeWorkloadKind::CronJob),
        ResourceType::ConfigMap | ResourceType::Secret | ResourceType::Service => None,
    }
}

// ---------------------------------------------------------------------------
// Containers
// ---------------------------------------------------------------------------

/// The quantity of a resource among a container's requests or limits.
pub open spec fn quantity_of(container: JsonView, section: Seq<char>, resource: Seq<char>) -> Option<
    Seq<char>,
> {
    text_of(member_of(member_of(member(container, "resources"@), section), resource))
}

fn quantity_in(container: &Json, section: &str, resource: &str) -> (r: Option<String>)
    ensures
        opt_text(r) == quantity_of(container@, section@, resource@),
{
    text_in(get_in(get_in(container.get("resources"), section), resource))
}

/// A text member that a manifest may leave out, and then counts as empty.
pub open spec fn text_or_empty(j: Option<JsonView>) -> Seq<char> {
    match text_of(j) {
        Some(t) => t,
        None => seq![],
    }
}

fn text_in_or_empty(j: Option<&Json>) -> (r: String)
    ensures
        r@ == text_or_empty(opt_view(j)),
{
    match text_in(j) {
        Some(t) => t,
        None => {
            let r = String::new();
            proof {
                assert(r@ =~= Seq::<char>::empty());
            }
            r
        },
    }
}

/// A port of a container.
pub open spec fn port_of(port: JsonView) -> ContainerPortView {
    ContainerPortView {
        name: text_of(member(port, "name"@)),
        container_port: match i32_of(member(port, "containerPort"@)) {
            Some(p) => p,
            None => 0,
        },
        protocol: text_of(member(port, "protocol"@)),
    }
}

/// The ports of a container.
pub open spec fn ports_of(container: JsonView) -> Seq<ContainerPortView> {
    items_of(member(container, "ports"@)).map_values(|p: JsonView| port_of(p))
}

fn ports_in(container: &Json) -> (r: Vec<KubeContainerPort>)
    ensures
        container_port_views(r@) == ports_of(container@),
{
    let mut out: Vec<KubeContainerPort> = Vec::new();
    if let Some(items) = list_in(container.get("ports")) {
        let mut i: usize = 0;
        while i < items.len()
            invariant
                i <= items@.len(),
                items_of(member(container@, "ports"@)) == json_views(items@),
                out@.len() == i,
                forall|k: int| 0 <= k < i ==> (#[trigger] out@[k])@ == port_of(items@[k]@),
            decreases items@.len() - i,
        {
            let item: &Json = &items[i];
            out.push(
                KubeContainerPort {
                    name: text_in(item.get("name")),
                    container_port: match i32_in(item.get("containerPort")) {
                        Some(p) => p,
                        None => 0,
                    },
                    protocol: text_in(item.get("protocol")),
                },
            );
            proof {
                assert(out@[i as int]@ == port_of(items@[i as int]@));
            }
            i = i + 1;
        }
    }
    proof {
        assert(container_port_views(out@) =~= ports_of(container@));
    }
    out
}

/// A container of a pod; the name of the container where it has no image.
pub open spec fn container_of(container: JsonView) -> Result<ContainerView, Seq<char>> {
    let name = text_or_empty(member(container, "name"@));
    match text_of(member(container, "image"@)) {
        Some(image) => Ok(
            ContainerView {
                name,
                original_image: image,
                image: None,
                cpu_request: quantity_of(container, "requests"@, "cpu"@),
                cpu_limit: quantity_of(container, "limits"@, "cpu"@),
                memory_request: quantity_of(container, "requests"@, "memory"@),
                memory_limit: quantity_of(container, "limits"@, "memory"@),
                env_vars: seq![],
                original_env_vars: seq![],
                ports: ports_of(container),
            },
        ),
        None => Err(name),
    }
}

fn container_in(container: &Json) -> (r: Result<KubeContainerInfo, String>)
    ensures
        match r {
            Ok(c) => container_of(container@) == Ok::<ContainerView, Seq<char>>(c@),
            Err(name) => container_of(container@) == Err::<ContainerView, Seq<char>>(name@),
        },
{
    let name: String = text_in_or_empty(container.get("name"));
    let image: String = match text_in(container.get("image")) {
        Some(image) => image,
        None => return Err(name),
    };
    let c = KubeContainerInfo {
        name,
        original_image: image,
        image: KubeContainerImage::FollowOriginal,
        cpu_request: quantity_in(container, "requests", "cpu"),
        cpu_limit: quantity_in(container, "limits", "cpu"),
        memory_request: quantity_in(container, "requests", "memory"),
        memory_limit: quantity_in(container, "limits", "memory"),
        env_vars: Vec::new(),
        original_env_vars: Vec::new(),
        ports: ports_in(container),
    };
    proof {
        assert(c@ =~= container_of(container@)->Ok_0);
    }
    Ok(c)
}

/// The containers of a pod, in order; the name of the first container that
/// has no image, where there is one.
pub open spec fn containers_of(items: Seq<JsonView>) -> Result<Seq<ContainerView>, Seq<char>>
    decreases items.len(),
{
    if items.len() == 0 {
        Ok(seq![])
    } else {
        match containers_of(items.drop_last()) {
            Err(name) => Err(name),
            Ok(earlier) => match container_of(items.last()) {
                Err(name) => Err(name),
                Ok(c) => Ok(earlier.push(c)),
            },
        }
    }
}

proof fn lemma_containers_err(items: Seq<JsonView>, i: int)
    requires
        0 <= i <= items.len(),
        containers_of(items.take(i)) is Err,
    ensures
        containers_of(items) == containers_of(items.take(i)),
    decreases items.len() - i,
{
    if i < items.len() {
        assert(items.take(i + 1).drop_last() =~= items.take(i));
        lemma_containers_err(items, i + 1);
    } else {
        assert(items.take(i) =~= items);
    }
}

/// The containers of a pod specification.
pub fn extract_pod_spec_containers(pod_spec: &Json) -> (r: Result<Vec<KubeContainerInfo>, String>)
    ensures
        match r {
            Ok(c) => containers_of(items_of(member(pod_spec@, "containers"@))) == Ok::<
                Seq<ContainerView>,
                Seq<char>,
            >(container_views(c@)),
            Err(name) => containers_of(items_of(member(pod_spec@, "containers"@))) == Err::<
                Seq<ContainerView>,
                Seq<char>,
            >(name@),
        },
{
    let mut out: Vec<KubeContainerInfo> = Vec::new();
    let ghost all = items_of(member(pod_spec@, "containers"@));
    proof {
        assert(container_views(out@) =~= Seq::<ContainerView>::empty());
    }
    if let Some(items) = list_in(pod_spec.get("containers")) {
        let mut i: usize = 0;
        proof {
            assert(all.take(0) =~= Seq::<JsonView>::empty());
        }
        while i < items.len()
            invariant
                i <= items@.len(),
                all == json_views(items@),
                all == items_of(member(pod_spec@, "containers"@)),
                containers_of(all.take(i as int)) == Ok::<Seq<ContainerView>, Seq<char>>(
                    container_views(out@),
                ),
            decreases items@.len() - i,
        {
            proof {
                assert(all.take(i as int + 1).drop_last() =~= all.take(i as int));
                assert(all.take(i as int + 1).last() == items@[i as int]@);
            }
            match container_in(&items[i]) {
                Ok(c) => {
                    let ghost before = container_views(out@);
                    out.push(c);
                    proof {
                        assert(container_views(out@) =~= before.push(c@));
                    }
                },
                Err(name) => {
                    proof {
                        lemma_containers_err(all, i as int + 1);
                    }
                    return Err(name);
                },
            }
            i = i + 1;
        }
        proof {
            assert(all.take(all.len() as int) =~= all);
        }
    }
    Ok(out)
}

// ---------------------------------------------------------------------------
// ConfigMaps and Secrets
// ---------------------------------------------------------------------------

/// The members under which a pod specification names resources of one kind.
pub struct RefKeys {
    pub env: &'static str,
    pub env_from: &'static str,
    pub volume: &'static str,
    pub volume_name: &'static str,
}

/// What a `RefKeys` holds.
pub struct RefKeysView {
    pub env: Seq<char>,
    pub env_from: Seq<char>,
    pub volume: Seq<char>,
    pub volume_name: Seq<char>,
}

impl View for RefKeys {
    type V = RefKeysView;

    open spec fn view(&self) -> RefKeysView {
        RefKeysView {
            env: self.env@,
            env_from: self.env_from@,
            volume: self.volume@,
            volume_name: self.volume_name@,
        }
    }
}

/// Where a pod specification names ConfigMaps.
pub open spec fn configmap_keys() -> RefKeysView {
    RefKeysView {
        env: "configMapKeyRef"@,
        env_from: "configMapRef"@,
        volume: "configMap"@,
        volume_name: "name"@,
    }
}

/// Where a pod specification names Secrets.
pub open spec fn secret_keys() -> RefKeysView {
    RefKeysView {
        env: "secretKeyRef"@,
        env_from: "secretRef"@,
        volume: "secret"@,
        volume_name: "secretName"@,
    }
}

/// `names` with one more name, trimmed; an empty name is left out.
pub open spec fn add_name(names: Set<Seq<char>>, name: Option<Seq<char>>) -> Set<Seq<char>> {
    match name {
        Some(raw) => if trim(raw).len() > 0 {
            names.insert(trim(raw))
        } else {
            names
        },
        None => names,
    }
}

fn add_name_to(names: &mut TextSet, name: Option<&Json>)
    ensures
        final(names)@ == add_name(old(names)@, text_of(opt_view(name))),
{
    if let Some(raw) = text_in(name) {
        let trimmed: String = trim_string(raw.as_str());
        if !trimmed.as_str().is_empty() {
            names.insert(trimmed);
        }
    }
}

/// The name that a member of a document refers to.
pub open spec fn ref_name(j: Option<JsonView>, key: Seq<char>, name_key: Seq<char>) -> Option<
    Seq<char>,
> {
    text_of(member_of(member_of(j, key), name_key))
}

/// The names that environment variables refer to.
pub open spec fn env_names(names: Set<Seq<char>>, envs: Seq<JsonView>, keys: RefKeysView) -> Set<
    Seq<char>,
>
    decreases envs.len(),
{
    if envs.len() == 0 {
        names
    } else {
        add_name(
            env_names(names, envs.drop_last(), keys),
            ref_name(member(envs.last(), "valueFrom"@), keys.env, "name"@),
        )
    }
}

fn add_env_names(names: &mut TextSet, envs: Option<&Json>, keys: &RefKeys)
    ensures
        final(names)@ == env_names(old(names)@, items_of(opt_view(envs)), keys@),
{
    if let Some(items) = list_in(envs) {
        let ghost all = json_views(items@);
        let mut i: usize = 0;
        proof {
            assert(all.take(0) =~= Seq::<JsonView>::empty());
        }
        while i < items.len()
            invariant
                i <= items@.len(),
                all == json_views(items@),
                names@ == env_names(old(names)@, all.take(i as int), keys@),
            decreases items@.len() - i,
        {
            proof {
                assert(all.take(i as int + 1).drop_last() =~= all.take(i as int));
                assert(all.take(i as int + 1).last() == items@[i as int]@);
            }
            add_name_to(names, get_in(get_in(items[i].get("valueFrom"), keys.env), "name"));
            i = i + 1;
        }
        proof {
            assert(all.take(all.len() as int) =~= all);
        }
    }
}

/// The names that whole-resource sources of a list refer to.
pub open spec fn source_names(
    names: Set<Seq<char>>,
    sources: Seq<JsonView>,
    key: Seq<char>,
) -> Set<Seq<char>>
    decreases sources.len(),
{
    if sources.len() == 0 {
        names
    } else {
        add_name(
            source_names(names, sources.drop_last(), key),
            ref_name(Some(sources.last()), key, "name"@),
        )
    }
}

fn add_source_names(names: &mut TextSet, sources: Option<&Json>, key: &str)
    ensures
        final(names)@ == source_names(old(names)@, items_of(opt_view(sources)), key@),
{
    if let Some(items) = list_in(sources) {
        let ghost all = json_views(items@);
        let mut i: usize = 0;
        proof {
            assert(all.take(0) =~= Seq::<JsonView>::empty());
        }
        while i < items.len()
            invariant
                i <= items@.len(),
                all == json_views(items@),
                names@ == source_names(old(names)@, all.take(i as int), key@),
            decreases items@.len() - i,
        {
            proof {
                assert(all.take(i as int + 1).drop_last() =~= all.take(i as int));
                assert(all.take(i as int + 1).last() == items@[i as int]@);
            }
            add_name_to(names, get_in(items[i].get(key), "name"));
            i = i + 1;
        }
        proof {
            assert(all.take(all.len() as int) =~= all);
        }
    }
}

/// The names that the environments of containers refer to.
pub open spec fn container_names(
    names: Set<Seq<char>>,
    containers: Seq<JsonView>,
    keys: RefKeysView,
) -> Set<Seq<char>>
    decreases containers.len(),
{
    if containers.len() == 0 {
        names
    } else {
        let c = containers.last();
        source_names(
            env_names(
                container_names(names, containers.drop_last(), keys),
                items_of(member(c, "env"@)),
                keys,
            ),
            items_of(member(c, "envFrom"@)),
            keys.env_from,
        )
    }
}

fn add_container_names(names: &mut TextSet, containers: Option<&Json>, keys: &RefKeys)
    ensures
        final(names)@ == container_names(old(names)@, items_of(opt_view(containers)), keys@),
{
    if let Some(items) = list_in(containers) {
        let ghost all = json_views(items@);
        let mut i: usize = 0;
        proof {
            assert(all.take(0) =~= Seq::<JsonView>::empty());
        }
        while i < items.len()
            invariant
                i <= items@.len(),
                all == json_views(items@),
                names@ == container_names(old(names)@, all.take(i as int), keys@),
            decreases items@.len() - i,
        {
            proof {
                assert(all.take(i as int + 1).drop_last() =~= all.take(i as int));
                assert(all.take(i as int + 1).last() == items@[i as int]@);
            }
            add_env_names(names, items[i].get("env"), keys);
            add_source_names(names, items[i].get("envFrom"), keys.env_from);
            i = i + 1;
        }
        proof {
            assert(all.take(all.len() as int) =~= all);
        }
    }
}

/// The names that volumes refer to, themselves or through projected sources.
pub open spec fn volume_names(
    names: Set<Seq<char>>,
    volumes: Seq<JsonView>,
    keys: RefKeysView,
) -> Set<Seq<char>>
    decreases volumes.len(),
{
    if volumes.len() == 0 {
        names
    } else {
        let v = volumes.last();
        source_names(
            add_name(
                volume_names(names, volumes.drop_last(), keys),
                ref_name(Some(v), keys.volume, keys.volume_name),
            ),
            items_of(member_of(member(v, "projected"@), "sources"@)),
            keys.volume,
        )
    }
}

fn add_volume_names(names: &mut TextSet, volumes: Option<&Json>, keys: &RefKeys)
    ensures
        final(names)@ == volume_names(old(names)@, items_of(opt_view(volumes)), keys@),
{
    if let Some(items) = list_in(volumes) {
        let ghost all = json_views(items@);
        let mut i: usize = 0;
        proof {
            assert(all.take(0) =~= Seq::<JsonView>::empty());
        }
        while i < items.len()
            invariant
                i <= items@.len(),
                all == json_views(items@),
                names@ == volume_names(old(names)@, all.take(i as int), keys@),
            decreases items@.len() - i,
        {
            proof {
                assert(all.take(i as int + 1).drop_last() =~= all.take(i as int));
                assert(all.take(i as int + 1).last() == items@[i as int]@);
            }
            add_name_to(names, get_in(items[i].get(keys.volume), keys.volume_name));
            add_source_names(names, get_in(items[i].get("projected"), "sources"), keys.volume);
            i = i + 1;
        }
        proof {
            assert(all.take(all.len() as int) =~= all);
        }
    }
}

/// The names of all resources of one kind that a pod specification reads:
/// from the environments of its containers of every sort and from its volumes.
pub open spec fn pod_names(pod_spec: JsonView, keys: RefKeysView) -> Set<Seq<char>> {
    let a = container_names(Set::empty(), items_of(member(pod_spec, "containers"@)), keys);
    let b = container_names(a, items_of(member(pod_spec, "initContainers"@)), keys);
    let c = container_names(b, items_of(member(pod_spec, "ephemeralContainers"@)), keys);
    volume_names(c, items_of(member(pod_spec, "volumes"@)), keys)
}

fn names_in(pod_spec: &Json, keys: &RefKeys) -> (r: TextSet)
    ensures
        r@ == pod_names(pod_spec@, keys@),
{
    let mut names: TextSet = TextSet::new();
    add_container_names(&mut names, pod_spec.get("containers"), keys);
    add_container_names(&mut names, pod_spec.get("initContainers"), keys);
    add_container_names(&mut names, pod_spec.get("ephemeralContainers"), keys);
    add_volume_names(&mut names, pod_spec.get("volumes"), keys);
    names
}

/// The names of the ConfigMaps and of the Secrets that a pod specification
/// reads.
pub fn extract_pod_spec_dependencies(pod_spec: &Json) -> (r: (TextSet, TextSet))
    ensures
        r.0@ == pod_names(pod_spec@, configmap_keys()),
        r.1@ == pod_names(pod_spec@, secret_keys()),
{
    let configmaps = RefKeys {
        env: "configMapKeyRef",
        env_from: "configMapRef",
        volume: "configMap",
        volume_name: "name",
    };
    let secrets = RefKeys {
        env: "secretKeyRef",
        env_from: "secretRef",
        volume: "secret",
        volume_name: "secretName",
    };
    (names_in(pod_spec, &configmaps), names_in(pod_spec, &secrets))
}

/// Every name that is found is non-empty and has no white space around it.
pub open spec fn clean_names(names: Set<Seq<char>>) -> bool {
    forall|n: Seq<char>| #[trigger] names.contains(n) ==> n.len() > 0 && trim(n) == n
}

proof fn lemma_trim_end_idempotent(s: Seq<char>)
    ensures
        trim_end(trim_end(s)) == trim_end(s),
    decreases s.len(),
{
    if s.len() > 0 && is_space(s.last()) {
        lemma_trim_end_idempotent(s.drop_last());
    }
}

proof fn lemma_trim_end_first(s: Seq<char>)
    requires
        s.len() > 0,
        !is_space(s[0]),
    ensures
        trim_end(s).len() > 0,
        trim_end(s)[0] == s[0],
    decreases s.len(),
{
    if is_space(s.last()) {
        assert(s.len() > 1);
        lemma_trim_end_first(s.drop_last());
    }
}

/// Trimming a trimmed text changes nothing.
pub proof fn law_trim_idempotent(s: Seq<char>)
    ensures
        trim(trim(s)) == trim(s),
{
    let t = trim_start(s);
    crate::text::lemma_trim_start_len(s);
    if t.len() > 0 {
        lemma_trim_end_first(t);
        assert(trim_start(trim_end(t)) == trim_end(t));
        lemma_trim_end_idempotent(t);
    }
}

proof fn lemma_add_name_clean(names: Set<Seq<char>>, name: Option<Seq<char>>)
    requires
        clean_names(names),
    ensures
        clean_names(add_name(names, name)),
{
    if let Some(raw) = name {
        law_trim_idempotent(raw);
    }
}

proof fn lemma_env_names_clean(names: Set<Seq<char>>, envs: Seq<JsonView>, keys: RefKeysView)
    requires
        clean_names(names),
    ensures
        clean_names(env_names(names, envs, keys)),
    decreases envs.len(),
{
    if envs.len() > 0 {
        lemma_env_names_clean(names, envs.drop_last(), keys);
        lemma_add_name_clean(
            env_names(names, envs.drop_last(), keys),
            ref_name(member(envs.last(), "valueFrom"@), keys.env, "name"@),
        );
    }
}

proof fn lemma_source_names_clean(names: Set<Seq<char>>, sources: Seq<JsonView>, key: Seq<char>)
    requires
        clean_names(names),
    ensures
        clean_names(source_names(names, sources, key)),
    decreases sources.len(),
{
    if sources.len() > 0 {
        lemma_source_names_clean(names, sources.drop_last(), key);
        lemma_add_name_clean(
            source_names(names, sources.drop_last(), key),
            ref_name(Some(sources.last()), key, "name"@),
        );
    }
}

proof fn lemma_container_names_clean(
    names: Set<Seq<char>>,
    containers: Seq<JsonView>,
    keys: RefKeysView,
)
    requires
        clean_names(names),
    ensures
        clean_names(container_names(names, containers, keys)),
    decreases containers.len(),
{
    if containers.len() > 0 {
        let c = containers.last();
        let earlier = container_names(names, containers.drop_last(), keys);
        lemma_container_names_clean(names, containers.drop_last(), keys);
        lemma_env_names_clean(earlier, items_of(member(c, "env"@)), keys);
        lemma_source_names_clean(
            env_names(earlier, items_of(member(c, "env"@)), keys),
            items_of(member(c, "envFrom"@)),
            keys.env_from,
        );
    }
}

proof fn lemma_volume_names_clean(names: Set<Seq<char>>, volumes: Seq<JsonView>, keys: RefKeysView)
    requires
        clean_names(names),
    ensures
        clean_names(volume_names(names, volumes, keys)),
    decreases volumes.len(),
{
    if volumes.len() > 0 {
        let v = volumes.last();
        let earlier = volume_names(names, volumes.drop_last(), keys);
        lemma_volume_names_clean(names, volumes.drop_last(), keys);
        lemma_add_name_clean(earlier, ref_name(Some(v), keys.volume, keys.volume_name));
        lemma_source_names_clean(
            add_name(earlier, ref_name(Some(v), keys.volume, keys.volume_name)),
            items_of(member_of(member(v, "projected"@), "sources"@)),
            keys.volume,
        );
    }
}

/// The names that a pod specification is found to read are never empty and
/// never carry surrounding white space.
pub proof fn law_pod_names_clean(pod_spec: JsonView, keys: RefKeysView)
    ensures
        clean_names(pod_names(pod_spec, keys)),
{
    let e = Set::<Seq<char>>::empty();
    let a = container_names(e, items_of(member(pod_spec, "containers"@)), keys);
    let b = container_names(a, items_of(member(pod_spec, "initContainers"@)), keys);
    let c = container_names(b, items_of(member(pod_spec, "ephemeralContainers"@)), keys);
    lemma_container_names_clean(e, items_of(member(pod_spec, "containers"@)), keys);
    lemma_container_names_clean(a, items_of(member(pod_spec, "initContainers"@)), keys);
    lemma_container_names_clean(b, items_of(member(pod_spec, "ephemeralContainers"@)), keys);
    lemma_volume_names_clean(c, items_of(member(pod_spec, "volumes"@)), keys);
}

/// The document is a text that is `name` once it is trimmed, and that is not
/// empty then.
pub open spec fn says_name(j: Option<JsonView>, name: Seq<char>) -> bool {
    &&& name.len() > 0
    &&& j matches Some(JsonView::Text(t)) && trim(t) == name
}

/// An environment variable of the list takes its value from the resource
/// `name`, under `key`.
pub open spec fn in_env(envs: Seq<JsonView>, key: Seq<char>, name: Seq<char>) -> bool {
    exists|i: int|
        0 <= i < envs.len() && says_name(
            member_of(member_of(member(#[trigger] envs[i], "valueFrom"@), key), "name"@),
            name,
        )
}

/// A source of the list is the resource `name`, under `key`.
pub open spec fn in_sources(sources: Seq<JsonView>, key: Seq<char>, name: Seq<char>) -> bool {
    exists|i: int|
        0 <= i < sources.len() && says_name(
            member_of(member(#[trigger] sources[i], key), "name"@),
            name,
        )
}

/// A container of the list reads the resource `name`: in a variable, or as a
/// source of all its variables.
pub open spec fn in_containers(
    containers: Seq<JsonView>,
    env_key: Seq<char>,
    from_key: Seq<char>,
    name: Seq<char>,
) -> bool {
    exists|i: int|
        #![trigger containers[i]]
        0 <= i < containers.len() && (in_env(
            items_of(member(containers[i], "env"@)),
            env_key,
            name,
        ) || in_sources(items_of(member(containers[i], "envFrom"@)), from_key, name))
}

/// A volume of the list mounts the resource `name`: whole, or as a projected
/// source.
pub open spec fn in_volumes(
    volumes: Seq<JsonView>,
    key: Seq<char>,
    name_key: Seq<char>,
    name: Seq<char>,
) -> bool {
    exists|i: int|
        #![trigger volumes[i]]
        0 <= i < volumes.len() && (says_name(member_of(member(volumes[i], key), name_key), name)
            || in_sources(
            items_of(member_of(member(volumes[i], "projected"@), "sources"@)),
            key,
            name,
        ))
}

proof fn lemma_env_names(
    names: Set<Seq<char>>,
    envs: Seq<JsonView>,
    keys: RefKeysView,
    name: Seq<char>,
)
    ensures
        env_names(names, envs, keys).contains(name) <==> names.contains(name) || in_env(
            envs,
            keys.env,
            name,
        ),
    decreases envs.len(),
{
    if envs.len() > 0 {
        let shorter = envs.drop_last();
        lemma_env_names(names, shorter, keys, name);
        if in_env(shorter, keys.env, name) {
            let i = choose|i: int|
                0 <= i < shorter.len() && says_name(
                    member_of(
                        member_of(member(#[trigger] shorter[i], "valueFrom"@), keys.env),
                        "name"@,
                    ),
                    name,
                );
            assert(envs[i] == shorter[i]);
        }
        if in_env(envs, keys.env, name) {
            let i = choose|i: int|
                0 <= i < envs.len() && says_name(
                    member_of(
                        member_of(member(#[trigger] envs[i], "valueFrom"@), keys.env),
                        "name"@,
                    ),
                    name,
                );
            if i < shorter.len() {
                assert(shorter[i] == envs[i]);
            }
        }
        assert(envs[envs.len() - 1] == envs.last());
    }
}

proof fn lemma_source_names(
    names: Set<Seq<char>>,
    sources: Seq<JsonView>,
    key: Seq<char>,
    name: Seq<char>,
)
    ensures
        source_names(names, sources, key).contains(name) <==> names.contains(name) || in_sources(
            sources,
            key,
            name,
        ),
    decreases sources.len(),
{
    if sources.len() > 0 {
        let shorter = sources.drop_last();
        lemma_source_names(names, shorter, key, name);
        if in_sources(shorter, key, name) {
            let i = choose|i: int|
                0 <= i < shorter.len() && says_name(
                    member_of(member(#[trigger] shorter[i], key), "name"@),
                    name,
                );
            assert(sources[i] == shorter[i]);
        }
        if in_sources(sources, key, name) {
            let i = choose|i: int|
                0 <= i < sources.len() && says_name(
                    member_of(member(#[trigger] sources[i], key), "name"@),
                    name,
                );
            if i < shorter.len() {
                assert(shorter[i] == sources[i]);
            }
        }
        assert(sources[sources.len() - 1] == sources.last());
    }
}

proof fn lemma_container_names(
    names: Set<Seq<char>>,
    containers: Seq<JsonView>,
    keys: RefKeysView,
    name: Seq<char>,
)
    ensures
        container_names(names, containers, keys).contains(name) <==> names.contains(name)
            || in_containers(containers, keys.env, keys.env_from, name),
    decreases containers.len(),
{
    if containers.len() > 0 {
        let shorter = containers.drop_last();
        let last = containers.last();
        lemma_container_names(names, shorter, keys, name);
        let earlier = container_names(names, shorter, keys);
        let envs = items_of(member(last, "env"@));
        lemma_env_names(earlier, envs, keys, name);
        lemma_source_names(
            env_names(earlier, envs, keys),
            items_of(member(last, "envFrom"@)),
            keys.env_from,
            name,
        );
        if in_containers(shorter, keys.env, keys.env_from, name) {
            let i = choose|i: int|
                #![trigger shorter[i]]
                0 <= i < shorter.len() && (in_env(
                    items_of(member(shorter[i], "env"@)),
                    keys.env,
                    name,
                ) || in_sources(
                    items_of(member(shorter[i], "envFrom"@)),
                    keys.env_from,
                    name,
                ));
            assert(containers[i] == shorter[i]);
        }
        if in_containers(containers, keys.env, keys.env_from, name) {
            let i = choose|i: int|
                #![trigger containers[i]]
                0 <= i < containers.len() && (in_env(
                    items_of(member(containers[i], "env"@)),
                    keys.env,
                    name,
                ) || in_sources(
                    items_of(member(containers[i], "envFrom"@)),
                    keys.env_from,
                    name,
                ));
            if i < shorter.len() {
                assert(shorter[i] == containers[i]);
            }
        }
        assert(containers[containers.len() - 1] == last);
    }
}

proof fn lemma_volume_names(
    names: Set<Seq<char>>,
    volumes: Seq<JsonView>,
    keys: RefKeysView,
    name: Seq<char>,
)
    ensures
        volume_names(names, volumes, keys).contains(name) <==> names.contains(name) || in_volumes(
            volumes,
            keys.volume,
            keys.volume_name,
            name,
        ),
    decreases volumes.len(),
{
    if volumes.len() > 0 {
        let shorter = volumes.drop_last();
        let last = volumes.last();
        lemma_volume_names(names, shorter, keys, name);
        let earlier = volume_names(names, shorter, keys);
        lemma_source_names(
            add_name(earlier, ref_name(Some(last), keys.volume, keys.volume_name)),
            items_of(member_of(member(last, "projected"@), "sources"@)),
            keys.volume,
            name,
        );
        if in_volumes(shorter, keys.volume, keys.volume_name, name) {
            let i = choose|i: int|
                #![trigger shorter[i]]
                0 <= i < shorter.len() && (says_name(
                    member_of(member(shorter[i], keys.volume), keys.volume_name),
                    name,
                ) || in_sources(
                    items_of(member_of(member(shorter[i], "projected"@), "sources"@)),
                    keys.volume,
                    name,
                ));
            assert(volumes[i] == shorter[i]);
        }
        if in_volumes(volumes, keys.volume, keys.volume_name, name) {
            let i = choose|i: int|
                #![trigger volumes[i]]
                0 <= i < volumes.len() && (says_name(
                    member_of(member(volumes[i], keys.volume), keys.volume_name),
                    name,
                ) || in_sources(
                    items_of(member_of(member(volumes[i], "projected"@), "sources"@)),
                    keys.volume,
                    name,
                ));
            if i < shorter.len() {
                assert(shorter[i] == volumes[i]);
            }
        }
        assert(volumes[volumes.len() - 1] == last);
    }
}

/// A pod specification reads the ConfigMap `name`: in the environment of a
/// container of any sort, or as a volume.
pub open spec fn reads_configmap(pod_spec: JsonView, name: Seq<char>) -> bool {
    let env = "configMapKeyRef"@;
    let from = "configMapRef"@;
    ||| in_containers(items_of(member(pod_spec, "containers"@)), env, from, name)
    ||| in_containers(items_of(member(pod_spec, "initContainers"@)), env, from, name)
    ||| in_containers(items_of(member(pod_spec, "ephemeralContainers"@)), env, from, name)
    ||| in_volumes(items_of(member(pod_spec, "volumes"@)), "configMap"@, "name"@, name)
}

/// A pod specification reads the Secret `name`: in the environment of a
/// container of any sort, or as a volume.
pub open spec fn reads_secret(pod_spec: JsonView, name: Seq<char>) -> bool {
    let env = "secretKeyRef"@;
    let from = "secretRef"@;
    ||| in_containers(items_of(member(pod_spec, "containers"@)), env, from, name)
    ||| in_containers(items_of(member(pod_spec, "initContainers"@)), env, from, name)
    ||| in_containers(items_of(member(pod_spec, "ephemeralContainers"@)), env, from, name)
    ||| in_volumes(items_of(member(pod_spec, "volumes"@)), "secret"@, "secretName"@, name)
}

proof fn lemma_pod_names(pod_spec: JsonView, name: Seq<char>)
    ensures
        pod_names(pod_spec, configmap_keys()).contains(name) <==> reads_configmap(pod_spec, name),
        pod_names(pod_spec, secret_keys()).contains(name) <==> reads_secret(pod_spec, name),
{
    lemma_pod_names_of(pod_spec, configmap_keys(), name);
    lemma_pod_names_of(pod_spec, secret_keys(), name);
}

proof fn lemma_pod_names_of(pod_spec: JsonView, keys: RefKeysView, name: Seq<char>)
    ensures
        pod_names(pod_spec, keys).contains(name) <==> {
            ||| in_containers(
                items_of(member(pod_spec, "containers"@)),
                keys.env,
                keys.env_from,
                name,
            )
            ||| in_containers(
                items_of(member(pod_spec, "initContainers"@)),
                keys.env,
                keys.env_from,
                name,
            )
            ||| in_containers(
                items_of(member(pod_spec, "ephemeralContainers"@)),
                keys.env,
                keys.env_from,
                name,
            )
            ||| in_volumes(
                items_of(member(pod_spec, "volumes"@)),
                keys.volume,
                keys.volume_name,
                name,
            )
        },
{
    let e = Set::<Seq<char>>::empty();
    let a = container_names(e, items_of(member(pod_spec, "containers"@)), keys);
    let b = container_names(a, items_of(member(pod_spec, "initContainers"@)), keys);
    let c = container_names(b, items_of(member(pod_spec, "ephemeralContainers"@)), keys);
    lemma_container_names(e, items_of(member(pod_spec, "containers"@)), keys, name);
    lemma_container_names(a, items_of(member(pod_spec, "initContainers"@)), keys, name);
    lemma_container_names(b, items_of(member(pod_spec, "ephemeralContainers"@)), keys, name);
    lemma_volume_names(c, items_of(member(pod_spec, "volumes"@)), keys, name);
}

/// The ConfigMaps and the Secrets that are found are just those that the pod
/// specification reads: none is missed, and none is made up.
pub proof fn law_dependencies_are_what_is_read(
    pod_spec: Json,
    r: (TextSet, TextSet),
    name: Seq<char>,
)
    requires
        call_ensures(extract_pod_spec_dependencies, (&pod_spec,), r),
    ensures
        r.0@.contains(name) <==> reads_configmap(pod_spec@, name),
        r.1@.contains(name) <==> reads_secret(pod_spec@, name),
{
    lemma_pod_names(pod_spec@, name);
}

/// A ConfigMap or a Secret that a volume mounts is found, and so is one that a
/// volume projects.
pub proof fn law_mounted_names_are_found(pod_spec: Json, r: (TextSet, TextSet), i: int)
    requires
        call_ensures(extract_pod_spec_dependencies, (&pod_spec,), r),
        0 <= i < items_of(member(pod_spec@, "volumes"@)).len(),
    ensures
        ({
            let volume = items_of(member(pod_spec@, "volumes"@))[i];
            let sources = items_of(member_of(member(volume, "projected"@), "sources"@));
            &&& text_of(member_of(member(volume, "configMap"@), "name"@)) matches Some(t) ==> (trim(t).len() > 0 ==> r.0@.contains(trim(t)))
            &&& text_of(member_of(member(volume, "secret"@), "secretName"@)) matches Some(t) ==> (trim(t).len() > 0 ==> r.1@.contains(trim(t)))
            &&& forall|j: int|
                #![trigger sources[j]]
                0 <= j < sources.len() ==> {
                    &&& text_of(member_of(member(sources[j], "configMap"@), "name"@)) matches Some(t) ==> (trim(t).len() > 0 ==> r.0@.contains(trim(t)))
                    &&& text_of(member_of(member(sources[j], "secret"@), "name"@)) matches Some(t) ==> (trim(t).len() > 0 ==> r.1@.contains(trim(t)))
                }
        }),
{
    let volumes = items_of(member(pod_spec@, "volumes"@));
    let volume = volumes[i];
    let sources = items_of(member_of(member(volume, "projected"@), "sources"@));
    if let Some(t) = text_of(member_of(member(volume, "configMap"@), "name"@)) {
        law_dependencies_are_what_is_read(pod_spec, r, trim(t));
    }
    if let Some(t) = text_of(member_of(member(volume, "secret"@), "secretName"@)) {
        law_dependencies_are_what_is_read(pod_spec, r, trim(t));
    }
    assert forall|j: int|
        #![trigger sources[j]]
        0 <= j < sources.len() implies {
        &&& text_of(member_of(member(sources[j], "configMap"@), "name"@)) matches Some(t) ==> (trim(t).len() > 0 ==> r.0@.contains(trim(t)))
        &&& text_of(member_of(member(sources[j], "secret"@), "name"@)) matches Some(t) ==> (trim(t).len() > 0 ==> r.1@.contains(trim(t)))
    } by {
        if let Some(t) = text_of(member_of(member(sources[j], "configMap"@), "name"@)) {
            law_dependencies_are_what_is_read(pod_spec, r, trim(t));
            if trim(t).len() > 0 {
                assert(in_sources(sources, "configMap"@, trim(t)));
            }
        }
        if let Some(t) = text_of(member_of(member(sources[j], "secret"@), "name"@)) {
            law_dependencies_are_what_is_read(pod_spec, r, trim(t));
            if trim(t).len() > 0 {
                assert(in_sources(sources, "secret"@, trim(t)));
            }
        }
    }
}

// ---------------------------------------------------------------------------
// Manifests
// ---------------------------------------------------------------------------

/// What a YAML text says as a `Deployment`, as a JSON document or the text of
/// the parser's error.
pub uninterp spec fn deployment_content(yaml: Seq<char>) -> Result<JsonView, Seq<char>>;

/// `serde_yaml::from_str` into a `Deployment` of `k8s_openapi`, handed on by
/// `serde_json::to_value` under the member names of the Kubernetes API.
#[verifier::external_body]
fn deployment_value(yaml: &str) -> (r: Result<serde_json::Value, String>)
    ensures
        match r {
            Ok(v) => deployment_content(yaml@) == Ok::<JsonView, Seq<char>>(value_content(v)),
            Err(e) => deployment_content(yaml@) == Err::<JsonView, Seq<char>>(e@),
        },
{
    let parsed: k8s_openapi::api::apps::v1::Deployment = serde_yaml::from_str(yaml).map_err(|e| e.to_string())?;
    serde_json::to_value(parsed).map_err(|e| e.to_string())
}

/// What a YAML text says as a `StatefulSet`, as a JSON document or the text of
/// the parser's error.
pub uninterp spec fn stateful_set_content(yaml: Seq<char>) -> Result<JsonView, Seq<char>>;

/// `serde_yaml::from_str` into a `StatefulSet` of `k8s_openapi`, handed on by
/// `serde_json::to_value` under the member names of the Kubernetes API.
#[verifier::external_body]
fn stateful_set_value(yaml: &str) -> (r: Result<serde_json::Value, String>)
    ensures
        match r {
            Ok(v) => stateful_set_content(yaml@) == Ok::<JsonView, Seq<char>>(value_content(v)),
            Err(e) => stateful_set_content(yaml@) == Err::<JsonView, Seq<char>>(e@),
        },
{
    let parsed: k8s_openapi::api::apps::v1::StatefulSet = serde_yaml::from_str(yaml).map_err(|e| e.to_string())?;
    serde_json::to_value(parsed).map_err(|e| e.to_string())
}

/// What a YAML text says as a `DaemonSet`, as a JSON document or the text of
/// the parser's error.
pub uninterp spec fn daemon_set_content(yaml: Seq<char>) -> Result<JsonView, Seq<char>>;

/// `serde_yaml::from_str` into a `DaemonSet` of `k8s_openapi`, handed on by
/// `serde_json::to_value` under the member names of the Kubernetes API.
#[verifier::external_body]
fn daemon_set_value(yaml: &str) -> (r: Result<serde_json::Value, String>)
    ensures
        match r {
            Ok(v) => daemon_set_content(yaml@) == Ok::<JsonView, Seq<char>>(value_content(v)),
            Err(e) => daemon_set_content(yaml@) == Err::<JsonView, Seq<char>>(e@),
        },
{
    let parsed: k8s_openapi::api::apps::v1::DaemonSet = serde_yaml::from_str(yaml).map_err(|e| e.to_string())?;
    serde_json::to_value(parsed).map_err(|e| e.to_string())
}

/// What a YAML text says as a `ReplicaSet`, as a JSON document or the text of
/// the parser's error.
pub uninterp spec fn replica_set_content(yaml: Seq<char>) -> Result<JsonView, Seq<char>>;

/// `serde_yaml::from_str` into a `ReplicaSet` of `k8s_openapi`, handed on by
/// `serde_json::to_value` under the member names of the Kubernetes API.
#[verifier::external_body]
fn replica_set_value(yaml: &str) -> (r: Result<serde_json::Value, String>)
    ensures
        match r {
            Ok(v) => replica_set_content(yaml@) == Ok::<JsonView, Seq<char>>(value_content(v)),
            Err(e) => replica_set_content(yaml@) == Err::<JsonView, Seq<char>>(e@),
        },
{
    let parsed: k8s_openapi::api::apps::v1::ReplicaSet = serde_yaml::from_str(yaml).map_err(|e| e.to_string())?;
    serde_json::to_value(parsed).map_err(|e| e.to_string())
}

/// What a YAML text says as a `Job`, as a JSON document or the text of
/// the parser's error.
pub uninterp spec fn job_content(yaml: Seq<char>) -> Result<JsonView, Seq<char>>;

/// `serde_yaml::from_str` into a `Job` of `k8s_openapi`, handed on by
/// `serde_json::to_value` under the member names of the Kubernetes API.
#[verifier::external_body]
fn job_value(yaml: &str) -> (r: Result<serde_json::Value, String>)
    ensures
        match r {
            Ok(v) => job_content(yaml@) == Ok::<JsonView, Seq<char>>(value_content(v)),
            Err(e) => job_content(yaml@) == Err::<JsonView, Seq<char>>(e@),
        },
{
    let parsed: k8s_openapi::api::batch::v1::Job = serde_yaml::from_str(yaml).map_err(|e| e.to_string())?;
    serde_json::to_value(parsed).map_err(|e| e.to_string())
}

/// What a YAML text says as a `CronJob`, as a JSON document or the text of
/// the parser's error.
pub uninterp spec fn cron_job_content(yaml: Seq<char>) -> Result<JsonView, Seq<char>>;

/// `serde_yaml::from_str` into a `CronJob` of `k8s_openapi`, handed on by
/// `serde_json::to_value` under the member names of the Kubernetes API.
#[verifier::external_body]
fn cron_job_value(yaml: &str) -> (r: Result<serde_json::Value, String>)
    ensures
        match r {
            Ok(v) => cron_job_content(yaml@) == Ok::<JsonView, Seq<char>>(value_content(v)),
            Err(e) => cron_job_content(yaml@) == Err::<JsonView, Seq<char>>(e@),
        },
{
    let parsed: k8s_openapi::api::batch::v1::CronJob = serde_yaml::from_str(yaml).map_err(|e| e.to_string())?;
    serde_json::to_value(parsed).map_err(|e| e.to_string())
}

/// What a YAML text says as a workload of the given type. The types that are
/// no workloads have no content.
pub open spec fn manifest_content(resource_type: ResourceType, yaml: Seq<char>) -> Result<
    JsonView,
    Seq<char>,
> {
    match resource_type {
        ResourceType::Deployment => deployment_content(yaml),
        ResourceType::StatefulSet => stateful_set_content(yaml),
        ResourceType::DaemonSet => daemon_set_content(yaml),
        ResourceType::ReplicaSet => replica_set_content(yaml),
        ResourceType::Job => job_content(yaml),
        ResourceType::CronJob => cron_job_content(yaml),
        _ => Ok(JsonView::Null),
    }
}

/// Reads a YAML text as a workload of the given type.
pub fn parse_manifest(resource_type: ResourceType, yaml: &str) -> (r: Result<Json, String>)
    ensures
        match r {
            Ok(j) => manifest_content(resource_type, yaml@) == Ok::<JsonView, Seq<char>>(j@),
            Err(e) => manifest_content(resource_type, yaml@) == Err::<JsonView, Seq<char>>(e@),
        },
{
    let parsed: Result<serde_json::Value, String> = match resource_type {
        ResourceType::Deployment => deployment_value(yaml),
        ResourceType::StatefulSet => stateful_set_value(yaml),
        ResourceType::DaemonSet => daemon_set_value(yaml),
        ResourceType::ReplicaSet => replica_set_value(yaml),
        ResourceType::Job => job_value(yaml),
        ResourceType::CronJob => cron_job_value(yaml),
        _ => return Ok(Json::Null),
    };
    match parsed {
        Ok(v) => Ok(json_of(v)),
        Err(e) => Err(e),
    }
}

/// Why a manifest cannot be used.
#[derive(Debug)]
pub enum WorkloadError {
    /// The text is no manifest of its type.
    Yaml(String),
    /// The manifest has no pod specification.
    MissingPodSpec(ResourceType),
    /// The container of that name has no image.
    MissingImage(String),
}

/// What a `WorkloadError` holds.
pub enum WorkloadErrorView {
    Yaml(Seq<char>),
    MissingPodSpec(ResourceType),
    MissingImage(Seq<char>),
}

impl View for WorkloadError {
    type V = WorkloadErrorView;

    open spec fn view(&self) -> WorkloadErrorView {
        match self {
            WorkloadError::Yaml(t) => WorkloadErrorView::Yaml(t@),
            WorkloadError::MissingPodSpec(t) => WorkloadErrorView::MissingPodSpec(*t),
            WorkloadError::MissingImage(t) => WorkloadErrorView::MissingImage(t@),
        }
    }
}

/// The name of a resource type in messages.
pub open spec fn type_word(resource_type: ResourceType) -> Seq<char> {
    match resource_type {
        ResourceType::Deployment => "deployment"@,
        ResourceType::StatefulSet => "statefulset"@,
        ResourceType::DaemonSet => "daemonset"@,
        ResourceType::ReplicaSet => "replicaset"@,
        ResourceType::Job => "job"@,
        ResourceType::CronJob => "cronjob"@,
        ResourceType::ConfigMap => "configmap"@,
        ResourceType::Secret => "secret"@,
        ResourceType::Service => "service"@,
    }
}

fn type_word_of(resource_type: ResourceType) -> (r: &'static str)
    ensures
        r@ == type_word(resource_type),
{
    match resource_type {
        ResourceType::Deployment => "deployment",
        ResourceType::StatefulSet => "statefulset",
        ResourceType::DaemonSet => "daemonset",
        ResourceType::ReplicaSet => "replicaset",
        ResourceType::Job => "job",
        ResourceType::CronJob => "cronjob",
        ResourceType::ConfigMap => "configmap",
        ResourceType::Secret => "secret",
        ResourceType::Service => "service",
    }
}

impl WorkloadError {
    /// The text of the error.
    pub open spec fn text(&self) -> Seq<char> {
        match self {
            WorkloadError::Yaml(t) => t@,
            WorkloadError::MissingPodSpec(t) => type_word(*t) + " missing pod spec"@,
            WorkloadError::MissingImage(t) => "container '"@ + t@ + "' missing image"@,
        }
    }

    pub fn message(&self) -> (r: String)
        ensures
            r@ == self.text(),
    {
        match self {
            WorkloadError::Yaml(t) => t.clone(),
            WorkloadError::MissingPodSpec(t) => concat(type_word_of(*t), " missing pod spec"),
            WorkloadError::MissingImage(t) => concat3("container '", t.as_str(), "' missing image"),
        }
    }
}

/// What is read out of a manifest.
#[derive(Debug)]
pub struct ExtractedWorkload {
    pub containers: Vec<KubeContainerInfo>,
    pub pod_labels: TextMap<String>,
    pub metadata_labels: TextMap<String>,
    pub configmap_refs: TextSet,
    pub secret_refs: TextSet,
    pub ready_replicas: Option<i32>,
    pub spec_snapshot: Option<Json>,
}

/// What an `ExtractedWorkload` holds.
#[verifier::ext_equal]
pub struct ExtractedView {
    pub containers: Seq<ContainerView>,
    pub pod_labels: Map<Seq<char>, Seq<char>>,
    pub metadata_labels: Map<Seq<char>, Seq<char>>,
    pub configmap_refs: Set<Seq<char>>,
    pub secret_refs: Set<Seq<char>>,
    pub ready_replicas: Option<i32>,
    pub spec_snapshot: Option<JsonView>,
}

impl View for ExtractedWorkload {
    type V = ExtractedView;

    open spec fn view(&self) -> ExtractedView {
        ExtractedView {
            containers: container_views(self.containers@),
            pod_labels: self.pod_labels.texts(),
            metadata_labels: self.metadata_labels.texts(),
            configmap_refs: self.configmap_refs@,
            secret_refs: self.secret_refs@,
            ready_replicas: self.ready_replicas,
            spec_snapshot: match self.spec_snapshot {
                Some(j) => Some(j@),
                None => None,
            },
        }
    }
}

/// The template of a workload's pods; of a cron job, the template of its jobs.
pub open spec fn template_of(resource_type: ResourceType, doc: JsonView) -> Option<JsonView> {
    let spec_section = member(doc, "spec"@);
    if resource_type == ResourceType::CronJob {
        member_of(spec_section, "jobTemplate"@)
    } else {
        member_of(spec_section, "template"@)
    }
}

/// The pod specification of a workload.
pub open spec fn pod_spec_of(resource_type: ResourceType, doc: JsonView) -> Option<JsonView> {
    let template_spec = member_of(template_of(resource_type, doc), "spec"@);
    if resource_type == ResourceType::CronJob {
        member_of(member_of(template_spec, "template"@), "spec"@)
    } else {
        template_spec
    }
}

/// The number of ready replicas that a workload's status tells.
pub open spec fn ready_of(resource_type: ResourceType, doc: JsonView) -> Option<i32> {
    let status = member(doc, "status"@);
    match resource_type {
        ResourceType::CronJob => Some(1i32),
        ResourceType::DaemonSet => i32_of(member_of(status, "numberReady"@)),
        ResourceType::Job => i32_of(member_of(status, "succeeded"@)),
        _ => i32_of(member_of(status, "readyReplicas"@)),
    }
}

/// The specification of a document, without the number of its replicas.
pub open spec fn snapshot_of(doc: JsonView) -> Option<JsonView> {
    match member(doc, "spec"@) {
        Some(section) => Some(without(section, "replicas"@)),
        None => None,
    }
}

/// What a manifest with the given content says.
pub open spec fn extracted(resource_type: ResourceType, doc: JsonView) -> Result<
    ExtractedView,
    WorkloadErrorView,
> {
    if workload_kind(resource_type) is None {
        Ok(
            ExtractedView {
                containers: seq![],
                pod_labels: Map::empty(),
                metadata_labels: Map::empty(),
                configmap_refs: Set::empty(),
                secret_refs: Set::empty(),
                ready_replicas: None,
                spec_snapshot: None,
            },
        )
    } else {
        match pod_spec_of(resource_type, doc) {
            None => Err(WorkloadErrorView::MissingPodSpec(resource_type)),
            Some(pod_spec) => match containers_of(items_of(member(pod_spec, "containers"@))) {
                Err(name) => Err(WorkloadErrorView::MissingImage(name)),
                Ok(containers) => Ok(
                    ExtractedView {
                        containers,
                        pod_labels: texts_of(
                            member_of(
                                member_of(template_of(resource_type, doc), "metadata"@),
                                "labels"@,
                            ),
                        ),
                        metadata_labels: texts_of(
                            member_of(member(doc, "metadata"@), "labels"@),
                        ),
                        configmap_refs: pod_names(pod_spec, configmap_keys()),
                        secret_refs: pod_names(pod_spec, secret_keys()),
                        ready_replicas: ready_of(resource_type, doc),
                        spec_snapshot: snapshot_of(doc),
                    },
                ),
            },
        }
    }
}

fn ready_in(resource_type: ResourceType, doc: &Json) -> (r: Option<i32>)
    ensures
        r == ready_of(resource_type, doc@),
{
    let status: Option<&Json> = doc.get("status");
    match resource_type {
        ResourceType::CronJob => Some(1),
        ResourceType::DaemonSet => i32_in(get_in(status, "numberReady")),
        ResourceType::Job => i32_in(get_in(status, "succeeded")),
        _ => i32_in(get_in(status, "readyReplicas")),
    }
}

/// The specification of a document, without the number of its replicas.
pub fn spec_snapshot(doc: &Json) -> (r: Option<Json>)
    ensures
        match r {
            Some(j) => snapshot_of(doc@) == Some(j@),
            None => snapshot_of(doc@) is None,
        },
{
    match doc.get("spec") {
        Some(section) => Some(json_without(section, "replicas")),
        None => None,
    }
}

/// Reads a manifest that was parsed into a JSON document.
pub fn extract_workload(resource_type: ResourceType, doc: &Json) -> (r: Result<
    ExtractedWorkload,
    WorkloadError,
>)
    ensures
        match r {
            Ok(w) => extracted(resource_type, doc@) == Ok::<ExtractedView, WorkloadErrorView>(w@),
            Err(e) => extracted(resource_type, doc@) == Err::<ExtractedView, WorkloadErrorView>(
                e@,
            ),
        },
{
    if workload_kind_for(resource_type).is_none() {
        let w = ExtractedWorkload {
            containers: Vec::new(),
            pod_labels: TextMap::new(),
            metadata_labels: TextMap::new(),
            configmap_refs: TextSet::new(),
            secret_refs: TextSet::new(),
            ready_replicas: None,
            spec_snapshot: None,
        };
        proof {
            assert(w@ =~= extracted(resource_type, doc@)->Ok_0);
        }
        return Ok(w);
    }
    let section: Option<&Json> = doc.get("spec");
    let is_cron: bool = resource_type == ResourceType::CronJob;
    let template: Option<&Json> = if is_cron {
        get_in(section, "jobTemplate")
    } else {
        get_in(section, "template")
    };
    let template_spec: Option<&Json> = get_in(template, "spec");
    let found: Option<&Json> = if is_cron {
        get_in(get_in(template_spec, "template"), "spec")
    } else {
        template_spec
    };
    let pod_spec: &Json = match found {
        Some(p) => p,
        None => return Err(WorkloadError::MissingPodSpec(resource_type)),
    };
    let containers: Vec<KubeContainerInfo> = match extract_pod_spec_containers(pod_spec) {
        Ok(c) => c,
        Err(name) => return Err(WorkloadError::MissingImage(name)),
    };
    let (configmap_refs, secret_refs) = extract_pod_spec_dependencies(pod_spec);
    Ok(
        ExtractedWorkload {
            containers,
            pod_labels: texts_in(get_in(get_in(template, "metadata"), "labels")),
            metadata_labels: texts_in(get_in(doc.get("metadata"), "labels")),
            configmap_refs,
            secret_refs,
            ready_replicas: ready_in(resource_type, doc),
            spec_snapshot: spec_snapshot(doc),
        },
    )
}

/// Reads a manifest of the given type.
pub fn extract_workload_from_yaml(resource_type: ResourceType, yaml: &str) -> (r: Result<
    ExtractedWorkload,
    WorkloadError,
>)
    ensures
        match manifest_content(resource_type, yaml@) {
            Err(text) => r matches Err(e) && e@ == WorkloadErrorView::Yaml(text),
            Ok(doc) => match extracted(resource_type, doc) {
                Ok(v) => r matches Ok(w) && w@ == v,
                Err(v) => r matches Err(e) && e@ == v,
            },
        },
{
    match parse_manifest(resource_type, yaml) {
        Ok(doc) => extract_workload(resource_type, &doc),
        Err(e) => Err(WorkloadError::Yaml(e)),
    }
}

/// The specification of a YAML document of any kind, without the number of
/// its replicas; the text of the error where it cannot be read.
pub open spec fn yaml_snapshot(yaml: Seq<char>) -> Result<Option<JsonView>, Seq<char>> {
    match yaml_member_content(yaml, "spec"@) {
        Ok(Some(section)) => Ok(Some(without(section, "replicas"@))),
        Ok(None) => Ok(None),
        Err(text) => Err(text),
    }
}

/// The specification of a YAML document of any kind, without the number of
/// its replicas.
pub fn spec_section_from_yaml(yaml: &str) -> (r: Result<Option<Json>, String>)
    ensures
        match yaml_snapshot(yaml@) {
            Err(text) => r matches Err(e) && e@ == text,
            Ok(Some(j)) => r matches Ok(Some(s)) && s@ == j,
            Ok(None) => r matches Ok(None),
        },
{
    match yaml_member(yaml, "spec") {
        Ok(Some(section)) => Ok(Some(json_without(&section, "replicas"))),
        Ok(None) => Ok(None),
        Err(e) => Err(e),
    }
}

/// Documents whose specifications differ in nothing but the number of
/// replicas have the same snapshot, whatever else they differ in.
pub proof fn law_snapshot_ignores_replicas(a: JsonView, b: JsonView)
    requires
        member(a, "spec"@) is Some,
        member(b, "spec"@) is Some,
        without(member(a, "spec"@)->0, "replicas"@) == without(
            member(b, "spec"@)->0,
            "replicas"@,
        ),
    ensures
        snapshot_of(a) == snapshot_of(b),
{
}

proof fn lemma_drop_key_absent(members: Seq<(Seq<char>, JsonView)>, key: Seq<char>)
    ensures
        find_member(crate::json::drop_key(members, key), key) is None,
    decreases members.len(),
{
    let kept = crate::json::drop_key(members, key);
    if members.len() > 0 {
        lemma_drop_key_absent(members.drop_last(), key);
        if members.last().0 != key {
            lemma_find_push(crate::json::drop_key(members.drop_last(), key), members.last(), key);
        }
    }
}

proof fn lemma_find_push(
    members: Seq<(Seq<char>, JsonView)>,
    last: (Seq<char>, JsonView),
    key: Seq<char>,
)
    requires
        find_member(members, key) is None,
        last.0 != key,
    ensures
        find_member(members.push(last), key) is None,
    decreases members.len(),
{
    let grown = members.push(last);
    if members.len() == 0 {
        assert(grown.drop_first() =~= members);
    } else {
        assert(grown.drop_first() =~= members.drop_first().push(last));
        lemma_find_push(members.drop_first(), last, key);
    }
}

/// A snapshot never holds the number of replicas.
pub proof fn law_snapshot_has_no_replicas(doc: JsonView)
    ensures
        match snapshot_of(doc) {
            Some(section) => member(section, "replicas"@) is None,
            None => true,
        },
{
    match member(doc, "spec"@) {
        Some(JsonView::Object(members)) => {
            lemma_drop_key_absent(members, "replicas"@);
        },
        _ => {},
    }
}

/// Where the manifest of a type holds its pod specification: behind its
/// template, and of a cron job behind the template of its jobs.
pub open spec fn is_pod_spec(resource_type: ResourceType, doc: JsonView, pod_spec: JsonView) -> bool {
    let section = member(doc, "spec"@);
    if resource_type == ResourceType::CronJob {
        member_of(
            member_of(
                member_of(member_of(section, "jobTemplate"@), "spec"@),
                "template"@,
            ),
            "spec"@,
        ) == Some(pod_spec)
    } else {
        member_of(member_of(section, "template"@), "spec"@) == Some(pod_spec)
    }
}

/// A manifest is read just where it has a pod specification all of whose
/// containers have an image. It then depends on just the ConfigMaps and the
/// Secrets that its pods read.
pub proof fn law_manifest_dependencies(
    resource_type: ResourceType,
    doc: Json,
    r: Result<ExtractedWorkload, WorkloadError>,
    pod_spec: JsonView,
    name: Seq<char>,
)
    requires
        call_ensures(extract_workload, (resource_type, &doc), r),
        !(resource_type == ResourceType::ConfigMap || resource_type == ResourceType::Secret
            || resource_type == ResourceType::Service),
        is_pod_spec(resource_type, doc@, pod_spec),
    ensures
        (r is Ok) == (forall|i: int|
            0 <= i < items_of(member(pod_spec, "containers"@)).len() ==> text_of(
                member(#[trigger] items_of(member(pod_spec, "containers"@))[i], "image"@),
            ) is Some),
        r matches Ok(w) ==> {
            &&& w.configmap_refs@.contains(name) <==> reads_configmap(pod_spec, name)
            &&& w.secret_refs@.contains(name) <==> reads_secret(pod_spec, name)
        },
{
    lemma_pod_names(pod_spec, name);
    lemma_containers_read(items_of(member(pod_spec, "containers"@)));
}

/// A container that was read says what its document says.
pub open spec fn reads_container(c: ContainerView, doc: JsonView) -> bool {
    let requests = member_of(member(doc, "resources"@), "requests"@);
    let limits = member_of(member(doc, "resources"@), "limits"@);
    let ports = items_of(member(doc, "ports"@));
    &&& match text_of(member(doc, "name"@)) {
        Some(t) => c.name == t,
        None => c.name.len() == 0,
    }
    &&& text_of(member(doc, "image"@)) == Some(c.original_image)
    &&& c.image is None
    &&& c.env_vars.len() == 0
    &&& c.original_env_vars.len() == 0
    &&& c.cpu_request == text_of(member_of(requests, "cpu"@))
    &&& c.cpu_limit == text_of(member_of(limits, "cpu"@))
    &&& c.memory_request == text_of(member_of(requests, "memory"@))
    &&& c.memory_limit == text_of(member_of(limits, "memory"@))
    &&& c.ports.len() == ports.len()
    &&& forall|j: int|
        #![trigger c.ports[j]]
        0 <= j < ports.len() ==> {
            &&& c.ports[j].name == text_of(member(ports[j], "name"@))
            &&& c.ports[j].protocol == text_of(member(ports[j], "protocol"@))
            &&& match i32_of(member(ports[j], "containerPort"@)) {
                Some(n) => c.ports[j].container_port == n,
                None => c.ports[j].container_port == 0,
            }
        }
}

proof fn lemma_containers_read(items: Seq<JsonView>)
    ensures
        match containers_of(items) {
            Ok(list) => list.len() == items.len() && forall|i: int|
                0 <= i < items.len() ==> reads_container(#[trigger] list[i], items[i]),
            Err(name) => exists|i: int|
                0 <= i < items.len() && text_of(member(#[trigger] items[i], "image"@)) is None
                    && name == text_or_empty(member(items[i], "name"@)) && forall|j: int|
                    0 <= j < i ==> text_of(member(#[trigger] items[j], "image"@)) is Some,
        },
        (containers_of(items) is Ok) == (forall|i: int|
            0 <= i < items.len() ==> text_of(member(#[trigger] items[i], "image"@)) is Some),
    decreases items.len(),
{
    if items.len() > 0 {
        let shorter = items.drop_last();
        lemma_containers_read(shorter);
        assert forall|j: int| 0 <= j < shorter.len() implies #[trigger] shorter[j] == items[j] by {}
        match containers_of(shorter) {
            Ok(earlier) => {
                match container_of(items.last()) {
                    Ok(c) => {
                        let list = earlier.push(c);
                        assert(containers_of(items) == Ok::<Seq<ContainerView>, Seq<char>>(list));
                        assert forall|i: int| 0 <= i < items.len() implies reads_container(
                            #[trigger] list[i],
                            items[i],
                        ) by {
                            if i < shorter.len() {
                                assert(list[i] == earlier[i]);
                                assert(shorter[i] == items[i]);
                                assert(reads_container(earlier[i], shorter[i]));
                            } else {
                                assert(list[i] == c);
                            }
                        }
                        assert forall|i: int| 0 <= i < items.len() implies text_of(
                            member(#[trigger] items[i], "image"@),
                        ) is Some by {
                            assert(reads_container(list[i], items[i]));
                        }
                    },
                    Err(name) => {
                        let i = items.len() - 1;
                        assert(text_of(member(items[i], "image"@)) is None);
                        assert forall|j: int| 0 <= j < i implies text_of(
                            member(#[trigger] items[j], "image"@),
                        ) is Some by {
                            assert(shorter[j] == items[j]);
                            assert(reads_container(earlier[j], shorter[j]));
                        }
                    },
                }
            },
            Err(name) => {
                let i = choose|i: int|
                    0 <= i < shorter.len() && text_of(
                        member(#[trigger] shorter[i], "image"@),
                    ) is None && name == text_or_empty(member(shorter[i], "name"@)) && forall|
                        j: int,
                    |
                        0 <= j < i ==> text_of(member(#[trigger] shorter[j], "image"@)) is Some;
                assert(items[i] == shorter[i]);
                assert(text_of(member(items[i], "image"@)) is None);
                assert forall|j: int| 0 <= j < i implies text_of(
                    member(#[trigger] items[j], "image"@),
                ) is Some by {
                    assert(shorter[j] == items[j]);
                    assert(text_of(member(shorter[j], "image"@)) is Some);
                }
            },
        }
    }
}

/// A manifest that was read gives each of its containers, in order, with all
/// that its document says; its labels are those of the pod template and of
/// its own metadata.
pub proof fn law_manifest_is_read(
    resource_type: ResourceType,
    doc: Json,
    w: ExtractedWorkload,
    pod_spec: JsonView,
)
    requires
        call_ensures(
            extract_workload,
            (resource_type, &doc),
            Ok::<ExtractedWorkload, WorkloadError>(w),
        ),
        !(resource_type == ResourceType::ConfigMap || resource_type == ResourceType::Secret
            || resource_type == ResourceType::Service),
        is_pod_spec(resource_type, doc@, pod_spec),
    ensures
        ({
            let items = items_of(member(pod_spec, "containers"@));
            let section = member(doc@, "spec"@);
            let template = if resource_type == ResourceType::CronJob {
                member_of(section, "jobTemplate"@)
            } else {
                member_of(section, "template"@)
            };
            &&& w.containers@.len() == items.len()
            &&& forall|i: int|
                0 <= i < items.len() ==> reads_container((#[trigger] w.containers@[i])@, items[i])
            &&& w.pod_labels.texts() == texts_of(
                member_of(member_of(template, "metadata"@), "labels"@),
            )
            &&& w.metadata_labels.texts() == texts_of(
                member_of(member(doc@, "metadata"@), "labels"@),
            )
        }),
{
    let items = items_of(member(pod_spec, "containers"@));
    lemma_containers_read(items);
    assert(containers_of(items) == Ok::<Seq<ContainerView>, Seq<char>>(
        container_views(w.containers@),
    )) by {
        assert(w@.containers == container_views(w.containers@));
    }
    assert(container_views(w.containers@).len() == w.containers@.len());
    assert forall|i: int| 0 <= i < items.len() implies reads_container(
        (#[trigger] w.containers@[i])@,
        items[i],
    ) by {
        assert(container_views(w.containers@)[i] == w.containers@[i]@);
    }
    assert(w@.pod_labels == w.pod_labels.texts());
}

/// How many replicas are ready is what the status of the manifest says under
/// the member of its type; a cron job counts as one.
pub proof fn law_manifest_replicas(resource_type: ResourceType, doc: Json, w: ExtractedWorkload)
    requires
        call_ensures(
            extract_workload,
            (resource_type, &doc),
            Ok::<ExtractedWorkload, WorkloadError>(w),
        ),
    ensures
        ({
            let status = member(doc@, "status"@);
            match resource_type {
                ResourceType::Deployment | ResourceType::StatefulSet
                | ResourceType::ReplicaSet => w.ready_replicas == i32_of(
                    member_of(status, "readyReplicas"@),
                ),
                ResourceType::DaemonSet => w.ready_replicas == i32_of(
                    member_of(status, "numberReady"@),
                ),
                ResourceType::Job => w.ready_replicas == i32_of(member_of(status, "succeeded"@)),
                ResourceType::CronJob => w.ready_replicas == Some(1i32),
                _ => w.ready_replicas is None,
            }
        }),
{
    assert(w@.ready_replicas == w.ready_replicas);
}

/// The snapshot of a manifest has every member of its specification but the
/// number of replicas, and none besides.
pub proof fn law_snapshot_keeps_the_rest(doc: Json, r: Option<Json>, key: Seq<char>)
    requires
        call_ensures(spec_snapshot, (&doc,), r),
    ensures
        (r is Some) == (member(doc@, "spec"@) is Some),
        r matches Some(j) ==> {
            &&& key != "replicas"@ ==> member(j@, key) == member_of(member(doc@, "spec"@), key)
            &&& key == "replicas"@ ==> member(j@, key) is None
        },
{
    law_snapshot_has_no_replicas(doc@);
    if let Some(section) = member(doc@, "spec"@) {
        crate::json::law_without_keeps_the_rest(section, "replicas"@, key);
    }
}

/// What the text of a manifest depends on is what its document depends on, and
/// a text that is no manifest gives an error.
pub proof fn law_manifest_text_is_read(
    resource_type: ResourceType,
    yaml: &str,
    r: Result<ExtractedWorkload, WorkloadError>,
    doc: Json,
    of_doc: Result<ExtractedWorkload, WorkloadError>,
)
    requires
        call_ensures(extract_workload_from_yaml, (resource_type, yaml), r),
        call_ensures(extract_workload, (resource_type, &doc), of_doc),
    ensures
        call_ensures(parse_manifest, (resource_type, yaml), Ok::<Json, String>(doc)) ==> match (
            r,
            of_doc,
        ) {
            (Ok(a), Ok(b)) => a@ == b@,
            (Err(a), Err(b)) => a@ == b@,
            _ => false,
        },
        manifest_content(resource_type, yaml@) is Err ==> r is Err,
{
}

/// A manifest that cannot be read says why: it has no pod specification, or one
/// of its containers, the first of which is named, has no image. What is no
/// workload is read without anything in it.
pub proof fn law_unread_manifest_says_why(
    resource_type: ResourceType,
    doc: Json,
    r: Result<ExtractedWorkload, WorkloadError>,
)
    requires
        call_ensures(extract_workload, (resource_type, &doc), r),
    ensures
        ({
            let plain = resource_type is ConfigMap || resource_type is Secret || resource_type
                is Service;
            &&& plain ==> (r matches Ok(w) && w.containers@.len() == 0)
            &&& (r matches Err(WorkloadError::MissingPodSpec(t)) && t == resource_type) <==> !plain
                && forall|p: JsonView| !#[trigger] is_pod_spec(resource_type, doc@, p)
            &&& r matches Err(WorkloadError::MissingImage(name)) ==> exists|p: JsonView, i: int|
                #![trigger is_pod_spec(resource_type, doc@, p), items_of(
                    member(p, "containers"@),
                )[i]]
                is_pod_spec(resource_type, doc@, p) && is_first_without_image(
                    items_of(member(p, "containers"@)),
                    i,
                    name@,
                )
            &&& !(r matches Err(WorkloadError::Yaml(_)))
        }),
{
    let found = pod_spec_of(resource_type, doc@);
    if let Some(p) = found {
        assert(is_pod_spec(resource_type, doc@, p));
        let items = items_of(member(p, "containers"@));
        lemma_containers_read(items);
        if let Err(WorkloadError::MissingImage(name)) = r {
            assert(containers_of(items) == Err::<Seq<ContainerView>, Seq<char>>(name@));
            let i = choose|i: int|
                0 <= i < items.len() && text_of(member(#[trigger] items[i], "image"@)) is None
                    && name@ == text_or_empty(member(items[i], "name"@)) && forall|j: int|
                    0 <= j < i ==> text_of(member(#[trigger] items[j], "image"@)) is Some;
            assert(is_first_without_image(items, i, name@));
            assert(items_of(member(p, "containers"@))[i] == items[i]);
        }
    }
    if let Ok(w) = r {
        assert(w@.containers.len() == w.containers@.len());
    }
}

/// The container at an index is the first without an image, and has the name.
pub open spec fn is_first_without_image(items: Seq<JsonView>, i: int, name: Seq<char>) -> bool {
    &&& 0 <= i < items.len()
    &&& text_of(member(items[i], "image"@)) is None
    &&& match text_of(member(items[i], "name"@)) {
        Some(t) => name == t,
        None => name.len() == 0,
    }
    &&& forall|j: int| 0 <= j < i ==> text_of(member(#[trigger] items[j], "image"@)) is Some
}

/// The snapshot that is read with a manifest is the snapshot of its document.
pub proof fn law_snapshot_is_read(
    resource_type: ResourceType,
    doc: Json,
    w: ExtractedWorkload,
    snapshot: Option<Json>,
)
    requires
        call_ensures(
            extract_workload,
            (resource_type, &doc),
            Ok::<ExtractedWorkload, WorkloadError>(w),
        ),
        !(resource_type is ConfigMap || resource_type is Secret || resource_type is Service),
        call_ensures(spec_snapshot, (&doc,), snapshot),
    ensures
        w.spec_snapshot is Some <==> snapshot is Some,
        w.spec_snapshot matches Some(j) ==> j@ == snapshot->0@,
{
    assert(w@.spec_snapshot == (match w.spec_snapshot {
        Some(j) => Some(j@),
        None => None,
    }));
}

/// Every type of resources that runs pods is a kind of workload of its own; the
/// others are none.
pub proof fn law_workload_types_are_kinds(
    a: ResourceType,
    b: ResourceType,
    ka: Option<KubeWorkloadKind>,
    kb: Option<KubeWorkloadKind>,
)
    requires
        call_ensures(workload_kind_for, (a,), ka),
        call_ensures(workload_kind_for, (b,), kb),
    ensures
        ka is None <==> a is ConfigMap || a is Secret || a is Service,
        ka is Some && ka == kb ==> a == b,
        a is Deployment ==> ka == Some(KubeWorkloadKind::Deployment),
        a is StatefulSet ==> ka == Some(KubeWorkloadKind::StatefulSet),
        a is DaemonSet ==> ka == Some(KubeWorkloadKind::DaemonSet),
        a is ReplicaSet ==> ka == Some(KubeWorkloadKind::ReplicaSet),
        a is Job ==> ka == Some(KubeWorkloadKind::Job),
        a is CronJob ==> ka == Some(KubeWorkloadKind::CronJob),
{
}

} // verus!
