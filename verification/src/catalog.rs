//! Keeping the application catalog in step with the cluster.
use crate::kube_types::{
    container_views, copy_container_ports, same_opt_i32, service_port_views, ContainerView,
    KubeContainerImage, KubeContainerInfo, KubeServicePort, ServicePortView,
};
use crate::text::{opt_text, same_opt};
use crate::text_map::TextMap;
use vstd::prelude::*;

verus! {

// ---------------------------------------------------------------------------
// Containers
// ---------------------------------------------------------------------------

/// The last container of each name.
pub open spec fn containers_by_name(containers: Seq<ContainerView>) -> Map<Seq<char>, ContainerView>
    decreases containers.len(),
{
    if containers.len() == 0 {
        Map::empty()
    } else {
        containers_by_name(containers.drop_last()).insert(containers.last().name, containers.last())
    }
}

/// A known container that takes over what its manifest says now. Its image
/// choice and its environment stay.
pub open spec fn refreshed(known: ContainerView, new: ContainerView) -> ContainerView {
    ContainerView {
        original_image: new.original_image,
        cpu_request: new.cpu_request,
        cpu_limit: new.cpu_limit,
        memory_request: new.memory_request,
        memory_limit: new.memory_limit,
        ports: new.ports,
        ..known
    }
}

/// The containers of a manifest merged into the known ones, and the known
/// ones that no container of the manifest has taken yet.
pub open spec fn merged(known: Map<Seq<char>, ContainerView>, new: Seq<ContainerView>) -> (
    Seq<ContainerView>,
    Map<Seq<char>, ContainerView>,
)
    decreases new.len(),
{
    if new.len() == 0 {
        (seq![], known)
    } else {
        let (out, left) = merged(known, new.drop_last());
        let n = new.last();
        if left.contains_key(n.name) {
            (out.push(refreshed(left[n.name], n)), left.remove(n.name))
        } else {
            (out.push(n), left)
        }
    }
}

/// What a map of containers holds.
pub open spec fn container_map(m: Map<Seq<char>, KubeContainerInfo>) -> Map<
    Seq<char>,
    ContainerView,
> {
    m.map_values(|c: KubeContainerInfo| c@)
}

fn by_name(containers: &Vec<KubeContainerInfo>) -> (r: TextMap<KubeContainerInfo>)
    ensures
        container_map(r@) == containers_by_name(container_views(containers@)),
{
    let mut out: TextMap<KubeContainerInfo> = TextMap::new();
    let ghost all = container_views(containers@);
    let mut i: usize = 0;
    proof {
        assert(all.take(0) =~= Seq::<ContainerView>::empty());
        assert(container_map(out@) =~= Map::<Seq<char>, ContainerView>::empty());
    }
    while i < containers.len()
        invariant
            i <= containers@.len(),
            all == container_views(containers@),
            container_map(out@) == containers_by_name(all.take(i as int)),
        decreases containers@.len() - i,
    {
        let c: KubeContainerInfo = containers[i].clone();
        let name: String = containers[i].name.clone();
        let ghost before = out@;
        proof {
            assert(all.take(i as int + 1).drop_last() =~= all.take(i as int));
            assert(all.take(i as int + 1).last() == c@);
        }
        out.insert(name, c);
        proof {
            assert(container_map(out@) =~= container_map(before).insert(name@, c@));
        }
        i = i + 1;
    }
    proof {
        assert(all.take(all.len() as int) =~= all);
    }
    out
}

/// Merges the containers of a manifest into the known ones.
pub fn merge_containers(
    existing: &Vec<KubeContainerInfo>,
    new_containers: &Vec<KubeContainerInfo>,
) -> (r: Vec<KubeContainerInfo>)
    ensures
        container_views(r@) == merged(
            containers_by_name(container_views(existing@)),
            container_views(new_containers@),
        ).0,
{
    let mut left: TextMap<KubeContainerInfo> = by_name(existing);
    let ghost known = containers_by_name(container_views(existing@));
    let ghost all = container_views(new_containers@);
    let mut out: Vec<KubeContainerInfo> = Vec::new();
    let mut i: usize = 0;
    proof {
        assert(all.take(0) =~= Seq::<ContainerView>::empty());
        assert(container_views(out@) =~= Seq::<ContainerView>::empty());
    }
    while i < new_containers.len()
        invariant
            i <= new_containers@.len(),
            all == container_views(new_containers@),
            (container_views(out@), container_map(left@)) == merged(known, all.take(i as int)),
        decreases new_containers@.len() - i,
    {
        let new: &KubeContainerInfo = &new_containers[i];
        let ghost before = container_views(out@);
        let ghost map_before = left@;
        proof {
            assert(all.take(i as int + 1).drop_last() =~= all.take(i as int));
            assert(all.take(i as int + 1).last() == new@);
            assert(container_map(left@).contains_key(new.name@) == left@.contains_key(new.name@));
        }
        let found: Option<KubeContainerInfo> = match left.get(new.name.as_str()) {
            Some(c) => Some(c.clone()),
            None => None,
        };
        match found {
            Some(known_container) => {
                let mut c = known_container;
                c.original_image = new.original_image.clone();
                c.cpu_request = new.cpu_request.clone();
                c.cpu_limit = new.cpu_limit.clone();
                c.memory_request = new.memory_request.clone();
                c.memory_limit = new.memory_limit.clone();
                c.ports = copy_container_ports(&new.ports);
                left.remove(new.name.as_str());
                out.push(c);
                proof {
                    assert(c@ =~= refreshed(map_before[new.name@]@, new@));
                    assert(container_views(out@) =~= before.push(c@));
                    assert(container_map(left@) =~= container_map(map_before).remove(new.name@));
                }
            },
            None => {
                let c: KubeContainerInfo = new.clone();
                out.push(c);
                proof {
                    assert(container_views(out@) =~= before.push(new@));
                }
            },
        }
        i = i + 1;
    }
    proof {
        assert(all.take(all.len() as int) =~= all);
    }
    out
}

proof fn lemma_merged_shape(known: Map<Seq<char>, ContainerView>, new: Seq<ContainerView>)
    requires
        forall|k: Seq<char>| #[trigger] known.contains_key(k) ==> known[k].name == k,
    ensures
        merged(known, new).0.len() == new.len(),
        merged(known, new).1.submap_of(known),
        forall|i: int|
            0 <= i < new.len() ==> {
                let m = #[trigger] merged(known, new).0[i];
                &&& m.name == new[i].name
                &&& m.original_image == new[i].original_image
                &&& m.cpu_request == new[i].cpu_request
                &&& m.cpu_limit == new[i].cpu_limit
                &&& m.memory_request == new[i].memory_request
                &&& m.memory_limit == new[i].memory_limit
                &&& m.ports == new[i].ports
            },
    decreases new.len(),
{
    if new.len() > 0 {
        lemma_merged_shape(known, new.drop_last());
        let (out, left) = merged(known, new.drop_last());
        assert forall|i: int| 0 <= i < new.len() implies {
            let m = #[trigger] merged(known, new).0[i];
            &&& m.name == new[i].name
            &&& m.original_image == new[i].original_image
            &&& m.cpu_request == new[i].cpu_request
            &&& m.cpu_limit == new[i].cpu_limit
            &&& m.memory_request == new[i].memory_request
            &&& m.memory_limit == new[i].memory_limit
            &&& m.ports == new[i].ports
        } by {
            if i < new.len() - 1 {
                assert(merged(known, new).0[i] == out[i]);
                assert(new.drop_last()[i] == new[i]);
            } else {
                assert(left.contains_key(new.last().name) ==> known.contains_key(new.last().name));
            }
        }
    }
}

proof fn lemma_by_name(containers: Seq<ContainerView>)
    ensures
        forall|k: Seq<char>| #[trigger]
            containers_by_name(containers).contains_key(k) ==> containers_by_name(
                containers,
            )[k].name == k,
    decreases containers.len(),
{
    if containers.len() > 0 {
        lemma_by_name(containers.drop_last());
    }
}

/// A merge keeps the containers of the manifest, in its order and with its
/// images, resources and ports, and no others.
pub proof fn law_merge_follows_manifest(known: Seq<ContainerView>, new: Seq<ContainerView>)
    ensures
        merged(containers_by_name(known), new).0.len() == new.len(),
        forall|i: int|
            0 <= i < new.len() ==> {
                let m = #[trigger] merged(containers_by_name(known), new).0[i];
                &&& m.name == new[i].name
                &&& m.original_image == new[i].original_image
                &&& m.cpu_request == new[i].cpu_request
                &&& m.cpu_limit == new[i].cpu_limit
                &&& m.memory_request == new[i].memory_request
                &&& m.memory_limit == new[i].memory_limit
                &&& m.ports == new[i].ports
            },
{
    lemma_by_name(known);
    lemma_merged_shape(containers_by_name(known), new);
}

proof fn lemma_merged_left(
    known: Map<Seq<char>, ContainerView>,
    new: Seq<ContainerView>,
    name: Seq<char>,
)
    requires
        forall|i: int| 0 <= i < new.len() ==> (#[trigger] new[i]).name != name,
    ensures
        merged(known, new).1.contains_key(name) == known.contains_key(name),
        known.contains_key(name) ==> merged(known, new).1[name] == known[name],
    decreases new.len(),
{
    if new.len() > 0 {
        assert forall|i: int| 0 <= i < new.drop_last().len() implies (#[trigger] new.drop_last()[i]).name
            != name by {
            assert(new.drop_last()[i] == new[i]);
        }
        assert(new[new.len() - 1].name != name);
        lemma_merged_left(known, new.drop_last(), name);
    }
}

/// The first container of a name in the manifest keeps the image choice and
/// the environment of the known container of that name.
pub proof fn law_merge_keeps_customization(
    known: Map<Seq<char>, ContainerView>,
    new: Seq<ContainerView>,
    i: int,
)
    requires
        0 <= i < new.len(),
        known.contains_key(new[i].name),
        forall|j: int| 0 <= j < i ==> (#[trigger] new[j]).name != new[i].name,
    ensures
        i < merged(known, new).0.len(),
        merged(known, new).0[i].image == known[new[i].name].image,
        merged(known, new).0[i].env_vars == known[new[i].name].env_vars,
        merged(known, new).0[i].original_env_vars == known[new[i].name].original_env_vars,
    decreases new.len(),
{
    let shorter = new.drop_last();
    lemma_merged_len(known, new);
    lemma_merged_len(known, shorter);
    if i < new.len() - 1 {
        assert forall|j: int| 0 <= j < i implies (#[trigger] shorter[j]).name != shorter[i].name by {
            assert(shorter[j] == new[j]);
        }
        law_merge_keeps_customization(known, shorter, i);
        assert(merged(known, new).0[i] == merged(known, shorter).0[i]);
    } else {
        assert forall|j: int| 0 <= j < shorter.len() implies (#[trigger] shorter[j]).name
            != new[i].name by {
            assert(shorter[j] == new[j]);
        }
        lemma_merged_left(known, shorter, new[i].name);
    }
}

proof fn lemma_merged_len(known: Map<Seq<char>, ContainerView>, new: Seq<ContainerView>)
    ensures
        merged(known, new).0.len() == new.len(),
    decreases new.len(),
{
    if new.len() > 0 {
        lemma_merged_len(known, new.drop_last());
    }
}

/// No two containers have the same name.
pub open spec fn distinct_names(containers: Seq<ContainerView>) -> bool {
    forall|i: int, j: int|
        0 <= i < j < containers.len() ==> (#[trigger] containers[i]).name != (
        #[trigger] containers[j]).name
}

proof fn lemma_found_by_name(containers: Seq<ContainerView>, i: int)
    requires
        distinct_names(containers),
        0 <= i < containers.len(),
    ensures
        containers_by_name(containers).contains_key(containers[i].name),
        containers_by_name(containers)[containers[i].name] == containers[i],
    decreases containers.len(),
{
    if i < containers.len() - 1 {
        let shorter = containers.drop_last();
        assert(shorter[i] == containers[i]);
        lemma_found_by_name(shorter, i);
        assert(containers[i].name != containers[containers.len() - 1].name);
    }
}

proof fn lemma_merged_into(
    known: Map<Seq<char>, ContainerView>,
    new: Seq<ContainerView>,
    i: int,
)
    requires
        distinct_names(new),
        0 <= i < new.len(),
        known.contains_key(new[i].name),
    ensures
        merged(known, new).0.len() == new.len(),
        merged(known, new).0[i] == refreshed(known[new[i].name], new[i]),
    decreases new.len(),
{
    let shorter = new.drop_last();
    lemma_merged_len(known, new);
    lemma_merged_len(known, shorter);
    if i < new.len() - 1 {
        lemma_merged_into(known, shorter, i);
        assert(merged(known, new).0[i] == merged(known, shorter).0[i]);
    } else {
        assert forall|j: int| 0 <= j < shorter.len() implies (#[trigger] shorter[j]).name
            != new[i].name by {
            assert(shorter[j] == new[j]);
        }
        lemma_merged_left(known, shorter, new[i].name);
    }
}

/// Merging the same manifest again changes nothing, where it names every
/// container once.
pub proof fn law_merging_again_changes_nothing(known: Seq<ContainerView>, new: Seq<ContainerView>)
    requires
        distinct_names(new),
    ensures
        ({
            let once = merged(containers_by_name(known), new).0;
            merged(containers_by_name(once), new).0 == once
        }),
{
    let once = merged(containers_by_name(known), new).0;
    let twice = merged(containers_by_name(once), new).0;
    law_merge_follows_manifest(known, new);
    lemma_merged_len(containers_by_name(once), new);
    assert(distinct_names(once)) by {
        assert forall|i: int, j: int| 0 <= i < j < once.len() implies (#[trigger] once[i]).name != (
        #[trigger] once[j]).name by {
            assert(new[i].name != new[j].name);
        }
    }
    assert forall|i: int| 0 <= i < new.len() implies #[trigger] twice[i] == once[i] by {
        assert(once[i].name == new[i].name);
        lemma_found_by_name(once, i);
        lemma_merged_into(containers_by_name(once), new, i);
        assert(refreshed(once[i], new[i]) == once[i]);
    }
    assert(twice =~= once);
}

/// What a manifest decides of a container is the same of both: its name, its
/// original image, what it asks for and may use, and its ports.
pub open spec fn same_in_manifest(a: KubeContainerInfo, b: KubeContainerInfo) -> bool {
    &&& a.name@ == b.name@
    &&& a.original_image@ == b.original_image@
    &&& opt_text(a.cpu_request) == opt_text(b.cpu_request)
    &&& opt_text(a.cpu_limit) == opt_text(b.cpu_limit)
    &&& opt_text(a.memory_request) == opt_text(b.memory_request)
    &&& opt_text(a.memory_limit) == opt_text(b.memory_limit)
    &&& a.ports@.len() == b.ports@.len()
    &&& forall|j: int|
        #![trigger a.ports@[j]]
        #![trigger b.ports@[j]]
        0 <= j < a.ports@.len() ==> opt_text(a.ports@[j].name) == opt_text(b.ports@[j].name)
            && a.ports@[j].container_port == b.ports@[j].container_port && opt_text(
            a.ports@[j].protocol,
        ) == opt_text(b.ports@[j].protocol)
}

/// What a user decides of a container is the same of both: its image and its
/// environment.
pub open spec fn same_choices(a: KubeContainerInfo, b: KubeContainerInfo) -> bool {
    &&& match (a.image, b.image) {
        (KubeContainerImage::FollowOriginal, KubeContainerImage::FollowOriginal) => true,
        (KubeContainerImage::Custom(x), KubeContainerImage::Custom(y)) => x@ == y@,
        _ => false,
    }
    &&& a.env_vars@.len() == b.env_vars@.len()
    &&& forall|j: int|
        #![trigger a.env_vars@[j]]
        #![trigger b.env_vars@[j]]
        0 <= j < a.env_vars@.len() ==> a.env_vars@[j].name@ == b.env_vars@[j].name@
            && a.env_vars@[j].value@ == b.env_vars@[j].value@
    &&& a.original_env_vars@.len() == b.original_env_vars@.len()
    &&& forall|j: int|
        #![trigger a.original_env_vars@[j]]
        #![trigger b.original_env_vars@[j]]
        0 <= j < a.original_env_vars@.len() ==> a.original_env_vars@[j].name@
            == b.original_env_vars@[j].name@ && a.original_env_vars@[j].value@
            == b.original_env_vars@[j].value@
}

pub proof fn lemma_view_of_manifest_part(a: KubeContainerInfo, b: KubeContainerInfo)
    ensures
        same_in_manifest(a, b) <==> {
            &&& a@.name == b@.name
            &&& a@.original_image == b@.original_image
            &&& a@.cpu_request == b@.cpu_request
            &&& a@.cpu_limit == b@.cpu_limit
            &&& a@.memory_request == b@.memory_request
            &&& a@.memory_limit == b@.memory_limit
            &&& a@.ports == b@.ports
        },
{
    if same_in_manifest(a, b) {
        assert forall|j: int| 0 <= j < a@.ports.len() implies a@.ports[j] == b@.ports[j] by {
            assert(a.ports@[j]@ == b.ports@[j]@);
        }
        assert(a@.ports =~= b@.ports);
    }
    if a@.ports == b@.ports {
        assert(a@.ports.len() == a.ports@.len() && b@.ports.len() == b.ports@.len());
        assert forall|j: int|
            #![trigger a.ports@[j]]
            #![trigger b.ports@[j]]
            0 <= j < a.ports@.len() implies opt_text(a.ports@[j].name) == opt_text(
            b.ports@[j].name,
        ) && a.ports@[j].container_port == b.ports@[j].container_port && opt_text(
            a.ports@[j].protocol,
        ) == opt_text(b.ports@[j].protocol) by {
            assert(a@.ports[j] == b@.ports[j]);
            assert(a@.ports[j] == a.ports@[j]@ && b@.ports[j] == b.ports@[j]@);
        }
    }
}

proof fn lemma_view_of_choices(a: KubeContainerInfo, b: KubeContainerInfo)
    requires
        a@.image == b@.image,
        a@.env_vars == b@.env_vars,
        a@.original_env_vars == b@.original_env_vars,
    ensures
        same_choices(a, b),
{
    assert(a@.env_vars.len() == a.env_vars@.len() && b@.env_vars.len() == b.env_vars@.len());
    assert forall|j: int|
        #![trigger a.env_vars@[j]]
        #![trigger b.env_vars@[j]]
        0 <= j < a.env_vars@.len() implies a.env_vars@[j].name@ == b.env_vars@[j].name@
        && a.env_vars@[j].value@ == b.env_vars@[j].value@ by {
        assert(a@.env_vars[j] == b@.env_vars[j]);
    }
    assert(a@.original_env_vars.len() == a.original_env_vars@.len());
    assert(b@.original_env_vars.len() == b.original_env_vars@.len());
    assert forall|j: int|
        #![trigger a.original_env_vars@[j]]
        #![trigger b.original_env_vars@[j]]
        0 <= j < a.original_env_vars@.len() implies a.original_env_vars@[j].name@
        == b.original_env_vars@[j].name@ && a.original_env_vars@[j].value@
        == b.original_env_vars@[j].value@ by {
        assert(a@.original_env_vars[j] == b@.original_env_vars[j]);
    }
}

proof fn lemma_by_name_last(containers: Seq<ContainerView>, k: int)
    requires
        0 <= k < containers.len(),
        forall|l: int| k < l < containers.len() ==> (#[trigger] containers[l]).name
            != containers[k].name,
    ensures
        containers_by_name(containers).contains_key(containers[k].name),
        containers_by_name(containers)[containers[k].name] == containers[k],
    decreases containers.len(),
{
    if k < containers.len() - 1 {
        let shorter = containers.drop_last();
        assert forall|l: int| k < l < shorter.len() implies (#[trigger] shorter[l]).name
            != shorter[k].name by {
            assert(shorter[l] == containers[l]);
        }
        lemma_by_name_last(shorter, k);
        assert(containers[containers.len() - 1].name != containers[k].name);
    }
}

proof fn lemma_by_name_absent(containers: Seq<ContainerView>, name: Seq<char>)
    requires
        forall|l: int| 0 <= l < containers.len() ==> (#[trigger] containers[l]).name != name,
    ensures
        !containers_by_name(containers).contains_key(name),
    decreases containers.len(),
{
    if containers.len() > 0 {
        let shorter = containers.drop_last();
        assert forall|l: int| 0 <= l < shorter.len() implies (#[trigger] shorter[l]).name
            != name by {
            assert(shorter[l] == containers[l]);
        }
        lemma_by_name_absent(shorter, name);
        assert(containers[containers.len() - 1].name != name);
    }
}

proof fn lemma_merged_new(known: Map<Seq<char>, ContainerView>, new: Seq<ContainerView>, i: int)
    requires
        0 <= i < new.len(),
        !known.contains_key(new[i].name),
    ensures
        merged(known, new).0.len() == new.len(),
        merged(known, new).0[i] == new[i],
        forall|k: Seq<char>| #[trigger]
            merged(known, new).1.contains_key(k) ==> known.contains_key(k),
    decreases new.len(),
{
    let shorter = new.drop_last();
    lemma_merged_len(known, new);
    lemma_merged_len(known, shorter);
    lemma_left_known(known, new);
    lemma_left_known(known, shorter);
    if i < new.len() - 1 {
        lemma_merged_new(known, shorter, i);
        assert(merged(known, new).0[i] == merged(known, shorter).0[i]);
    }
}

proof fn lemma_left_known(known: Map<Seq<char>, ContainerView>, new: Seq<ContainerView>)
    ensures
        forall|k: Seq<char>| #[trigger]
            merged(known, new).1.contains_key(k) ==> known.contains_key(k),
    decreases new.len(),
{
    if new.len() > 0 {
        lemma_left_known(known, new.drop_last());
        let (out, left) = merged(known, new.drop_last());
        assert forall|k: Seq<char>| #[trigger] merged(known, new).1.contains_key(k) implies
            known.contains_key(k) by {
            assert(left.contains_key(k));
        }
    }
}

/// A merge gives a container for each of the manifest, in its order, which has
/// all that the manifest decides.
pub proof fn law_merge_takes_the_manifest(
    existing: Vec<KubeContainerInfo>,
    new: Vec<KubeContainerInfo>,
    r: Vec<KubeContainerInfo>,
)
    requires
        call_ensures(merge_containers, (&existing, &new), r),
    ensures
        r@.len() == new@.len(),
        forall|i: int| 0 <= i < r@.len() ==> same_in_manifest(#[trigger] r@[i], new@[i]),
{
    law_merge_follows_manifest(container_views(existing@), container_views(new@));
    assert(container_views(r@).len() == r@.len() && container_views(new@).len() == new@.len());
    assert forall|i: int| 0 <= i < r@.len() implies same_in_manifest(#[trigger] r@[i], new@[i]) by {
        assert(container_views(r@)[i] == r@[i]@ && container_views(new@)[i] == new@[i]@);
        lemma_view_of_manifest_part(r@[i], new@[i]);
    }
}

/// A merge keeps what users chose: the first container of a name in the
/// manifest has the choices of the last known container of that name.
pub proof fn law_merge_keeps_choices(
    existing: Vec<KubeContainerInfo>,
    new: Vec<KubeContainerInfo>,
    r: Vec<KubeContainerInfo>,
    i: int,
    k: int,
)
    requires
        call_ensures(merge_containers, (&existing, &new), r),
        0 <= i < new@.len(),
        forall|j: int| 0 <= j < i ==> (#[trigger] new@[j]).name@ != new@[i].name@,
        0 <= k < existing@.len(),
        existing@[k].name@ == new@[i].name@,
        forall|l: int| k < l < existing@.len() ==> (#[trigger] existing@[l]).name@
            != new@[i].name@,
    ensures
        i < r@.len(),
        same_choices(r@[i], existing@[k]),
{
    let known = container_views(existing@);
    let fresh = container_views(new@);
    assert(known[k] == existing@[k]@ && fresh[i] == new@[i]@);
    assert forall|l: int| k < l < known.len() implies (#[trigger] known[l]).name
        != known[k].name by {
        assert(known[l] == existing@[l]@);
        assert(existing@[l].name@ != new@[i].name@);
    }
    lemma_by_name_last(known, k);
    assert forall|j: int| 0 <= j < i implies (#[trigger] fresh[j]).name != fresh[i].name by {
        assert(fresh[j] == new@[j]@);
        assert(new@[j].name@ != new@[i].name@);
    }
    law_merge_keeps_customization(containers_by_name(known), fresh, i);
    assert(container_views(r@).len() == r@.len());
    assert(container_views(r@)[i] == r@[i]@);
    lemma_view_of_choices(r@[i], existing@[k]);
}

/// A container of the manifest that was not known is taken as it is.
pub proof fn law_merge_takes_new_containers(
    existing: Vec<KubeContainerInfo>,
    new: Vec<KubeContainerInfo>,
    r: Vec<KubeContainerInfo>,
    i: int,
)
    requires
        call_ensures(merge_containers, (&existing, &new), r),
        0 <= i < new@.len(),
        forall|l: int| 0 <= l < existing@.len() ==> (#[trigger] existing@[l]).name@
            != new@[i].name@,
    ensures
        i < r@.len(),
        same_in_manifest(r@[i], new@[i]),
        same_choices(r@[i], new@[i]),
{
    let known = container_views(existing@);
    let fresh = container_views(new@);
    assert(fresh[i] == new@[i]@);
    assert forall|l: int| 0 <= l < known.len() implies (#[trigger] known[l]).name
        != fresh[i].name by {
        assert(known[l] == existing@[l]@);
        assert(existing@[l].name@ != new@[i].name@);
    }
    lemma_by_name_absent(known, fresh[i].name);
    lemma_merged_new(containers_by_name(known), fresh, i);
    assert(container_views(r@).len() == r@.len());
    assert(container_views(r@)[i] == r@[i]@);
    lemma_view_of_manifest_part(r@[i], new@[i]);
    lemma_view_of_choices(r@[i], new@[i]);
}

/// A manifest that says of every container what is known of it already leaves
/// the known containers as they are.
pub proof fn law_merge_of_the_known(known: Seq<ContainerView>, new: Seq<ContainerView>)
    requires
        distinct_names(known),
        known.len() == new.len(),
        forall|i: int|
            #![trigger known[i]]
            #![trigger new[i]]
            0 <= i < known.len() ==> {
                &&& known[i].name == new[i].name
                &&& known[i].original_image == new[i].original_image
                &&& known[i].cpu_request == new[i].cpu_request
                &&& known[i].cpu_limit == new[i].cpu_limit
                &&& known[i].memory_request == new[i].memory_request
                &&& known[i].memory_limit == new[i].memory_limit
                &&& known[i].ports == new[i].ports
            },
    ensures
        merged(containers_by_name(known), new).0 == known,
{
    let out = merged(containers_by_name(known), new).0;
    lemma_merged_len(containers_by_name(known), new);
    assert(distinct_names(new)) by {
        assert forall|i: int, j: int| 0 <= i < j < new.len() implies (#[trigger] new[i]).name != (
        #[trigger] new[j]).name by {
            assert(known[i].name != known[j].name);
        }
    }
    assert forall|i: int| 0 <= i < new.len() implies #[trigger] out[i] == known[i] by {
        assert(known[i].name == new[i].name);
        lemma_found_by_name(known, i);
        lemma_merged_into(containers_by_name(known), new, i);
        assert(refreshed(known[i], new[i]) == known[i]);
    }
    assert(out =~= known);
}

// ---------------------------------------------------------------------------
// Ports
// ---------------------------------------------------------------------------

/// A service of the cluster as the catalog remembers it.
#[derive(Debug)]
pub struct CachedClusterService {
    pub name: String,
    pub selector: TextMap<String>,
    pub ports: Vec<KubeServicePort>,
}

/// What a `CachedClusterService` holds.
pub struct ServiceView {
    pub name: Seq<char>,
    pub selector: Map<Seq<char>, Seq<char>>,
    pub ports: Seq<ServicePortView>,
}

impl View for CachedClusterService {
    type V = ServiceView;

    open spec fn view(&self) -> ServiceView {
        ServiceView {
            name: self.name@,
            selector: self.selector.texts(),
            ports: service_port_views(self.ports@),
        }
    }
}

pub open spec fn service_views(services: Seq<CachedClusterService>) -> Seq<ServiceView> {
    Seq::new(services.len(), |i: int| services[i]@)
}

/// A selector picks a workload when it says something and all that it says is
/// among the labels.
pub open spec fn selects(
    selector: Map<Seq<char>, Seq<char>>,
    labels: Map<Seq<char>, Seq<char>>,
) -> bool {
    selector != Map::<Seq<char>, Seq<char>>::empty() && forall|k: Seq<char>| #[trigger]
        selector.contains_key(k) ==> labels.contains_key(k) && labels[k] == selector[k]
}

fn does_select(selector: &TextMap<String>, labels: &TextMap<String>) -> (r: bool)
    ensures
        r == selects(selector.texts(), labels.texts()),
{
    let empty: bool = selector.is_empty();
    proof {
        if empty {
            assert(selector.texts() =~= Map::<Seq<char>, Seq<char>>::empty());
        } else if selector.texts() == Map::<Seq<char>, Seq<char>>::empty() {
            assert(selector@ =~= Map::<Seq<char>, String>::empty()) by {
                assert forall|k: Seq<char>| !selector@.contains_key(k) by {
                    assert(selector.texts().contains_key(k) == selector@.contains_key(k));
                }
            }
        }
    }
    !empty && selector.is_within(labels)
}

/// What makes two service ports the same for a workload.
pub open spec fn port_key(p: ServicePortView) -> (i32, Option<i32>, Option<Seq<char>>) {
    (
        p.port,
        match p.original_target_port {
            Some(t) => Some(t),
            None => p.target_port,
        },
        p.protocol,
    )
}

/// One of the ports is the same as `p`.
pub open spec fn has_port_key(ports: Seq<ServicePortView>, p: ServicePortView) -> bool {
    exists|i: int| 0 <= i < ports.len() && port_key(#[trigger] ports[i]) == port_key(p)
}

/// `out` with those of `ports` that are not the same as an earlier one.
pub open spec fn add_ports(out: Seq<ServicePortView>, ports: Seq<ServicePortView>) -> Seq<
    ServicePortView,
>
    decreases ports.len(),
{
    if ports.len() == 0 {
        out
    } else {
        let earlier = add_ports(out, ports.drop_last());
        if has_port_key(earlier, ports.last()) {
            earlier
        } else {
            earlier.push(ports.last())
        }
    }
}

/// The distinct ports of the services that pick a workload, in order.
pub open spec fn workload_ports(
    labels: Map<Seq<char>, Seq<char>>,
    services: Seq<ServiceView>,
) -> Seq<ServicePortView>
    decreases services.len(),
{
    if services.len() == 0 {
        seq![]
    } else {
        let earlier = workload_ports(labels, services.drop_last());
        if selects(services.last().selector, labels) {
            add_ports(earlier, services.last().ports)
        } else {
            earlier
        }
    }
}

fn original_target(p: &KubeServicePort) -> (r: Option<i32>)
    ensures
        r == port_key(p@).1,
{
    match p.original_target_port {
        Some(t) => Some(t),
        None => p.target_port,
    }
}

fn same_port_key(a: &KubeServicePort, b: &KubeServicePort) -> (r: bool)
    ensures
        r == (port_key(a@) == port_key(b@)),
{
    a.port == b.port && same_opt_i32(original_target(a), original_target(b)) && same_opt(
        &a.protocol,
        &b.protocol,
    )
}

fn holds_port_key(ports: &Vec<KubeServicePort>, p: &KubeServicePort) -> (r: bool)
    ensures
        r == has_port_key(service_port_views(ports@), p@),
{
    let mut i: usize = 0;
    while i < ports.len()
        invariant
            i <= ports@.len(),
            forall|k: int| 0 <= k < i ==> port_key((#[trigger] ports@[k])@) != port_key(p@),
        decreases ports@.len() - i,
    {
        if same_port_key(&ports[i], p) {
            proof {
                assert(service_port_views(ports@)[i as int] == ports@[i as int]@);
            }
            return true;
        }
        i = i + 1;
    }
    proof {
        assert forall|k: int| 0 <= k < service_port_views(ports@).len() implies port_key(
            #[trigger] service_port_views(ports@)[k],
        ) != port_key(p@) by {
            assert(port_key(ports@[k]@) != port_key(p@));
        }
    }
    false
}

fn add_service_ports(out: &mut Vec<KubeServicePort>, ports: &Vec<KubeServicePort>)
    ensures
        service_port_views(final(out)@) == add_ports(
            service_port_views(old(out)@),
            service_port_views(ports@),
        ),
{
    let ghost start = service_port_views(out@);
    let ghost all = service_port_views(ports@);
    let mut i: usize = 0;
    proof {
        assert(all.take(0) =~= Seq::<ServicePortView>::empty());
    }
    while i < ports.len()
        invariant
            i <= ports@.len(),
            all == service_port_views(ports@),
            service_port_views(out@) == add_ports(start, all.take(i as int)),
        decreases ports@.len() - i,
    {
        let ghost before = service_port_views(out@);
        proof {
            assert(all.take(i as int + 1).drop_last() =~= all.take(i as int));
            assert(all.take(i as int + 1).last() == ports@[i as int]@);
        }
        if !holds_port_key(out, &ports[i]) {
            let p: KubeServicePort = ports[i].clone();
            out.push(p);
            proof {
                assert(service_port_views(out@) =~= before.push(p@));
            }
        }
        i = i + 1;
    }
    proof {
        assert(all.take(all.len() as int) =~= all);
    }
}

/// The distinct ports under which services offer a workload.
pub fn ports_from_cached_services(
    workload_labels: &TextMap<String>,
    services: &Vec<CachedClusterService>,
) -> (r: Vec<KubeServicePort>)
    ensures
        service_port_views(r@) == workload_ports(workload_labels.texts(), service_views(services@)),
{
    let ghost all = service_views(services@);
    let mut out: Vec<KubeServicePort> = Vec::new();
    let mut i: usize = 0;
    proof {
        assert(all.take(0) =~= Seq::<ServiceView>::empty());
        assert(service_port_views(out@) =~= Seq::<ServicePortView>::empty());
    }
    while i < services.len()
        invariant
            i <= services@.len(),
            all == service_views(services@),
            service_port_views(out@) == workload_ports(
                workload_labels.texts(),
                all.take(i as int),
            ),
        decreases services@.len() - i,
    {
        proof {
            assert(all.take(i as int + 1).drop_last() =~= all.take(i as int));
            assert(all.take(i as int + 1).last() == services@[i as int]@);
        }
        if does_select(&services[i].selector, workload_labels) {
            add_service_ports(&mut out, &services[i].ports);
        }
        i = i + 1;
    }
    proof {
        assert(all.take(all.len() as int) =~= all);
    }
    out
}

/// No two ports are the same for a workload.
pub open spec fn distinct_ports(ports: Seq<ServicePortView>) -> bool {
    forall|i: int, j: int|
        0 <= i < j < ports.len() ==> port_key(#[trigger] ports[i]) != port_key(#[trigger] ports[j])
}

proof fn lemma_add_ports_distinct(out: Seq<ServicePortView>, ports: Seq<ServicePortView>)
    requires
        distinct_ports(out),
    ensures
        distinct_ports(add_ports(out, ports)),
    decreases ports.len(),
{
    if ports.len() > 0 {
        lemma_add_ports_distinct(out, ports.drop_last());
    }
}

/// A workload is never given the same port twice.
pub proof fn law_workload_ports_distinct(
    labels: Map<Seq<char>, Seq<char>>,
    services: Seq<ServiceView>,
)
    ensures
        distinct_ports(workload_ports(labels, services)),
    decreases services.len(),
{
    if services.len() > 0 {
        law_workload_ports_distinct(labels, services.drop_last());
        if selects(services.last().selector, labels) {
            lemma_add_ports_distinct(
                workload_ports(labels, services.drop_last()),
                services.last().ports,
            );
        }
    }
}

/// Both are the same port of a service.
pub open spec fn same_port(a: KubeServicePort, b: KubeServicePort) -> bool {
    &&& opt_text(a.name) == opt_text(b.name)
    &&& a.port == b.port
    &&& a.target_port == b.target_port
    &&& opt_text(a.protocol) == opt_text(b.protocol)
    &&& a.node_port == b.node_port
    &&& a.original_target_port == b.original_target_port
}

/// Both lead to the same port of a workload, over the same protocol and under
/// the same number.
pub open spec fn doubles(a: KubeServicePort, b: KubeServicePort) -> bool {
    &&& a.port == b.port
    &&& (if a.original_target_port is Some {
        a.original_target_port
    } else {
        a.target_port
    }) == (if b.original_target_port is Some {
        b.original_target_port
    } else {
        b.target_port
    })
    &&& opt_text(a.protocol) == opt_text(b.protocol)
}

/// The selector of a service says something, and the labels have all of it.
pub open spec fn offers(service: CachedClusterService, labels: Map<Seq<char>, Seq<char>>) -> bool {
    let selector = service.selector.texts();
    &&& exists|k: Seq<char>| #[trigger] selector.contains_key(k)
    &&& forall|k: Seq<char>| #[trigger]
        selector.contains_key(k) ==> labels.contains_key(k) && labels[k] == selector[k]
}

proof fn lemma_offers(service: CachedClusterService, labels: Map<Seq<char>, Seq<char>>)
    ensures
        offers(service, labels) == selects(service.selector.texts(), labels),
{
    let selector = service.selector.texts();
    if !(exists|k: Seq<char>| #[trigger] selector.contains_key(k)) {
        assert(selector =~= Map::<Seq<char>, Seq<char>>::empty());
    }
}

proof fn lemma_add_ports(out: Seq<ServicePortView>, ports: Seq<ServicePortView>)
    ensures
        out.len() <= add_ports(out, ports).len(),
        forall|k: int| 0 <= k < out.len() ==> #[trigger] add_ports(out, ports)[k] == out[k],
        forall|k: int|
            out.len() <= k < add_ports(out, ports).len() ==> ports.contains(
                #[trigger] add_ports(out, ports)[k],
            ),
        forall|j: int|
            0 <= j < ports.len() ==> has_port_key(add_ports(out, ports), #[trigger] ports[j]),
        forall|j: int|
            0 <= j < ports.len() && !has_port_key(out, #[trigger] ports[j]) && (forall|l: int|
                0 <= l < j ==> port_key(#[trigger] ports[l]) != port_key(ports[j]))
                ==> add_ports(out, ports).contains(ports[j]),
    decreases ports.len(),
{
    if ports.len() > 0 {
        let shorter = ports.drop_last();
        let last = ports.last();
        lemma_add_ports(out, shorter);
        let earlier = add_ports(out, shorter);
        let all = add_ports(out, ports);
        assert forall|k: int| out.len() <= k < all.len() implies ports.contains(
            #[trigger] all[k],
        ) by {
            if k < earlier.len() {
                assert(all[k] == earlier[k]);
                assert(shorter.contains(earlier[k]));
                let m = choose|m: int| 0 <= m < shorter.len() && shorter[m] == earlier[k];
                assert(ports[m] == all[k]);
            } else {
                assert(ports[ports.len() - 1] == all[k]);
            }
        }
        assert forall|j: int| 0 <= j < ports.len() implies has_port_key(
            all,
            #[trigger] ports[j],
        ) by {
            if j < shorter.len() {
                assert(shorter[j] == ports[j]);
                assert(has_port_key(earlier, shorter[j]));
                let m = choose|m: int|
                    0 <= m < earlier.len() && port_key(#[trigger] earlier[m]) == port_key(
                        ports[j],
                    );
                assert(all[m] == earlier[m]);
            } else if has_port_key(earlier, last) {
                assert(all == earlier);
            } else {
                assert(all[all.len() - 1] == last);
            }
        }
        assert forall|j: int|
            0 <= j < ports.len() && !has_port_key(out, #[trigger] ports[j]) && (forall|l: int|
                0 <= l < j ==> port_key(#[trigger] ports[l]) != port_key(
                    ports[j],
                )) implies all.contains(ports[j]) by {
            if j < shorter.len() {
                assert(shorter[j] == ports[j]);
                assert forall|l: int| 0 <= l < j implies port_key(#[trigger] shorter[l])
                    != port_key(shorter[j]) by {
                    assert(shorter[l] == ports[l]);
                    assert(port_key(ports[l]) != port_key(ports[j]));
                }
                assert(earlier.contains(shorter[j]));
                let m = choose|m: int| 0 <= m < earlier.len() && earlier[m] == shorter[j];
                assert(all[m] == ports[j]);
            } else {
                if has_port_key(earlier, last) {
                    let m = choose|m: int|
                        0 <= m < earlier.len() && port_key(#[trigger] earlier[m]) == port_key(last);
                    if m < out.len() {
                        assert(earlier[m] == out[m]);
                        assert(has_port_key(out, last));
                    } else {
                        assert(shorter.contains(earlier[m]));
                        let q = choose|q: int| 0 <= q < shorter.len() && shorter[q] == earlier[m];
                        assert(ports[q] == earlier[m]);
                        assert(port_key(ports[q]) != port_key(ports[j]));
                    }
                }
                assert(all[all.len() - 1] == last);
            }
        }
    }
}

/// The port at `j` of the service at `i` is the first of its kind among the
/// services that pick the workload.
pub open spec fn is_first_port(
    labels: Map<Seq<char>, Seq<char>>,
    services: Seq<CachedClusterService>,
    i: int,
    j: int,
) -> bool {
    forall|a: int, b: int|
        #![trigger services[a].ports@[b]]
        0 <= a <= i && 0 <= b < services[a].ports@.len() && (a < i || b < j) && offers(
            services[a],
            labels,
        ) ==> !doubles(services[a].ports@[b], services[i].ports@[j])
}

proof fn lemma_ports_so_far(
    labels: Map<Seq<char>, Seq<char>>,
    services: Seq<CachedClusterService>,
)
    requires
        services.len() > 0,
    ensures
        ({
            let earlier = workload_ports(labels, service_views(services.drop_last()));
            workload_ports(labels, service_views(services)) == (if offers(
                services.last(),
                labels,
            ) {
                add_ports(earlier, service_port_views(services.last().ports@))
            } else {
                earlier
            })
        }),
{
    lemma_offers(services.last(), labels);
    assert(service_views(services).drop_last() =~= service_views(services.drop_last()));
    assert(service_views(services).last() == services.last()@);
}

proof fn lemma_port_stems(
    labels: Map<Seq<char>, Seq<char>>,
    services: Seq<CachedClusterService>,
    k: int,
) -> (at: (int, int))
    requires
        0 <= k < workload_ports(labels, service_views(services)).len(),
    ensures
        0 <= at.0 < services.len(),
        0 <= at.1 < services[at.0].ports@.len(),
        offers(services[at.0], labels),
        services[at.0].ports@[at.1]@ == workload_ports(labels, service_views(services))[k],
    decreases services.len(),
{
    assert(services.len() > 0) by {
        if services.len() == 0 {
            assert(service_views(services).len() == 0);
        }
    }
    let shorter = services.drop_last();
    let last = services.last();
    lemma_ports_so_far(labels, services);
    let earlier = workload_ports(labels, service_views(shorter));
    let found = workload_ports(labels, service_views(services));
    let ports = service_port_views(last.ports@);
    lemma_add_ports(earlier, ports);
    if k < earlier.len() {
        let at = lemma_port_stems(labels, shorter, k);
        assert(shorter[at.0] == services[at.0]);
        assert(found[k] == earlier[k]);
        at
    } else {
        assert(ports.contains(found[k]));
        let j = choose|j: int| 0 <= j < ports.len() && ports[j] == found[k];
        assert(ports[j] == last.ports@[j]@);
        (services.len() - 1, j)
    }
}

proof fn lemma_port_found(
    labels: Map<Seq<char>, Seq<char>>,
    services: Seq<CachedClusterService>,
    i: int,
    j: int,
) -> (k: int)
    requires
        0 <= i < services.len(),
        0 <= j < services[i].ports@.len(),
        offers(services[i], labels),
    ensures
        0 <= k < workload_ports(labels, service_views(services)).len(),
        port_key(workload_ports(labels, service_views(services))[k]) == port_key(
            services[i].ports@[j]@,
        ),
    decreases services.len(),
{
    let shorter = services.drop_last();
    let last = services.last();
    lemma_ports_so_far(labels, services);
    let earlier = workload_ports(labels, service_views(shorter));
    let found = workload_ports(labels, service_views(services));
    let ports = service_port_views(last.ports@);
    lemma_add_ports(earlier, ports);
    if i < services.len() - 1 {
        assert(shorter[i] == services[i]);
        let k = lemma_port_found(labels, shorter, i, j);
        assert(found[k] == earlier[k]);
        k
    } else {
        assert(ports[j] == last.ports@[j]@);
        assert(has_port_key(found, ports[j]));
        choose|k: int| 0 <= k < found.len() && port_key(#[trigger] found[k]) == port_key(ports[j])
    }
}

proof fn lemma_first_port_kept(
    labels: Map<Seq<char>, Seq<char>>,
    services: Seq<CachedClusterService>,
    i: int,
    j: int,
) -> (k: int)
    requires
        0 <= i < services.len(),
        0 <= j < services[i].ports@.len(),
        offers(services[i], labels),
        is_first_port(labels, services, i, j),
    ensures
        0 <= k < workload_ports(labels, service_views(services)).len(),
        workload_ports(labels, service_views(services))[k] == services[i].ports@[j]@,
    decreases services.len(),
{
    let shorter = services.drop_last();
    let last = services.last();
    lemma_ports_so_far(labels, services);
    let earlier = workload_ports(labels, service_views(shorter));
    let found = workload_ports(labels, service_views(services));
    let ports = service_port_views(last.ports@);
    lemma_add_ports(earlier, ports);
    if i < services.len() - 1 {
        assert(shorter[i] == services[i]);
        assert(is_first_port(labels, shorter, i, j)) by {
            assert forall|a: int, b: int|
                #![trigger shorter[a].ports@[b]]
                0 <= a <= i && 0 <= b < shorter[a].ports@.len() && (a < i || b < j) && offers(
                    shorter[a],
                    labels,
                ) implies !doubles(shorter[a].ports@[b], shorter[i].ports@[j]) by {
                assert(shorter[a] == services[a]);
                assert(!doubles(services[a].ports@[b], services[i].ports@[j]));
            }
        }
        let k = lemma_first_port_kept(labels, shorter, i, j);
        assert(found[k] == earlier[k]);
        k
    } else {
        assert(ports[j] == last.ports@[j]@);
        assert(!has_port_key(earlier, ports[j])) by {
            if has_port_key(earlier, ports[j]) {
                let m = choose|m: int|
                    0 <= m < earlier.len() && port_key(#[trigger] earlier[m]) == port_key(
                        ports[j],
                    );
                let (a, b) = lemma_port_stems(labels, shorter, m);
                assert(shorter[a] == services[a]);
                assert(doubles(services[a].ports@[b], services[i].ports@[j]));
            }
        }
        assert forall|l: int| 0 <= l < j implies port_key(#[trigger] ports[l]) != port_key(
            ports[j],
        ) by {
            assert(ports[l] == last.ports@[l]@);
            assert(!doubles(services[i].ports@[l], services[i].ports@[j]));
        }
        assert(found.contains(ports[j]));
        choose|k: int| 0 <= k < found.len() && found[k] == ports[j]
    }
}

/// Every port of a service that picks a workload is among the ports of the
/// workload, and it is there as it is where it is the first of its kind.
pub proof fn law_offered_ports_are_found(
    labels: TextMap<String>,
    services: Vec<CachedClusterService>,
    r: Vec<KubeServicePort>,
    i: int,
    j: int,
)
    requires
        call_ensures(ports_from_cached_services, (&labels, &services), r),
        0 <= i < services@.len(),
        0 <= j < services@[i].ports@.len(),
        offers(services@[i], labels.texts()),
    ensures
        exists|k: int| 0 <= k < r@.len() && doubles(#[trigger] r@[k], services@[i].ports@[j]),
        is_first_port(labels.texts(), services@, i, j) ==> exists|k: int|
            0 <= k < r@.len() && same_port(#[trigger] r@[k], services@[i].ports@[j]),
{
    let found = service_port_views(r@);
    assert(found.len() == r@.len());
    let k = lemma_port_found(labels.texts(), services@, i, j);
    assert(found[k] == r@[k]@);
    assert(doubles(r@[k], services@[i].ports@[j]));
    if is_first_port(labels.texts(), services@, i, j) {
        let m = lemma_first_port_kept(labels.texts(), services@, i, j);
        assert(found[m] == r@[m]@);
        assert(same_port(r@[m], services@[i].ports@[j]));
    }
}

/// Every port of a workload is one that a service offers which picks the
/// workload.
pub proof fn law_found_ports_are_offered(
    labels: TextMap<String>,
    services: Vec<CachedClusterService>,
    r: Vec<KubeServicePort>,
    k: int,
)
    requires
        call_ensures(ports_from_cached_services, (&labels, &services), r),
        0 <= k < r@.len(),
    ensures
        exists|i: int, j: int|
            #![trigger services@[i].ports@[j]]
            0 <= i < services@.len() && 0 <= j < services@[i].ports@.len() && offers(
                services@[i],
                labels.texts(),
            ) && same_port(r@[k], services@[i].ports@[j]),
{
    let found = service_port_views(r@);
    assert(found.len() == r@.len());
    assert(found[k] == r@[k]@);
    let (i, j) = lemma_port_stems(labels.texts(), services@, k);
    assert(same_port(r@[k], services@[i].ports@[j]));
}

/// No two ports of a workload lead to the same place.
pub proof fn law_ports_are_found_once(
    labels: TextMap<String>,
    services: Vec<CachedClusterService>,
    r: Vec<KubeServicePort>,
    k: int,
    l: int,
)
    requires
        call_ensures(ports_from_cached_services, (&labels, &services), r),
        0 <= k < l < r@.len(),
    ensures
        !doubles(r@[k], r@[l]),
{
    let found = service_port_views(r@);
    assert(found.len() == r@.len());
    assert(found[k] == r@[k]@ && found[l] == r@[l]@);
    law_workload_ports_distinct(labels.texts(), service_views(services@));
    assert(port_key(found[k]) != port_key(found[l]));
}

} // verus!
