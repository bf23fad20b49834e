//! What is watched in a cluster, and what is reported of it.
use crate::kube_rpc::{ResourceChangeEvent, ResourceChangeType, ResourceType};
use crate::text::{concat, same, trim, trim_string, views};
use crate::text_map::{TextMap, TextSet};
use vstd::prelude::*;

verus! {

// ---------------------------------------------------------------------------
// Namespaces
// ---------------------------------------------------------------------------

/// The resource types that are watched in each namespace.
pub fn watched_resource_types() -> (r: Vec<ResourceType>)
    ensures
        r@.no_duplicates(),
        forall|t: ResourceType| r@.contains(t),
{
    let mut out: Vec<ResourceType> = Vec::new();
    out.push(ResourceType::Deployment);
    out.push(ResourceType::StatefulSet);
    out.push(ResourceType::DaemonSet);
    out.push(ResourceType::ReplicaSet);
    out.push(ResourceType::Job);
    out.push(ResourceType::CronJob);
    out.push(ResourceType::ConfigMap);
    out.push(ResourceType::Secret);
    out.push(ResourceType::Service);
    proof {
        assert forall|t: ResourceType| out@.contains(t) by {
            match t {
                ResourceType::Deployment => {
                    assert(out@[0] == t);
                },
                ResourceType::StatefulSet => {
                    assert(out@[1] == t);
                },
                ResourceType::DaemonSet => {
                    assert(out@[2] == t);
                },
                ResourceType::ReplicaSet => {
                    assert(out@[3] == t);
                },
                ResourceType::Job => {
                    assert(out@[4] == t);
                },
                ResourceType::CronJob => {
                    assert(out@[5] == t);
                },
                ResourceType::ConfigMap => {
                    assert(out@[6] == t);
                },
                ResourceType::Secret => {
                    assert(out@[7] == t);
                },
                ResourceType::Service => {
                    assert(out@[8] == t);
                },
            }
        }
    }
    out
}

/// The namespaces that a list names: trimmed, without empty ones.
pub open spec fn named_namespaces(list: Seq<Seq<char>>) -> Set<Seq<char>>
    decreases list.len(),
{
    if list.len() == 0 {
        Set::empty()
    } else {
        let earlier = named_namespaces(list.drop_last());
        let t = trim(list.last());
        if t.len() == 0 {
            earlier
        } else {
            earlier.insert(t)
        }
    }
}

/// The namespaces that are watched. In each of them every watched resource
/// type has a task.
#[derive(Debug)]
pub struct WatchManager {
    pub namespaces: TextSet,
}

/// Whose tasks stop and whose start.
#[derive(Debug)]
pub struct WatchChange {
    pub stopped: Vec<String>,
    pub started: Vec<String>,
}

/// `list` holds the texts of a set, each once.
pub open spec fn lists_set(list: Seq<String>, set: Set<Seq<char>>) -> bool {
    &&& views(list).no_duplicates()
    &&& forall|t: Seq<char>| #[trigger] views(list).contains(t) <==> set.contains(t)
}

fn push_new(list: &mut Vec<String>, text: &str)
    requires
        views(old(list)@).no_duplicates(),
    ensures
        views(final(list)@).no_duplicates(),
        forall|t: Seq<char>| #[trigger]
            views(final(list)@).contains(t) <==> views(old(list)@).contains(t) || t == text@,
{
    let ghost before = views(list@);
    let mut i: usize = 0;
    while i < list.len()
        invariant
            i <= list@.len(),
            before == views(list@),
            before.no_duplicates(),
            forall|k: int| 0 <= k < i ==> before[k] != text@,
        decreases list@.len() - i,
    {
        if same(list[i].as_str(), text) {
            proof {
                assert(before[i as int] == text@);
            }
            return ;
        }
        i = i + 1;
    }
    let copy: String = text.to_owned();
    proof {
        crate::text::lemma_views_push(list@, copy);
    }
    list.push(copy);
    proof {
        let after = views(list@);
        assert(after == before.push(text@));
        assert forall|t: Seq<char>| #[trigger] after.contains(t) <==> before.contains(t) || t
            == text@ by {
            if before.contains(t) {
                let j = choose|j: int| 0 <= j < before.len() && before[j] == t;
                assert(after[j] == t);
            }
            if t == text@ {
                assert(after[before.len() as int] == t);
            }
        }
    }
}

fn missing_from(all: &TextSet, other: &TextSet) -> (r: Vec<String>)
    ensures
        lists_set(r@, all@.difference(other@)),
{
    let mut out: Vec<String> = Vec::new();
    let ghost items = all.item_seq();
    let mut i: usize = 0;
    proof {
        assert(views(out@) =~= Seq::<Seq<char>>::empty());
    }
    while i < all.len()
        invariant
            i <= items.len(),
            items == all.item_seq(),
            views(out@).no_duplicates(),
            forall|t: Seq<char>| #[trigger]
                views(out@).contains(t) <==> !other@.contains(t) && (exists|k: int|
                    0 <= k < i && (#[trigger] items[k])@ == t),
        decreases items.len() - i,
    {
        let item: &str = all.item(i);
        let ghost before = views(out@);
        if !other.contains(item) {
            push_new(&mut out, item);
        }
        proof {
            assert forall|t: Seq<char>| #[trigger]
                views(out@).contains(t) <==> !other@.contains(t) && (exists|k: int|
                    0 <= k < i + 1 && (#[trigger] items[k])@ == t) by {
                assert(before.contains(t) <==> !other@.contains(t) && (exists|k: int|
                    0 <= k < i && (#[trigger] items[k])@ == t));
                assert(items[i as int]@ == item@);
            }
        }
        i = i + 1;
    }
    proof {
        all.lemma_items();
        assert forall|t: Seq<char>| #[trigger]
            views(out@).contains(t) <==> all@.difference(other@).contains(t) by {
            assert(all@.contains(t) <==> exists|k: int|
                0 <= k < items.len() && (#[trigger] items[k])@ == t);
        }
    }
    out
}

impl WatchManager {
    pub fn new() -> (r: Self)
        ensures
            r.namespaces@ == Set::<Seq<char>>::empty(),
    {
        WatchManager { namespaces: TextSet::new() }
    }

    /// Watches the namespaces of a list and no others. Those that were
    /// watched before and are named again are left alone.
    pub fn configure_watches(&mut self, namespaces: Vec<String>) -> (r: WatchChange)
        ensures
            final(self).namespaces@ == named_namespaces(views(namespaces@)),
            is_change(old(self).namespaces@, final(self).namespaces@, r),
    {
        let ghost all = views(namespaces@);
        let mut wanted: TextSet = TextSet::new();
        let mut i: usize = 0;
        proof {
            assert(all.take(0) =~= Seq::<Seq<char>>::empty());
        }
        while i < namespaces.len()
            invariant
                i <= namespaces@.len(),
                all == views(namespaces@),
                wanted@ == named_namespaces(all.take(i as int)),
            decreases namespaces@.len() - i,
        {
            proof {
                assert(all.take(i as int + 1).drop_last() =~= all.take(i as int));
                assert(all.take(i as int + 1).last() == namespaces@[i as int]@);
            }
            let name: String = trim_string(namespaces[i].as_str());
            if !name.as_str().is_empty() {
                wanted.insert(name);
            }
            i = i + 1;
        }
        proof {
            assert(all.take(all.len() as int) =~= all);
        }
        let stopped: Vec<String> = missing_from(&self.namespaces, &wanted);
        let started: Vec<String> = missing_from(&wanted, &self.namespaces);
        self.namespaces = wanted;
        WatchChange { stopped, started }
    }
}

/// `change` is what is done where other namespaces are to be watched.
pub open spec fn is_change(before: Set<Seq<char>>, after: Set<Seq<char>>, change: WatchChange) -> bool {
    &&& lists_set(change.stopped@, before.difference(after))
    &&& lists_set(change.started@, after.difference(before))
}

/// Naming the same namespaces again stops nothing and starts nothing.
pub proof fn law_same_namespaces_change_nothing(namespaces: Set<Seq<char>>, change: WatchChange)
    requires
        is_change(namespaces, namespaces, change),
    ensures
        change.stopped@.len() == 0,
        change.started@.len() == 0,
{
    if change.stopped@.len() > 0 {
        assert(views(change.stopped@).contains(views(change.stopped@)[0]));
    }
    if change.started@.len() > 0 {
        assert(views(change.started@).contains(views(change.started@)[0]));
    }
}

/// A namespace whose tasks stop is one that was watched and is no more, one
/// whose tasks start is one that is newly watched: no namespace that stays
/// is stopped or started.
pub proof fn law_staying_namespaces_are_left_alone(
    before: Set<Seq<char>>,
    after: Set<Seq<char>>,
    change: WatchChange,
    namespace: Seq<char>,
)
    requires
        is_change(before, after, change),
        before.contains(namespace) == after.contains(namespace),
    ensures
        !views(change.stopped@).contains(namespace),
        !views(change.started@).contains(namespace),
{
}

// ---------------------------------------------------------------------------
// Retries
// ---------------------------------------------------------------------------

/// How a watch ended.
#[derive(Debug, Clone, Copy, PartialEq, Eq, Structural)]
pub enum WatchEnd {
    Completed,
    Failed,
}

/// A watch starts again at once after it completed. After a failure it waits,
/// each time twice as long, up to half a minute. Gives the seconds to wait now
/// and those of the next failure.
pub fn next_attempt(backoff: u64, end: WatchEnd) -> (r: (u64, u64))
    requires
        1 <= backoff <= 30,
    ensures
        r == (match end {
            WatchEnd::Completed => (0u64, 1u64),
            WatchEnd::Failed => (
                backoff,
                if 2 * backoff < 30 {
                    (2 * backoff) as u64
                } else {
                    30u64
                },
            ),
        }),
        1 <= r.1 <= 30,
{
    match end {
        WatchEnd::Completed => (0, 1),
        WatchEnd::Failed => (
            backoff,
            if 2 * backoff < 30 {
                2 * backoff
            } else {
                30
            },
        ),
    }
}

/// The wait after a number of failures in a row.
pub open spec fn wait_after(failures: nat) -> nat
    decreases failures,
{
    if failures == 0 {
        1
    } else {
        let w = wait_after((failures - 1) as nat);
        if 2 * w < 30 {
            2 * w
        } else {
            30
        }
    }
}

/// Waits never grow beyond half a minute and never shrink while failures go
/// on.
pub proof fn law_waits_are_bounded(failures: nat)
    ensures
        1 <= wait_after(failures) <= 30,
        wait_after(failures) <= wait_after(failures + 1),
    decreases failures,
{
    if failures > 0 {
        law_waits_are_bounded((failures - 1) as nat);
    }
}

// ---------------------------------------------------------------------------
// Events
// ---------------------------------------------------------------------------

/// What a watch says.
#[derive(Debug, Clone, Copy, PartialEq, Eq, Structural)]
pub enum WatchSignal {
    Apply,
    Delete,
    Init,
    InitApply,
    InitDone,
}

/// The change that a signal stands for, if it is about a resource.
pub fn signalled_change(signal: WatchSignal) -> (r: Option<ResourceChangeType>)
    ensures
        r == (match signal {
            WatchSignal::Apply => Some(ResourceChangeType::Created),
            WatchSignal::InitApply => Some(ResourceChangeType::Created),
            WatchSignal::Delete => Some(ResourceChangeType::Deleted),
            WatchSignal::Init => None,
            WatchSignal::InitDone => None,
        }),
{
    match signal {
        WatchSignal::Apply => Some(ResourceChangeType::Created),
        WatchSignal::InitApply => Some(ResourceChangeType::Created),
        WatchSignal::Delete => Some(ResourceChangeType::Deleted),
        WatchSignal::Init => None,
        WatchSignal::InitDone => None,
    }
}

/// The resource types whose manifest is reported.
pub open spec fn reports_yaml(t: ResourceType) -> bool {
    match t {
        ResourceType::Deployment => true,
        ResourceType::StatefulSet => true,
        ResourceType::DaemonSet => true,
        ResourceType::ReplicaSet => true,
        ResourceType::Job => true,
        ResourceType::CronJob => true,
        _ => false,
    }
}

pub fn should_include_yaml(resource_type: ResourceType) -> (r: bool)
    ensures
        r == reports_yaml(resource_type),
{
    match resource_type {
        ResourceType::Deployment
        | ResourceType::StatefulSet
        | ResourceType::DaemonSet
        | ResourceType::ReplicaSet
        | ResourceType::Job
        | ResourceType::CronJob => true,
        _ => false,
    }
}

/// The change that is reported, if any: a resource that was seen before is
/// not created again, and an update to the version that was seen is none.
pub open spec fn reported_change(
    change: ResourceChangeType,
    seen: Map<Seq<char>, Seq<char>>,
    name: Seq<char>,
    version: Seq<char>,
) -> Option<ResourceChangeType> {
    match change {
        ResourceChangeType::Created => if seen.contains_key(name) {
            Some(ResourceChangeType::Updated)
        } else {
            Some(ResourceChangeType::Created)
        },
        ResourceChangeType::Updated => if seen.contains_key(name) && seen[name] == version {
            None
        } else {
            Some(ResourceChangeType::Updated)
        },
        ResourceChangeType::Deleted => Some(ResourceChangeType::Deleted),
    }
}

/// What was seen once a change was reported.
pub open spec fn seen_after(
    seen: Map<Seq<char>, Seq<char>>,
    change: ResourceChangeType,
    name: Seq<char>,
    version: Seq<char>,
) -> Map<Seq<char>, Seq<char>> {
    if change == ResourceChangeType::Deleted {
        seen.remove(name)
    } else {
        seen.insert(name, version)
    }
}

/// Makes the report of a change. A resource without a name or a version is
/// passed over.
pub fn build_event(
    namespace: &str,
    resource_type: ResourceType,
    initial_change_type: ResourceChangeType,
    seen_versions: &mut TextMap<String>,
    name: String,
    resource_version: Option<String>,
    yaml: Option<String>,
    timestamp: i64,
) -> (r: Option<ResourceChangeEvent>)
    ensures
        ({
            let change = match resource_version {
                Some(v) => if name@.len() == 0 {
                    None
                } else {
                    reported_change(initial_change_type, old(seen_versions).texts(), name@, v@)
                },
                None => None,
            };
            match change {
                None => r is None && final(seen_versions).texts() == old(seen_versions).texts(),
                Some(c) => {
                    &&& final(seen_versions).texts() == seen_after(
                        old(seen_versions).texts(),
                        c,
                        name@,
                        resource_version->0@,
                    )
                    &&& r matches Some(e) && {
                        &&& e.namespace@ == namespace@
                        &&& e.resource_type == resource_type
                        &&& e.resource_name == name
                        &&& e.change_type == c
                        &&& e.resource_version@ == resource_version->0@
                        &&& e.timestamp == timestamp
                        &&& e.resource_yaml == (if reports_yaml(resource_type) {
                            yaml
                        } else {
                            None
                        })
                    }
                },
            }
        }),
{
    let ghost before = seen_versions.texts();
    if name.as_str().is_empty() {
        return None;
    }
    let version: String = match resource_version {
        Some(v) => v,
        None => {
            return None;
        },
    };
    let change_type: ResourceChangeType = match initial_change_type {
        ResourceChangeType::Created => {
            if seen_versions.contains_key(name.as_str()) {
                ResourceChangeType::Updated
            } else {
                ResourceChangeType::Created
            }
        },
        ResourceChangeType::Updated => {
            if let Some(known) = seen_versions.get(name.as_str()) {
                if same(known.as_str(), version.as_str()) {
                    return None;
                }
            }
            ResourceChangeType::Updated
        },
        ResourceChangeType::Deleted => ResourceChangeType::Deleted,
    };
    match change_type {
        ResourceChangeType::Deleted => {
            seen_versions.remove(name.as_str());
            proof {
                assert(seen_versions.texts() =~= before.remove(name@));
            }
        },
        _ => {
            seen_versions.insert(name.clone(), version.clone());
            proof {
                assert(seen_versions.texts() =~= before.insert(name@, version@));
            }
        },
    }
    let resource_yaml: Option<String> = if should_include_yaml(resource_type) {
        yaml
    } else {
        None
    };
    Some(
        ResourceChangeEvent {
            namespace: namespace.to_owned(),
            resource_type,
            resource_name: name,
            change_type,
            resource_version: version,
            resource_yaml,
            timestamp,
        },
    )
}

/// A resource is reported as created once, as updated from then on, and as
/// created again only after it was reported as deleted.
pub proof fn law_created_once(
    seen: Map<Seq<char>, Seq<char>>,
    name: Seq<char>,
    first: Seq<char>,
    second: Seq<char>,
)
    ensures
        ({
            let once = seen_after(seen, ResourceChangeType::Created, name, first);
            let gone = seen_after(once, ResourceChangeType::Deleted, name, first);
            &&& reported_change(ResourceChangeType::Created, once, name, second) == Some(
                ResourceChangeType::Updated,
            )
            &&& reported_change(ResourceChangeType::Created, gone, name, second) == Some(
                ResourceChangeType::Created,
            )
        }),
{
}

/// Why a watch failed.
#[derive(Debug)]
pub enum WatchFailure {
    InitialListFailed(String),
    WatchStartFailed(String),
    WatchError(String),
    WatchFailed(String),
    NoResourceVersion,
}

impl WatchFailure {
    /// What is said of the failure.
    pub open spec fn text(&self) -> Seq<char> {
        match self {
            WatchFailure::InitialListFailed(e) => "initial list request failed: "@ + e@,
            WatchFailure::WatchStartFailed(e) => "failed to start watcher: "@ + e@,
            WatchFailure::WatchError(e) => "watch error from API server: "@ + e@,
            WatchFailure::WatchFailed(e) => "watch stream failed: "@ + e@,
            WatchFailure::NoResourceVersion =>
            "watch event missing resourceVersion (resource may not support watch)"@,
        }
    }

    pub fn message(&self) -> (r: String)
        ensures
            r@ == self.text(),
    {
        match self {
            WatchFailure::InitialListFailed(e) => concat(
                "initial list request failed: ",
                e.as_str(),
            ),
            WatchFailure::WatchStartFailed(e) => concat("failed to start watcher: ", e.as_str()),
            WatchFailure::WatchError(e) => concat("watch error from API server: ", e.as_str()),
            WatchFailure::WatchFailed(e) => concat("watch stream failed: ", e.as_str()),
            WatchFailure::NoResourceVersion =>
            "watch event missing resourceVersion (resource may not support watch)".to_owned(),
        }
    }
}

// ---------------------------------------------------------------------------
// Laws of calls
// ---------------------------------------------------------------------------

proof fn lemma_named_namespaces(list: Seq<Seq<char>>, namespace: Seq<char>)
    ensures
        named_namespaces(list).contains(namespace) <==> namespace.len() > 0 && exists|i: int|
            0 <= i < list.len() && trim(#[trigger] list[i]) == namespace,
    decreases list.len(),
{
    if list.len() > 0 {
        let n = list.len() - 1;
        let shorter = list.drop_last();
        lemma_named_namespaces(shorter, namespace);
        assert(list[n] == list.last());
        if named_namespaces(shorter).contains(namespace) {
            let i = choose|i: int| 0 <= i < shorter.len() && trim(#[trigger] shorter[i])
                == namespace;
            assert(list[i] == shorter[i]);
        }
        if exists|i: int| 0 <= i < list.len() && trim(#[trigger] list[i]) == namespace {
            let i = choose|i: int| 0 <= i < list.len() && trim(#[trigger] list[i]) == namespace;
            if i < n {
                assert(shorter[i] == list[i]);
            }
        }
    }
}

/// After a configuration just the namespaces are watched that it names, white
/// space at their ends aside. The tasks of a namespace start where it is newly
/// named, and stop where it is no longer named.
pub proof fn law_named_namespaces_are_watched(
    manager: &mut WatchManager,
    namespaces: Vec<String>,
    r: WatchChange,
    namespace: Seq<char>,
)
    requires
        call_ensures(WatchManager::configure_watches, (manager, namespaces), r),
    ensures
        ({
            let before = old(manager).namespaces@.contains(namespace);
            let now = namespace.len() > 0 && exists|i: int|
                0 <= i < namespaces@.len() && trim((#[trigger] namespaces@[i])@) == namespace;
            &&& final(manager).namespaces@.contains(namespace) == now
            &&& (exists|i: int| 0 <= i < r.started@.len() && (#[trigger] r.started@[i])@
                == namespace) == (now && !before)
            &&& (exists|i: int| 0 <= i < r.stopped@.len() && (#[trigger] r.stopped@[i])@
                == namespace) == (before && !now)
        }),
        forall|i: int, j: int|
            0 <= i < j < r.started@.len() ==> (#[trigger] r.started@[i])@ != (
            #[trigger] r.started@[j])@,
{
    let list = views(namespaces@);
    lemma_named_namespaces(list, namespace);
    assert forall|i: int| 0 <= i < list.len() implies #[trigger] list[i] == namespaces@[i]@ by {}
    if exists|i: int| 0 <= i < namespaces@.len() && trim((#[trigger] namespaces@[i])@)
        == namespace {
        let i = choose|i: int|
            0 <= i < namespaces@.len() && trim((#[trigger] namespaces@[i])@) == namespace;
        assert(trim(list[i]) == namespace);
    }
    if exists|i: int| 0 <= i < list.len() && trim(#[trigger] list[i]) == namespace {
        let i = choose|i: int| 0 <= i < list.len() && trim(#[trigger] list[i]) == namespace;
        assert(trim(namespaces@[i]@) == namespace);
    }
    let started = views(r.started@);
    let stopped = views(r.stopped@);
    assert forall|i: int| 0 <= i < started.len() implies #[trigger] started[i]
        == r.started@[i]@ by {}
    assert forall|i: int| 0 <= i < stopped.len() implies #[trigger] stopped[i]
        == r.stopped@[i]@ by {}
    if started.contains(namespace) {
        let i = choose|i: int| 0 <= i < started.len() && started[i] == namespace;
        assert(r.started@[i]@ == namespace);
    }
    if exists|i: int| 0 <= i < r.started@.len() && (#[trigger] r.started@[i])@ == namespace {
        let i = choose|i: int|
            0 <= i < r.started@.len() && (#[trigger] r.started@[i])@ == namespace;
        assert(started[i] == namespace);
        assert(started.contains(namespace));
    }
    if stopped.contains(namespace) {
        let i = choose|i: int| 0 <= i < stopped.len() && stopped[i] == namespace;
        assert(r.stopped@[i]@ == namespace);
    }
    if exists|i: int| 0 <= i < r.stopped@.len() && (#[trigger] r.stopped@[i])@ == namespace {
        let i = choose|i: int|
            0 <= i < r.stopped@.len() && (#[trigger] r.stopped@[i])@ == namespace;
        assert(stopped[i] == namespace);
        assert(stopped.contains(namespace));
    }
    assert forall|i: int, j: int| 0 <= i < j < r.started@.len() implies (
    #[trigger] r.started@[i])@ != (#[trigger] r.started@[j])@ by {
        assert(started[i] != started[j]);
    }
}

/// A watch that failed waits, and the wait of the next failure is twice as long
/// up to half a minute; one that completed does not wait, and starts anew.
pub proof fn law_failures_wait_longer(backoff: u64, end: WatchEnd, r: (u64, u64))
    requires
        1 <= backoff <= 30,
        call_ensures(next_attempt, (backoff, end), r),
    ensures
        end is Completed ==> r.0 == 0 && r.1 == 1,
        end is Failed ==> r.0 == backoff && r.1 <= 30 && (r.1 == 30 || r.1 == 2 * backoff) && (
        backoff >= 15 ==> r.1 == 30),
{
}

/// A signal about a resource stands for its deletion or for its being there;
/// the others stand for no change.
pub proof fn law_signals_stand_for_changes(signal: WatchSignal, r: Option<ResourceChangeType>)
    requires
        call_ensures(signalled_change, (signal,), r),
    ensures
        r is None <==> signal is Init || signal is InitDone,
        r == Some(ResourceChangeType::Deleted) <==> signal is Delete,
        r != Some(ResourceChangeType::Updated),
{
}

/// A resource with a name and a version is reported, but for an update to the
/// version that was seen. A report tells what happened to the resource: gone,
/// new where it was not seen before, and changed where it was.
pub proof fn law_changes_are_reported(
    namespace: &str,
    resource_type: ResourceType,
    change: ResourceChangeType,
    seen: &mut TextMap<String>,
    name: String,
    version: Option<String>,
    yaml: Option<String>,
    timestamp: i64,
    r: Option<ResourceChangeEvent>,
)
    requires
        call_ensures(
            build_event,
            (namespace, resource_type, change, seen, name, version, yaml, timestamp),
            r,
        ),
    ensures
        r is None <==> name@.len() == 0 || version is None || (change is Updated && old(
            seen,
        ).texts().contains_key(name@) && old(seen).texts()[name@] == version->0@),
        r matches Some(e) ==> {
            &&& e.change_type is Deleted <==> change is Deleted
            &&& e.change_type is Created <==> change is Created && !old(seen).texts().contains_key(
                name@,
            )
            &&& e.namespace@ == namespace@
            &&& e.resource_type == resource_type
            &&& e.resource_name@ == name@
            &&& e.resource_version@ == version->0@
            &&& e.timestamp == timestamp
            &&& e.resource_yaml == (if resource_type is ConfigMap || resource_type is Secret
                || resource_type is Service {
                None
            } else {
                yaml
            })
        },
{
}

/// What was seen is remembered: the version of a resource that was reported as
/// there, nothing of one that was reported as gone, and what was known of all
/// others.
pub proof fn law_reported_versions_are_remembered(
    namespace: &str,
    resource_type: ResourceType,
    change: ResourceChangeType,
    seen: &mut TextMap<String>,
    name: String,
    version: Option<String>,
    yaml: Option<String>,
    timestamp: i64,
    r: Option<ResourceChangeEvent>,
    other: Seq<char>,
)
    requires
        call_ensures(
            build_event,
            (namespace, resource_type, change, seen, name, version, yaml, timestamp),
            r,
        ),
    ensures
        r is None ==> final(seen).texts() == old(seen).texts(),
        r is Some && change is Deleted ==> !final(seen).texts().contains_key(name@),
        r is Some && !(change is Deleted) ==> final(seen).texts().contains_key(name@),
        r is Some && !(change is Deleted) ==> final(seen).texts()[name@] == version->0@,
        other != name@ ==> final(seen).texts().contains_key(other) == old(
            seen,
        ).texts().contains_key(other) && final(seen).texts()[other] == old(seen).texts()[other],
{
}

} // verus!
