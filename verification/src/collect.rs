//! Listing workloads of a cluster, page by page and kind by kind.
use crate::json::{
    get_in, i32_in, i32_of, items_of, json_views, list_in, member, member_of, opt_view, text_in,
    text_of, texts_in, texts_of, Json, JsonView,
};
use crate::kube_types::KubeWorkloadKind;
use crate::text::{opt_text, same};
use crate::text_map::TextMap;
use crate::workload::text_or_empty;
use vstd::prelude::*;

verus! {

/// How a workload is doing.
#[derive(Debug, Clone, Copy, PartialEq, Eq, Structural)]
pub enum KubeWorkloadStatus {
    Running,
    Pending,
    Failed,
    Succeeded,
    Unknown,
}

/// A workload as it is listed.
#[derive(Debug)]
pub struct KubeWorkload {
    pub name: String,
    pub namespace: String,
    pub kind: KubeWorkloadKind,
    pub replicas: Option<i32>,
    pub ready_replicas: Option<i32>,
    pub status: KubeWorkloadStatus,
    pub created_at: Option<String>,
    pub labels: TextMap<String>,
}

/// What a `KubeWorkload` holds.
#[verifier::ext_equal]
pub struct WorkloadView {
    pub name: Seq<char>,
    pub namespace: Seq<char>,
    pub kind: KubeWorkloadKind,
    pub replicas: Option<i32>,
    pub ready_replicas: Option<i32>,
    pub status: KubeWorkloadStatus,
    pub created_at: Option<Seq<char>>,
    pub labels: Map<Seq<char>, Seq<char>>,
}

impl View for KubeWorkload {
    type V = WorkloadView;

    open spec fn view(&self) -> WorkloadView {
        WorkloadView {
            name: self.name@,
            namespace: self.namespace@,
            kind: self.kind,
            replicas: self.replicas,
            ready_replicas: self.ready_replicas,
            status: self.status,
            created_at: opt_text(self.created_at),
            labels: self.labels.texts(),
        }
    }
}

pub open spec fn listed_views(workloads: Seq<KubeWorkload>) -> Seq<WorkloadView> {
    Seq::new(workloads.len(), |i: int| workloads[i]@)
}

// ---------------------------------------------------------------------------
// One resource
// ---------------------------------------------------------------------------

/// A resource of a page: its content and when it was created.
#[derive(Debug)]
pub struct ListedResource {
    pub document: Json,
    pub created_at: Option<String>,
}

/// A number that counts as zero where it is missing.
pub open spec fn or_zero(n: Option<i32>) -> i32 {
    match n {
        Some(v) => v,
        None => 0,
    }
}

/// A number of the status of a resource.
pub open spec fn status_number(doc: JsonView, key: Seq<char>) -> Option<i32> {
    i32_of(member_of(member(doc, "status"@), key))
}

/// A number of the specification of a resource.
pub open spec fn spec_number(doc: JsonView, key: Seq<char>) -> Option<i32> {
    i32_of(member_of(member(doc, "spec"@), key))
}

/// The status that the phase of a pod stands for.
pub open spec fn phase_status(phase: Option<Seq<char>>) -> KubeWorkloadStatus {
    match phase {
        Some(p) => if p == "Running"@ {
            KubeWorkloadStatus::Running
        } else if p == "Pending"@ {
            KubeWorkloadStatus::Pending
        } else if p == "Failed"@ {
            KubeWorkloadStatus::Failed
        } else if p == "Succeeded"@ {
            KubeWorkloadStatus::Succeeded
        } else {
            KubeWorkloadStatus::Unknown
        },
        None => KubeWorkloadStatus::Unknown,
    }
}

/// The number that tells whether a resource of that kind is ready.
pub open spec fn ready_number(kind: KubeWorkloadKind, doc: JsonView) -> Option<i32> {
    match kind {
        KubeWorkloadKind::DaemonSet => status_number(doc, "numberReady"@),
        KubeWorkloadKind::Pod => Some(
            if status_of(kind, doc) == KubeWorkloadStatus::Running {
                1i32
            } else {
                0i32
            },
        ),
        KubeWorkloadKind::Job => status_number(doc, "succeeded"@),
        KubeWorkloadKind::CronJob => Some(1i32),
        _ => status_number(doc, "readyReplicas"@),
    }
}

/// How many replicas a resource of that kind wants.
pub open spec fn wanted_number(kind: KubeWorkloadKind, doc: JsonView) -> Option<i32> {
    match kind {
        KubeWorkloadKind::DaemonSet => status_number(doc, "desiredNumberScheduled"@),
        KubeWorkloadKind::Pod => Some(1i32),
        KubeWorkloadKind::Job => spec_number(doc, "parallelism"@),
        KubeWorkloadKind::CronJob => Some(1i32),
        _ => spec_number(doc, "replicas"@),
    }
}

/// How a resource of that kind is doing.
pub open spec fn status_of(kind: KubeWorkloadKind, doc: JsonView) -> KubeWorkloadStatus {
    match kind {
        KubeWorkloadKind::Pod => phase_status(
            text_of(member_of(member(doc, "status"@), "phase"@)),
        ),
        KubeWorkloadKind::Job => if or_zero(status_number(doc, "succeeded"@)) > 0 {
            KubeWorkloadStatus::Succeeded
        } else if or_zero(status_number(doc, "failed"@)) > 0 {
            KubeWorkloadStatus::Failed
        } else {
            KubeWorkloadStatus::Running
        },
        KubeWorkloadKind::CronJob => if member(doc, "status"@) is Some {
            KubeWorkloadStatus::Running
        } else {
            KubeWorkloadStatus::Pending
        },
        KubeWorkloadKind::DaemonSet => if or_zero(status_number(doc, "numberReady"@)) > 0 {
            KubeWorkloadStatus::Running
        } else {
            KubeWorkloadStatus::Pending
        },
        _ => if or_zero(status_number(doc, "readyReplicas"@)) > 0 {
            KubeWorkloadStatus::Running
        } else {
            KubeWorkloadStatus::Pending
        },
    }
}

/// A member of a resource's metadata.
pub open spec fn metadata_of(doc: JsonView, key: Seq<char>) -> Option<JsonView> {
    member_of(member(doc, "metadata"@), key)
}

/// A resource of that kind as it is listed.
pub open spec fn workload_of(
    kind: KubeWorkloadKind,
    doc: JsonView,
    created_at: Option<Seq<char>>,
) -> WorkloadView {
    WorkloadView {
        name: text_or_empty(metadata_of(doc, "name"@)),
        namespace: text_or_empty(metadata_of(doc, "namespace"@)),
        kind,
        replicas: wanted_number(kind, doc),
        ready_replicas: ready_number(kind, doc),
        status: status_of(kind, doc),
        created_at,
        labels: texts_of(metadata_of(doc, "labels"@)),
    }
}

fn phase_to_status(phase: Option<String>) -> (r: KubeWorkloadStatus)
    ensures
        r == phase_status(opt_text(phase)),
{
    match phase {
        Some(p) => {
            if same(p.as_str(), "Running") {
                KubeWorkloadStatus::Running
            } else if same(p.as_str(), "Pending") {
                KubeWorkloadStatus::Pending
            } else if same(p.as_str(), "Failed") {
                KubeWorkloadStatus::Failed
            } else if same(p.as_str(), "Succeeded") {
                KubeWorkloadStatus::Succeeded
            } else {
                KubeWorkloadStatus::Unknown
            }
        },
        None => KubeWorkloadStatus::Unknown,
    }
}

fn is_positive(n: Option<i32>) -> (r: bool)
    ensures
        r == (or_zero(n) > 0),
{
    match n {
        Some(v) => v > 0,
        None => false,
    }
}

fn read_status(kind: KubeWorkloadKind, doc: &Json) -> (r: KubeWorkloadStatus)
    ensures
        r == status_of(kind, doc@),
{
    let status: Option<&Json> = doc.get("status");
    match kind {
        KubeWorkloadKind::Pod => phase_to_status(text_in(get_in(status, "phase"))),
        KubeWorkloadKind::Job => {
            if is_positive(i32_in(get_in(status, "succeeded"))) {
                KubeWorkloadStatus::Succeeded
            } else if is_positive(i32_in(get_in(status, "failed"))) {
                KubeWorkloadStatus::Failed
            } else {
                KubeWorkloadStatus::Running
            }
        },
        KubeWorkloadKind::CronJob => {
            if status.is_some() {
                KubeWorkloadStatus::Running
            } else {
                KubeWorkloadStatus::Pending
            }
        },
        KubeWorkloadKind::DaemonSet => {
            if is_positive(i32_in(get_in(status, "numberReady"))) {
                KubeWorkloadStatus::Running
            } else {
                KubeWorkloadStatus::Pending
            }
        },
        _ => {
            if is_positive(i32_in(get_in(status, "readyReplicas"))) {
                KubeWorkloadStatus::Running
            } else {
                KubeWorkloadStatus::Pending
            }
        },
    }
}

fn read_text(j: Option<&Json>) -> (r: String)
    ensures
        r@ == text_or_empty(opt_view(j)),
{
    match text_in(j) {
        Some(t) => t,
        None => {
            let r = String::new();
            proof {
                assert(r@ =~= Seq::<char>::empty());
            }
            r
        },
    }
}

/// Reads a resource of the given kind.
pub fn resource_to_workload(kind: KubeWorkloadKind, doc: &Json, created_at: Option<String>) -> (r:
    KubeWorkload)
    ensures
        r@ == workload_of(kind, doc@, opt_text(created_at)),
{
    let status: KubeWorkloadStatus = read_status(kind, doc);
    let status_section: Option<&Json> = doc.get("status");
    let section: Option<&Json> = doc.get("spec");
    let metadata: Option<&Json> = doc.get("metadata");
    let replicas: Option<i32> = match kind {
        KubeWorkloadKind::DaemonSet => i32_in(get_in(status_section, "desiredNumberScheduled")),
        KubeWorkloadKind::Pod => Some(1),
        KubeWorkloadKind::Job => i32_in(get_in(section, "parallelism")),
        KubeWorkloadKind::CronJob => Some(1),
        _ => i32_in(get_in(section, "replicas")),
    };
    let ready_replicas: Option<i32> = match kind {
        KubeWorkloadKind::DaemonSet => i32_in(get_in(status_section, "numberReady")),
        KubeWorkloadKind::Pod => {
            if status == KubeWorkloadStatus::Running {
                Some(1)
            } else {
                Some(0)
            }
        },
        KubeWorkloadKind::Job => i32_in(get_in(status_section, "succeeded")),
        KubeWorkloadKind::CronJob => Some(1),
        _ => i32_in(get_in(status_section, "readyReplicas")),
    };
    KubeWorkload {
        name: read_text(get_in(metadata, "name")),
        namespace: read_text(get_in(metadata, "namespace")),
        kind,
        replicas,
        ready_replicas,
        status,
        created_at,
        labels: texts_in(get_in(metadata, "labels")),
    }
}

/// A listed job has succeeded just where its status counts a success; it has
/// failed just where its status counts no success but a failure; else it is
/// still running. It wants as many replicas as it may run at once, and those
/// that succeeded are ready.
pub proof fn law_listed_job(doc: Json, created_at: Option<String>, r: KubeWorkload)
    requires
        call_ensures(resource_to_workload, (KubeWorkloadKind::Job, &doc, created_at), r),
    ensures
        ({
            let status = member(doc@, "status"@);
            let succeeded = i32_of(member_of(status, "succeeded"@));
            let failed = i32_of(member_of(status, "failed"@));
            let some_succeeded = succeeded matches Some(n) && n > 0;
            let some_failed = failed matches Some(n) && n > 0;
            &&& (r.status == KubeWorkloadStatus::Succeeded) == some_succeeded
            &&& (r.status == KubeWorkloadStatus::Failed) == (!some_succeeded && some_failed)
            &&& (r.status == KubeWorkloadStatus::Running) == (!some_succeeded && !some_failed)
            &&& r.replicas == i32_of(member_of(member(doc@, "spec"@), "parallelism"@))
            &&& r.ready_replicas == succeeded
        }),
{
}

/// A listed pod is doing what its phase says, and it is its own one replica,
/// ready just where it is running.
pub proof fn law_listed_pod(doc: Json, created_at: Option<String>, r: KubeWorkload)
    requires
        call_ensures(resource_to_workload, (KubeWorkloadKind::Pod, &doc, created_at), r),
    ensures
        ({
            let phase = text_of(member_of(member(doc@, "status"@), "phase"@));
            &&& (r.status == KubeWorkloadStatus::Running) == (phase == Some("Running"@))
            &&& (r.status == KubeWorkloadStatus::Pending) == (phase == Some("Pending"@))
            &&& (r.status == KubeWorkloadStatus::Failed) == (phase == Some("Failed"@))
            &&& (r.status == KubeWorkloadStatus::Succeeded) == (phase == Some("Succeeded"@))
            &&& r.replicas == Some(1i32)
            &&& r.ready_replicas == Some(
                if phase == Some("Running"@) {
                    1i32
                } else {
                    0i32
                },
            )
        }),
{
    reveal_strlit("Running");
    reveal_strlit("Pending");
    reveal_strlit("Failed");
    reveal_strlit("Succeeded");
    assert("Running"@[0] == 'R' && "Pending"@[0] == 'P' && "Failed"@[0] == 'F' && "Succeeded"@[0]
        == 'S');
}

/// A listed workload of replicas is running just where one of them is ready,
/// and else pending. A daemon set counts nodes, any other kind replicas.
pub proof fn law_listed_replicas(
    kind: KubeWorkloadKind,
    doc: Json,
    created_at: Option<String>,
    r: KubeWorkload,
)
    requires
        kind == KubeWorkloadKind::Deployment || kind == KubeWorkloadKind::StatefulSet || kind
            == KubeWorkloadKind::ReplicaSet || kind == KubeWorkloadKind::DaemonSet,
        call_ensures(resource_to_workload, (kind, &doc, created_at), r),
    ensures
        ({
            let status = member(doc@, "status"@);
            let ready = if kind == KubeWorkloadKind::DaemonSet {
                i32_of(member_of(status, "numberReady"@))
            } else {
                i32_of(member_of(status, "readyReplicas"@))
            };
            let some_ready = ready matches Some(n) && n > 0;
            &&& (r.status == KubeWorkloadStatus::Running) == some_ready
            &&& (r.status == KubeWorkloadStatus::Pending) == !some_ready
            &&& r.ready_replicas == ready
            &&& kind == KubeWorkloadKind::DaemonSet ==> r.replicas == i32_of(
                member_of(status, "desiredNumberScheduled"@),
            )
            &&& kind != KubeWorkloadKind::DaemonSet ==> r.replicas == i32_of(
                member_of(member(doc@, "spec"@), "replicas"@),
            )
        }),
{
}

/// A listed cron job is running just where it has a status, and else pending.
/// It counts as one replica that is ready.
pub proof fn law_listed_cron_job(doc: Json, created_at: Option<String>, r: KubeWorkload)
    requires
        call_ensures(resource_to_workload, (KubeWorkloadKind::CronJob, &doc, created_at), r),
    ensures
        (r.status == KubeWorkloadStatus::Running) == (member(doc@, "status"@) is Some),
        (r.status == KubeWorkloadStatus::Pending) == (member(doc@, "status"@) is None),
        r.replicas == Some(1i32),
        r.ready_replicas == Some(1i32),
{
}

/// A listed workload keeps its kind and the time of its creation, and has the
/// name, the namespace and the labels of its metadata. A name or namespace
/// that is missing is empty.
pub proof fn law_listed_metadata(
    kind: KubeWorkloadKind,
    doc: Json,
    created_at: Option<String>,
    r: KubeWorkload,
)
    requires
        call_ensures(resource_to_workload, (kind, &doc, created_at), r),
    ensures
        r.kind == kind,
        opt_text(r.created_at) == opt_text(created_at),
        ({
            let metadata = member(doc@, "metadata"@);
            &&& match text_of(member_of(metadata, "name"@)) {
                Some(t) => r.name@ == t,
                None => r.name@.len() == 0,
            }
            &&& match text_of(member_of(metadata, "namespace"@)) {
                Some(t) => r.namespace@ == t,
                None => r.namespace@.len() == 0,
            }
            &&& r.labels.texts() == texts_of(member_of(metadata, "labels"@))
        }),
{
    assert(r@ == workload_of(kind, doc@, opt_text(created_at)));
}

/// Another resource owns this one.
pub open spec fn is_owned(doc: JsonView) -> bool {
    items_of(metadata_of(doc, "ownerReferences"@)).len() > 0
}

/// The resource belongs to the cluster itself.
pub open spec fn is_system(doc: JsonView) -> bool {
    text_of(metadata_of(doc, "namespace"@)) == Some("kube-system"@)
}

pub fn has_owner_references(doc: &Json) -> (r: bool)
    ensures
        r == is_owned(doc@),
{
    match list_in(get_in(doc.get("metadata"), "ownerReferences")) {
        Some(items) => {
            proof {
                assert(json_views(items@).len() == items@.len());
            }
            items.len() > 0
        },
        None => false,
    }
}

pub fn is_system_workload(doc: &Json) -> (r: bool)
    ensures
        r == is_system(doc@),
{
    match text_in(get_in(doc.get("metadata"), "namespace")) {
        Some(ns) => same(ns.as_str(), "kube-system"),
        None => false,
    }
}

/// The workloads of a page: those that nothing owns, without those of the
/// cluster itself unless these are asked for.
pub open spec fn page_workloads(
    kind: KubeWorkloadKind,
    include_system: bool,
    items: Seq<ListedResource>,
) -> Seq<WorkloadView>
    decreases items.len(),
{
    if items.len() == 0 {
        seq![]
    } else {
        let earlier = page_workloads(kind, include_system, items.drop_last());
        let doc = items.last().document@;
        if !is_owned(doc) && (include_system || !is_system(doc)) {
            earlier.push(workload_of(kind, doc, opt_text(items.last().created_at)))
        } else {
            earlier
        }
    }
}

fn read_page(
    out: &mut Vec<KubeWorkload>,
    kind: KubeWorkloadKind,
    include_system: bool,
    items: &Vec<ListedResource>,
)
    ensures
        listed_views(final(out)@) == listed_views(old(out)@) + page_workloads(
            kind,
            include_system,
            items@,
        ),
{
    let ghost start = listed_views(out@);
    let mut i: usize = 0;
    proof {
        assert(items@.take(0) =~= Seq::<ListedResource>::empty());
        assert(start + page_workloads(kind, include_system, items@.take(0)) =~= start);
    }
    while i < items.len()
        invariant
            i <= items@.len(),
            listed_views(out@) == start + page_workloads(
                kind,
                include_system,
                items@.take(i as int),
            ),
        decreases items@.len() - i,
    {
        let item: &ListedResource = &items[i];
        let ghost before = listed_views(out@);
        let ghost found = page_workloads(kind, include_system, items@.take(i as int));
        proof {
            assert(items@.take(i as int + 1).drop_last() =~= items@.take(i as int));
            assert(items@.take(i as int + 1).last() == *item);
        }
        if !has_owner_references(&item.document) && (include_system || !is_system_workload(
            &item.document,
        )) {
            let created_at: Option<String> = item.created_at.clone();
            let w: KubeWorkload = resource_to_workload(kind, &item.document, created_at);
            out.push(w);
            proof {
                assert(listed_views(out@) =~= before.push(w@));
                assert(start + found.push(w@) =~= (start + found).push(w@));
            }
        }
        i = i + 1;
    }
    proof {
        assert(items@.take(items@.len() as int) =~= items@);
    }
}

// ---------------------------------------------------------------------------
// Pages
// ---------------------------------------------------------------------------

/// Where a listing goes on: a kind, and where inside it.
#[derive(Debug)]
pub struct PaginationCursor {
    pub workload_kind: KubeWorkloadKind,
    pub continue_token: Option<String>,
}

/// Which part of a listing is wanted.
#[derive(Debug)]
pub struct PaginationParams {
    pub cursor: Option<PaginationCursor>,
    pub limit: usize,
}

/// A part of a listing.
#[derive(Debug)]
pub struct KubeWorkloadList {
    pub workloads: Vec<KubeWorkload>,
    pub next_cursor: Option<PaginationCursor>,
}

/// What a cursor holds.
pub open spec fn cursor_view(c: Option<PaginationCursor>) -> Option<
    (KubeWorkloadKind, Option<Seq<char>>),
> {
    match c {
        Some(p) => Some((p.workload_kind, opt_text(p.continue_token))),
        None => None,
    }
}

/// The kinds in the order in which they are listed.
pub open spec fn all_kinds() -> Seq<KubeWorkloadKind> {
    seq![
        KubeWorkloadKind::Deployment,
        KubeWorkloadKind::StatefulSet,
        KubeWorkloadKind::DaemonSet,
        KubeWorkloadKind::ReplicaSet,
        KubeWorkloadKind::Pod,
        KubeWorkloadKind::Job,
        KubeWorkloadKind::CronJob,
    ]
}

/// The kinds that a listing goes through.
pub open spec fn kinds_for(filter: Option<KubeWorkloadKind>) -> Seq<KubeWorkloadKind> {
    match filter {
        Some(k) => seq![k],
        None => all_kinds(),
    }
}

/// The index of the first occurrence of a kind; the number of kinds where it
/// is not among them.
pub open spec fn kind_position(kinds: Seq<KubeWorkloadKind>, kind: KubeWorkloadKind) -> int
    decreases kinds.len(),
{
    if kinds.len() == 0 || kinds[0] == kind {
        0
    } else {
        1 + kind_position(kinds.drop_first(), kind)
    }
}

/// The index of a kind; zero where it is not among them.
pub open spec fn kind_index(kinds: Seq<KubeWorkloadKind>, kind: KubeWorkloadKind) -> int {
    if kind_position(kinds, kind) < kinds.len() {
        kind_position(kinds, kind)
    } else {
        0
    }
}

/// A listing under way.
#[derive(Debug)]
pub struct WorkloadCollector {
    pub kinds: Vec<KubeWorkloadKind>,
    pub index: usize,
    pub limit: usize,
    pub include_system: bool,
    pub workloads: Vec<KubeWorkload>,
}

impl WorkloadCollector {
    /// There is a kind to list, and room for a workload.
    pub open spec fn wf(&self) -> bool {
        &&& self.index < self.kinds@.len()
        &&& self.workloads@.len() < self.limit
    }

    /// The kind that is being listed.
    pub open spec fn current(&self) -> KubeWorkloadKind {
        self.kinds@[self.index as int]
    }
}

/// What to do next.
#[derive(Debug)]
pub enum CollectStep {
    /// List the current kind of the collector from this token on.
    List { collector: WorkloadCollector, continue_token: Option<String> },
    /// The listing is complete, as far as it was asked for.
    Done(KubeWorkloadList),
}

/// The number of workloads that is listed where nothing else is said.
pub const DEFAULT_LIMIT: usize = 50;

/// The number of resources that are asked for at once.
pub const PAGE_SIZE: u32 = 50;

fn kinds_vec(filter: Option<KubeWorkloadKind>) -> (r: Vec<KubeWorkloadKind>)
    ensures
        r@ == kinds_for(filter),
{
    match filter {
        Some(k) => {
            let r: Vec<KubeWorkloadKind> = vec![k];
            proof {
                assert(r@ =~= kinds_for(filter));
            }
            r
        },
        None => {
            let r: Vec<KubeWorkloadKind> = vec![
                KubeWorkloadKind::Deployment,
                KubeWorkloadKind::StatefulSet,
                KubeWorkloadKind::DaemonSet,
                KubeWorkloadKind::ReplicaSet,
                KubeWorkloadKind::Pod,
                KubeWorkloadKind::Job,
                KubeWorkloadKind::CronJob,
            ];
            proof {
                assert(r@ =~= all_kinds());
            }
            r
        },
    }
}

fn find_kind(kinds: &Vec<KubeWorkloadKind>, kind: KubeWorkloadKind) -> (r: usize)
    requires
        kinds@.len() > 0,
    ensures
        r == kind_index(kinds@, kind),
        r < kinds@.len(),
{
    let mut i: usize = 0;
    proof {
        assert(kinds@.skip(0) =~= kinds@);
    }
    while i < kinds.len()
        invariant
            i <= kinds@.len(),
            kind_position(kinds@, kind) == i + kind_position(kinds@.skip(i as int), kind),
        decreases kinds@.len() - i,
    {
        proof {
            assert(kinds@.skip(i as int)[0] == kinds@[i as int]);
            assert(kinds@.skip(i as int).drop_first() =~= kinds@.skip(i as int + 1));
        }
        if kinds[i] == kind {
            return i;
        }
        i = i + 1;
    }
    0
}

/// The listing that parameters ask for begins here: at the kind of the
/// cursor, with its token, and with room for at least one workload.
pub fn start_collection(
    filter: Option<KubeWorkloadKind>,
    include_system: bool,
    pagination: Option<PaginationParams>,
) -> (r: CollectStep)
    ensures
        r matches CollectStep::List { collector, continue_token } && {
            let cursor = match pagination {
                Some(p) => cursor_view(p.cursor),
                None => None,
            };
            &&& collector.wf()
            &&& collector.kinds@ == kinds_for(filter)
            &&& collector.include_system == include_system
            &&& collector.workloads@.len() == 0
            &&& collector.limit == (match pagination {
                Some(p) => if p.limit == 0 {
                    1usize
                } else {
                    p.limit
                },
                None => DEFAULT_LIMIT,
            })
            &&& collector.index == (match cursor {
                Some((kind, _)) => kind_index(collector.kinds@, kind),
                None => 0,
            })
            &&& opt_text(continue_token) == (match cursor {
                Some((kind, token)) => if collector.current() == kind {
                    token
                } else {
                    None
                },
                None => None,
            })
        },
{
    let kinds: Vec<KubeWorkloadKind> = kinds_vec(filter);
    let (cursor, limit) = match pagination {
        Some(p) => (
            p.cursor,
            if p.limit == 0 {
                1
            } else {
                p.limit
            },
        ),
        None => (None, DEFAULT_LIMIT),
    };
    match cursor {
        Some(c) => {
            let index: usize = find_kind(&kinds, c.workload_kind);
            let continue_token: Option<String> = if kinds[index] == c.workload_kind {
                c.continue_token
            } else {
                None
            };
            CollectStep::List {
                collector: WorkloadCollector {
                    kinds,
                    index,
                    limit,
                    include_system,
                    workloads: Vec::new(),
                },
                continue_token,
            }
        },
        None => CollectStep::List {
            collector: WorkloadCollector {
                kinds,
                index: 0,
                limit,
                include_system,
                workloads: Vec::new(),
            },
            continue_token: None,
        },
    }
}

/// Where a listing goes on that has reached its limit: inside the kind where
/// there is more of it, else at the next kind.
pub open spec fn cursor_after(
    kinds: Seq<KubeWorkloadKind>,
    index: int,
    token: Option<Seq<char>>,
) -> Option<(KubeWorkloadKind, Option<Seq<char>>)> {
    match token {
        Some(t) => Some((kinds[index], Some(t))),
        None => if index + 1 < kinds.len() {
            Some((kinds[index + 1], None))
        } else {
            None
        },
    }
}

/// `r` is the step after a page.
pub open spec fn is_step_after(
    before: WorkloadCollector,
    items: Seq<ListedResource>,
    token: Option<Seq<char>>,
    r: CollectStep,
) -> bool {
    let found = listed_views(before.workloads@) + page_workloads(
        before.current(),
        before.include_system,
        items,
    );
    if found.len() >= before.limit {
        r matches CollectStep::Done(list) && listed_views(list.workloads@) == found && cursor_view(
            list.next_cursor,
        ) == cursor_after(before.kinds@, before.index as int, token)
    } else if token is None && before.index + 1 == before.kinds@.len() {
        r matches CollectStep::Done(list) && listed_views(list.workloads@) == found
            && list.next_cursor is None
    } else {
        r matches CollectStep::List { collector, continue_token } && {
            &&& collector.wf()
            &&& collector.kinds == before.kinds
            &&& collector.limit == before.limit
            &&& collector.include_system == before.include_system
            &&& listed_views(collector.workloads@) == found
            &&& opt_text(continue_token) == token
            &&& collector.index == (if token is Some {
                before.index as int
            } else {
                before.index + 1
            })
        }
    }
}

/// Goes on after a page of the current kind. The token tells that there is
/// more of the kind.
pub fn continue_collection(
    collector: WorkloadCollector,
    items: Vec<ListedResource>,
    continue_token: Option<String>,
) -> (r: CollectStep)
    requires
        collector.wf(),
    ensures
        is_step_after(collector, items@, opt_text(continue_token), r),
{
    let kind: KubeWorkloadKind = collector.kinds[collector.index];
    let mut workloads: Vec<KubeWorkload> = collector.workloads;
    read_page(&mut workloads, kind, collector.include_system, &items);
    proof {
        assert(listed_views(workloads@).len() == workloads@.len());
    }
    let is_last: bool = collector.index == collector.kinds.len() - 1;
    if workloads.len() >= collector.limit {
        let next_cursor: Option<PaginationCursor> = match continue_token {
            Some(t) => Some(PaginationCursor { workload_kind: kind, continue_token: Some(t) }),
            None => if is_last {
                None
            } else {
                Some(
                    PaginationCursor {
                        workload_kind: collector.kinds[collector.index + 1],
                        continue_token: None,
                    },
                )
            },
        };
        return CollectStep::Done(KubeWorkloadList { workloads, next_cursor });
    }
    match continue_token {
        Some(t) => CollectStep::List {
            collector: WorkloadCollector {
                kinds: collector.kinds,
                index: collector.index,
                limit: collector.limit,
                include_system: collector.include_system,
                workloads,
            },
            continue_token: Some(t),
        },
        None => {
            if is_last {
                CollectStep::Done(KubeWorkloadList { workloads, next_cursor: None })
            } else {
                CollectStep::List {
                    collector: WorkloadCollector {
                        kinds: collector.kinds,
                        index: collector.index + 1,
                        limit: collector.limit,
                        include_system: collector.include_system,
                        workloads,
                    },
                    continue_token: None,
                }
            }
        },
    }
}

/// A resource that a listing shows: nothing owns it, and it is outside the
/// namespace of the cluster itself unless that is asked for.
pub open spec fn is_shown(include_system: bool, item: ListedResource) -> bool {
    let metadata = member(item.document@, "metadata"@);
    &&& !(member_of(metadata, "ownerReferences"@) matches Some(JsonView::List(owners))
        && owners.len() > 0)
    &&& include_system || text_of(member_of(metadata, "namespace"@)) != Some("kube-system"@)
}

proof fn lemma_page_filtered(
    kind: KubeWorkloadKind,
    include_system: bool,
    items: Seq<ListedResource>,
)
    ensures
        page_workloads(kind, include_system, items) == items.filter(
            |item: ListedResource| is_shown(include_system, item),
        ).map_values(
            |item: ListedResource|
                workload_of(kind, item.document@, opt_text(item.created_at)),
        ),
    decreases items.len(),
{
    let shown = |item: ListedResource| is_shown(include_system, item);
    let read = |item: ListedResource|
        workload_of(kind, item.document@, opt_text(item.created_at));
    reveal(Seq::filter);
    if items.len() == 0 {
        assert(items.filter(shown).map_values(read) =~= Seq::<WorkloadView>::empty());
    } else {
        lemma_page_filtered(kind, include_system, items.drop_last());
        let earlier = items.drop_last().filter(shown);
        assert(earlier.push(items.last()).map_values(read) =~= earlier.map_values(read).push(
            read(items.last()),
        ));
    }
}

/// What a step has listed so far.
pub open spec fn listed_by(step: CollectStep) -> Seq<WorkloadView> {
    match step {
        CollectStep::List { collector, continue_token: _ } => listed_views(collector.workloads@),
        CollectStep::Done(list) => listed_views(list.workloads@),
    }
}

/// A page adds to a listing just the resources that are shown, each once, in
/// the order of the page and behind what was listed before.
pub proof fn law_page_is_listed(
    before: WorkloadCollector,
    items: Vec<ListedResource>,
    token: Option<String>,
    r: CollectStep,
)
    requires
        before.wf(),
        call_ensures(continue_collection, (before, items, token), r),
    ensures
        listed_by(r) == listed_views(before.workloads@) + items@.filter(
            |item: ListedResource| is_shown(before.include_system, item),
        ).map_values(
            |item: ListedResource|
                workload_of(
                    before.kinds@[before.index as int],
                    item.document@,
                    opt_text(item.created_at),
                ),
        ),
{
    lemma_page_filtered(before.kinds@[before.index as int], before.include_system, items@);
}

/// After a page a listing is done just where it has reached its limit, or
/// nothing is left. Then its cursor stands at the rest of the kind, or at the
/// next kind, or nowhere where nothing is left. Else it goes on with the rest
/// of the kind, or with the next kind from its start.
pub proof fn law_listing_goes_on(
    before: WorkloadCollector,
    items: Vec<ListedResource>,
    token: Option<String>,
    r: CollectStep,
)
    requires
        before.wf(),
        call_ensures(continue_collection, (before, items, token), r),
    ensures
        ({
            let last_kind = before.index + 1 == before.kinds@.len();
            let nothing_left = token is None && last_kind;
            match r {
                CollectStep::Done(list) => {
                    &&& listed_by(r).len() >= before.limit || nothing_left
                    &&& (list.next_cursor is None) == nothing_left
                    &&& list.next_cursor matches Some(cursor) ==> {
                        &&& cursor.workload_kind == before.kinds@[if token is Some {
                            before.index as int
                        } else {
                            before.index + 1
                        }]
                        &&& opt_text(cursor.continue_token) == opt_text(token)
                    }
                },
                CollectStep::List { collector, continue_token } => {
                    &&& listed_by(r).len() < before.limit && !nothing_left
                    &&& collector.kinds@ == before.kinds@
                    &&& collector.limit == before.limit
                    &&& collector.include_system == before.include_system
                    &&& collector.index == (if token is Some {
                        before.index as int
                    } else {
                        before.index + 1
                    })
                    &&& opt_text(continue_token) == opt_text(token)
                },
            }
        }),
{
}

/// A listing that starts anew goes through every kind once, or through the
/// one kind that is asked for; from the start, with room for fifty workloads
/// where nothing else is said, and never for none.
pub proof fn law_listing_starts(
    filter: Option<KubeWorkloadKind>,
    include_system: bool,
    pagination: Option<PaginationParams>,
    r: CollectStep,
)
    requires
        call_ensures(start_collection, (filter, include_system, pagination), r),
    ensures
        r matches CollectStep::List { collector, continue_token } && {
            &&& collector.kinds@.no_duplicates()
            &&& forall|k: KubeWorkloadKind| #[trigger]
                collector.kinds@.contains(k) == (filter is None || filter == Some(k))
            &&& collector.workloads@.len() == 0
            &&& collector.include_system == include_system
            &&& collector.limit > 0
            &&& match pagination {
                Some(p) => {
                    &&& p.limit > 0 ==> collector.limit == p.limit
                    &&& p.limit == 0 ==> collector.limit == 1
                },
                None => collector.limit == 50,
            }
            &&& match pagination {
                Some(PaginationParams { cursor: Some(c), limit: _ }) => {
                    if filter is None || filter == Some(c.workload_kind) {
                        &&& collector.kinds@[collector.index as int] == c.workload_kind
                        &&& opt_text(continue_token) == opt_text(c.continue_token)
                    } else {
                        collector.index == 0 && continue_token is None
                    }
                },
                _ => collector.index == 0 && continue_token is None,
            }
        },
{
    match filter {
        Some(f) => {
            let kinds = seq![f];
            assert forall|k: KubeWorkloadKind| #[trigger] kinds.contains(k) == (f == k) by {
                if f == k {
                    assert(kinds[0] == k);
                }
            }
            match pagination {
                Some(PaginationParams { cursor: Some(c), limit: _ }) => {
                    assert(kinds.drop_first().len() == 0);
                    if f == c.workload_kind {
                        assert(kind_position(kinds, f) == 0);
                    } else {
                        assert(kind_position(kinds, c.workload_kind) == 1 + kind_position(
                            kinds.drop_first(),
                            c.workload_kind,
                        ));
                    }
                },
                _ => {},
            }
        },
        None => {
            let kinds = all_kinds();
            assert forall|k: KubeWorkloadKind| #[trigger] kinds.contains(k) by {
                match k {
                    KubeWorkloadKind::Deployment => assert(kinds[0] == k),
                    KubeWorkloadKind::StatefulSet => assert(kinds[1] == k),
                    KubeWorkloadKind::DaemonSet => assert(kinds[2] == k),
                    KubeWorkloadKind::ReplicaSet => assert(kinds[3] == k),
                    KubeWorkloadKind::Pod => assert(kinds[4] == k),
                    KubeWorkloadKind::Job => assert(kinds[5] == k),
                    KubeWorkloadKind::CronJob => assert(kinds[6] == k),
                }
            }
            match pagination {
                Some(PaginationParams { cursor: Some(c), limit: _ }) => {
                    let at = choose|i: int| 0 <= i < kinds.len() && kinds[i] == c.workload_kind;
                    assert(kinds.contains(c.workload_kind));
                    lemma_kind_position(kinds, at);
                },
                _ => {},
            }
        },
    }
}

/// A listing ends before its last page only where it has reached its limit,
/// and it always says where to go on where something is left.
pub proof fn law_listing_ends(
    before: WorkloadCollector,
    items: Seq<ListedResource>,
    token: Option<Seq<char>>,
    list: KubeWorkloadList,
)
    requires
        before.wf(),
        is_step_after(before, items, token, CollectStep::Done(list)),
    ensures
        list.workloads@.len() < before.limit ==> list.next_cursor is None,
        (list.next_cursor is None) == (token is None && before.index + 1 == before.kinds@.len()),
{
    assert(listed_views(list.workloads@).len() == list.workloads@.len());
}

proof fn lemma_kind_position(kinds: Seq<KubeWorkloadKind>, at: int)
    requires
        0 <= at < kinds.len(),
        forall|j: int| 0 <= j < at ==> #[trigger] kinds[j] != kinds[at],
    ensures
        kind_position(kinds, kinds[at]) == at,
    decreases kinds.len(),
{
    if at > 0 {
        let rest = kinds.drop_first();
        assert(rest[at - 1] == kinds[at]);
        assert(kinds[0] != kinds[at]);
        assert forall|j: int| 0 <= j < at - 1 implies #[trigger] rest[j] != rest[at - 1] by {
            assert(rest[j] == kinds[j + 1]);
        }
        lemma_kind_position(rest, at - 1);
    }
}

/// A listing that goes on at the cursor of an earlier part starts with the
/// page that follows it.
pub proof fn law_cursor_resumes(index: int, token: Option<Seq<char>>)
    requires
        0 <= index < all_kinds().len(),
    ensures
        match cursor_after(all_kinds(), index, token) {
            Some((kind, t)) => {
                &&& kind_index(all_kinds(), kind) == (if token is Some {
                    index
                } else {
                    index + 1
                })
                &&& all_kinds()[kind_index(all_kinds(), kind)] == kind
                &&& t == token
            },
            None => index + 1 == all_kinds().len(),
        },
{
    let kinds = all_kinds();
    if token is Some {
        lemma_kind_position(kinds, index);
    } else if index + 1 < kinds.len() {
        lemma_kind_position(kinds, index + 1);
    }
}

/// The kinds among which a workload of a given name is looked up, in order.
pub fn lookup_order() -> (r: Vec<KubeWorkloadKind>)
    ensures
        r@ == seq![
            KubeWorkloadKind::Deployment,
            KubeWorkloadKind::StatefulSet,
            KubeWorkloadKind::DaemonSet,
            KubeWorkloadKind::Pod,
            KubeWorkloadKind::Job,
        ],
{
    let r: Vec<KubeWorkloadKind> = vec![
        KubeWorkloadKind::Deployment,
        KubeWorkloadKind::StatefulSet,
        KubeWorkloadKind::DaemonSet,
        KubeWorkloadKind::Pod,
        KubeWorkloadKind::Job,
    ];
    proof {
        assert(r@ =~= seq![
            KubeWorkloadKind::Deployment,
            KubeWorkloadKind::StatefulSet,
            KubeWorkloadKind::DaemonSet,
            KubeWorkloadKind::Pod,
            KubeWorkloadKind::Job,
        ]);
    }
    r
}

} // verus!
