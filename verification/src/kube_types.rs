//! Kubernetes workload data as the catalog keeps it.
use crate::text::{opt_text, same, same_opt};
use vstd::prelude::*;

verus! {

/// The kinds of workloads that are tracked.
#[derive(Clone, Copy, Debug, PartialEq, Eq, Structural)]
pub enum KubeWorkloadKind {
    Deployment,
    StatefulSet,
    DaemonSet,
    ReplicaSet,
    Pod,
    Job,
    CronJob,
}

/// Where a container takes its image from.
#[derive(Debug, PartialEq, Eq)]
pub enum KubeContainerImage {
    FollowOriginal,
    Custom(String),
}

/// A port that a container opens.
#[derive(Debug, PartialEq, Eq)]
pub struct KubeContainerPort {
    pub name: Option<String>,
    pub container_port: i32,
    pub protocol: Option<String>,
}

/// An environment variable of a container.
#[derive(Debug, PartialEq, Eq)]
pub struct KubeEnvVar {
    pub name: String,
    pub value: String,
}

/// A container of a workload.
#[derive(Debug, PartialEq, Eq)]
pub struct KubeContainerInfo {
    pub name: String,
    pub original_image: String,
    pub image: KubeContainerImage,
    pub cpu_request: Option<String>,
    pub cpu_limit: Option<String>,
    pub memory_request: Option<String>,
    pub memory_limit: Option<String>,
    pub env_vars: Vec<KubeEnvVar>,
    pub original_env_vars: Vec<KubeEnvVar>,
    pub ports: Vec<KubeContainerPort>,
}

/// A port of a service.
#[derive(Debug, PartialEq, Eq)]
pub struct KubeServicePort {
    pub name: Option<String>,
    pub port: i32,
    pub target_port: Option<i32>,
    pub protocol: Option<String>,
    pub node_port: Option<i32>,
    pub original_target_port: Option<i32>,
}

/// What a `KubeContainerPort` holds.
pub struct ContainerPortView {
    pub name: Option<Seq<char>>,
    pub container_port: i32,
    pub protocol: Option<Seq<char>>,
}

/// What a `KubeServicePort` holds.
pub struct ServicePortView {
    pub name: Option<Seq<char>>,
    pub port: i32,
    pub target_port: Option<i32>,
    pub protocol: Option<Seq<char>>,
    pub node_port: Option<i32>,
    pub original_target_port: Option<i32>,
}

/// What a `KubeContainerInfo` holds; no image stands for following the
/// original one.
#[verifier::ext_equal]
pub struct ContainerView {
    pub name: Seq<char>,
    pub original_image: Seq<char>,
    pub image: Option<Seq<char>>,
    pub cpu_request: Option<Seq<char>>,
    pub cpu_limit: Option<Seq<char>>,
    pub memory_request: Option<Seq<char>>,
    pub memory_limit: Option<Seq<char>>,
    pub env_vars: Seq<(Seq<char>, Seq<char>)>,
    pub original_env_vars: Seq<(Seq<char>, Seq<char>)>,
    pub ports: Seq<ContainerPortView>,
}

impl View for KubeContainerPort {
    type V = ContainerPortView;

    open spec fn view(&self) -> ContainerPortView {
        ContainerPortView {
            name: opt_text(self.name),
            container_port: self.container_port,
            protocol: opt_text(self.protocol),
        }
    }
}

impl View for KubeServicePort {
    type V = ServicePortView;

    open spec fn view(&self) -> ServicePortView {
        ServicePortView {
            name: opt_text(self.name),
            port: self.port,
            target_port: self.target_port,
            protocol: opt_text(self.protocol),
            node_port: self.node_port,
            original_target_port: self.original_target_port,
        }
    }
}

/// The custom image of a container.
pub open spec fn image_view(image: KubeContainerImage) -> Option<Seq<char>> {
    match image {
        KubeContainerImage::FollowOriginal => None,
        KubeContainerImage::Custom(t) => Some(t@),
    }
}

pub open spec fn env_views(vars: Seq<KubeEnvVar>) -> Seq<(Seq<char>, Seq<char>)> {
    Seq::new(vars.len(), |i: int| (vars[i].name@, vars[i].value@))
}

pub open spec fn container_port_views(ports: Seq<KubeContainerPort>) -> Seq<ContainerPortView> {
    Seq::new(ports.len(), |i: int| ports[i]@)
}

pub open spec fn service_port_views(ports: Seq<KubeServicePort>) -> Seq<ServicePortView> {
    Seq::new(ports.len(), |i: int| ports[i]@)
}

pub open spec fn container_views(containers: Seq<KubeContainerInfo>) -> Seq<ContainerView> {
    Seq::new(containers.len(), |i: int| containers[i]@)
}

impl View for KubeContainerInfo {
    type V = ContainerView;

    open spec fn view(&self) -> ContainerView {
        ContainerView {
            name: self.name@,
            original_image: self.original_image@,
            image: image_view(self.image),
            cpu_request: opt_text(self.cpu_request),
            cpu_limit: opt_text(self.cpu_limit),
            memory_request: opt_text(self.memory_request),
            memory_limit: opt_text(self.memory_limit),
            env_vars: env_views(self.env_vars@),
            original_env_vars: env_views(self.original_env_vars@),
            ports: container_port_views(self.ports@),
        }
    }
}

impl Clone for KubeContainerImage {
    fn clone(&self) -> (r: Self)
        ensures
            image_view(r) == image_view(*self),
    {
        match self {
            KubeContainerImage::FollowOriginal => KubeContainerImage::FollowOriginal,
            KubeContainerImage::Custom(t) => KubeContainerImage::Custom(t.clone()),
        }
    }
}

impl Clone for KubeContainerPort {
    fn clone(&self) -> (r: Self)
        ensures
            r@ == self@,
    {
        KubeContainerPort {
            name: self.name.clone(),
            container_port: self.container_port,
            protocol: self.protocol.clone(),
        }
    }
}

impl Clone for KubeEnvVar {
    fn clone(&self) -> (r: Self)
        ensures
            r.name@ == self.name@,
            r.value@ == self.value@,
    {
        KubeEnvVar { name: self.name.clone(), value: self.value.clone() }
    }
}

impl Clone for KubeServicePort {
    fn clone(&self) -> (r: Self)
        ensures
            r@ == self@,
    {
        KubeServicePort {
            name: self.name.clone(),
            port: self.port,
            target_port: self.target_port,
            protocol: self.protocol.clone(),
            node_port: self.node_port,
            original_target_port: self.original_target_port,
        }
    }
}

/// A copy of a list of container ports.
pub fn copy_container_ports(ports: &Vec<KubeContainerPort>) -> (r: Vec<KubeContainerPort>)
    ensures
        container_port_views(r@) == container_port_views(ports@),
{
    let r = ports.clone();
    proof {
        assert(container_port_views(r@) =~= container_port_views(ports@));
    }
    r
}

/// A copy of a list of environment variables.
pub fn copy_env_vars(vars: &Vec<KubeEnvVar>) -> (r: Vec<KubeEnvVar>)
    ensures
        env_views(r@) == env_views(vars@),
{
    let r = vars.clone();
    proof {
        assert(env_views(r@) =~= env_views(vars@));
    }
    r
}

impl Clone for KubeContainerInfo {
    fn clone(&self) -> (r: Self)
        ensures
            r@ == self@,
    {
        KubeContainerInfo {
            name: self.name.clone(),
            original_image: self.original_image.clone(),
            image: self.image.clone(),
            cpu_request: self.cpu_request.clone(),
            cpu_limit: self.cpu_limit.clone(),
            memory_request: self.memory_request.clone(),
            memory_limit: self.memory_limit.clone(),
            env_vars: copy_env_vars(&self.env_vars),
            original_env_vars: copy_env_vars(&self.original_env_vars),
            ports: copy_container_ports(&self.ports),
        }
    }
}

fn same_container_port(a: &KubeContainerPort, b: &KubeContainerPort) -> (r: bool)
    ensures
        r == (a@ == b@),
{
    same_opt(&a.name, &b.name) && a.container_port == b.container_port && same_opt(
        &a.protocol,
        &b.protocol,
    )
}

fn same_container_ports(a: &Vec<KubeContainerPort>, b: &Vec<KubeContainerPort>) -> (r: bool)
    ensures
        r == (container_port_views(a@) == container_port_views(b@)),
{
    proof {
        assert(container_port_views(a@).len() == a@.len());
        assert(container_port_views(b@).len() == b@.len());
    }
    if a.len() != b.len() {
        return false;
    }
    let mut i: usize = 0;
    while i < a.len()
        invariant
            i <= a@.len(),
            a@.len() == b@.len(),
            forall|j: int| 0 <= j < i ==> (#[trigger] a@[j])@ == b@[j]@,
        decreases a@.len() - i,
    {
        if !same_container_port(&a[i], &b[i]) {
            proof {
                assert(container_port_views(a@)[i as int] != container_port_views(b@)[i as int]);
            }
            return false;
        }
        i = i + 1;
    }
    proof {
        assert(container_port_views(a@) =~= container_port_views(b@));
    }
    true
}

fn same_env_vars(a: &Vec<KubeEnvVar>, b: &Vec<KubeEnvVar>) -> (r: bool)
    ensures
        r == (env_views(a@) == env_views(b@)),
{
    proof {
        assert(env_views(a@).len() == a@.len());
        assert(env_views(b@).len() == b@.len());
    }
    if a.len() != b.len() {
        return false;
    }
    let mut i: usize = 0;
    while i < a.len()
        invariant
            i <= a@.len(),
            a@.len() == b@.len(),
            forall|j: int|
                0 <= j < i ==> (#[trigger] a@[j]).name@ == b@[j].name@ && a@[j].value@
                    == b@[j].value@,
        decreases a@.len() - i,
    {
        if !same(a[i].name.as_str(), b[i].name.as_str()) || !same(
            a[i].value.as_str(),
            b[i].value.as_str(),
        ) {
            proof {
                assert(env_views(a@)[i as int] != env_views(b@)[i as int]);
            }
            return false;
        }
        i = i + 1;
    }
    proof {
        assert(env_views(a@) =~= env_views(b@));
    }
    true
}

fn same_image(a: &KubeContainerImage, b: &KubeContainerImage) -> (r: bool)
    ensures
        r == (image_view(*a) == image_view(*b)),
{
    match (a, b) {
        (KubeContainerImage::FollowOriginal, KubeContainerImage::FollowOriginal) => true,
        (KubeContainerImage::Custom(x), KubeContainerImage::Custom(y)) => same(
            x.as_str(),
            y.as_str(),
        ),
        _ => false,
    }
}

/// Whether two containers are equal.
pub fn same_container(a: &KubeContainerInfo, b: &KubeContainerInfo) -> (r: bool)
    ensures
        r == (a@ == b@),
{
    same(a.name.as_str(), b.name.as_str()) && same(
        a.original_image.as_str(),
        b.original_image.as_str(),
    ) && same_image(&a.image, &b.image) && same_opt(&a.cpu_request, &b.cpu_request) && same_opt(
        &a.cpu_limit,
        &b.cpu_limit,
    ) && same_opt(&a.memory_request, &b.memory_request) && same_opt(
        &a.memory_limit,
        &b.memory_limit,
    ) && same_env_vars(&a.env_vars, &b.env_vars) && same_env_vars(
        &a.original_env_vars,
        &b.original_env_vars,
    ) && same_container_ports(&a.ports, &b.ports)
}

/// Whether two lists of containers are equal.
pub fn same_containers(a: &Vec<KubeContainerInfo>, b: &Vec<KubeContainerInfo>) -> (r: bool)
    ensures
        r == (container_views(a@) == container_views(b@)),
{
    proof {
        assert(container_views(a@).len() == a@.len());
        assert(container_views(b@).len() == b@.len());
    }
    if a.len() != b.len() {
        return false;
    }
    let mut i: usize = 0;
    while i < a.len()
        invariant
            i <= a@.len(),
            a@.len() == b@.len(),
            forall|j: int| 0 <= j < i ==> (#[trigger] a@[j])@ == b@[j]@,
        decreases a@.len() - i,
    {
        if !same_container(&a[i], &b[i]) {
            proof {
                assert(container_views(a@)[i as int] != container_views(b@)[i as int]);
            }
            return false;
        }
        i = i + 1;
    }
    proof {
        assert(container_views(a@) =~= container_views(b@));
    }
    true
}

/// Whether two optional numbers are equal.
pub fn same_opt_i32(a: Option<i32>, b: Option<i32>) -> (r: bool)
    ensures
        r == (a == b),
{
    match (a, b) {
        (Some(x), Some(y)) => x == y,
        (None, None) => true,
        _ => false,
    }
}

/// Whether two service ports are equal.
pub fn same_service_port(a: &KubeServicePort, b: &KubeServicePort) -> (r: bool)
    ensures
        r == (a@ == b@),
{
    same_opt(&a.name, &b.name) && a.port == b.port && same_opt_i32(a.target_port, b.target_port)
        && same_opt(&a.protocol, &b.protocol) && same_opt_i32(a.node_port, b.node_port)
        && same_opt_i32(a.original_target_port, b.original_target_port)
}

/// Whether two lists of service ports are equal.
pub fn same_service_ports(a: &Vec<KubeServicePort>, b: &Vec<KubeServicePort>) -> (r: bool)
    ensures
        r == (service_port_views(a@) == service_port_views(b@)),
{
    proof {
        assert(service_port_views(a@).len() == a@.len());
        assert(service_port_views(b@).len() == b@.len());
    }
    if a.len() != b.len() {
        return false;
    }
    let mut i: usize = 0;
    while i < a.len()
        invariant
            i <= a@.len(),
            a@.len() == b@.len(),
            forall|j: int| 0 <= j < i ==> (#[trigger] a@[j])@ == b@[j]@,
        decreases a@.len() - i,
    {
        if !same_service_port(&a[i], &b[i]) {
            proof {
                assert(service_port_views(a@)[i as int] != service_port_views(b@)[i as int]);
            }
            return false;
        }
        i = i + 1;
    }
    proof {
        assert(service_port_views(a@) =~= service_port_views(b@));
    }
    true
}

/// A copy of a list of service ports.
pub fn copy_service_ports(ports: &Vec<KubeServicePort>) -> (r: Vec<KubeServicePort>)
    ensures
        service_port_views(r@) == service_port_views(ports@),
{
    let r = ports.clone();
    proof {
        assert(service_port_views(r@) =~= service_port_views(ports@));
    }
    r
}

// ---------------------------------------------------------------------------
// Laws
// ---------------------------------------------------------------------------

/// Both are missing, or both are there with the same characters.
pub open spec fn both_say(a: Option<String>, b: Option<String>) -> bool {
    &&& a is Some <==> b is Some
    &&& a is Some ==> a->0@ == b->0@
}

/// The variables have the same names and values, in the same order.
pub open spec fn both_set(a: Seq<KubeEnvVar>, b: Seq<KubeEnvVar>) -> bool {
    &&& a.len() == b.len()
    &&& forall|i: int|
        0 <= i < a.len() ==> (#[trigger] a[i]).name@ == b[i].name@ && a[i].value@ == b[i].value@
}

proof fn lemma_both_set(a: Seq<KubeEnvVar>, b: Seq<KubeEnvVar>)
    ensures
        both_set(a, b) <==> env_views(a) == env_views(b),
{
    if both_set(a, b) {
        assert(env_views(a) =~= env_views(b));
    }
    if env_views(a) == env_views(b) {
        assert(env_views(a).len() == a.len() && env_views(b).len() == b.len());
        assert forall|i: int| 0 <= i < a.len() implies (#[trigger] a[i]).name@ == b[i].name@
            && a[i].value@ == b[i].value@ by {
            assert(env_views(a)[i] == env_views(b)[i]);
        }
    }
}

/// The ports have the same names, numbers and protocols, in the same order.
pub open spec fn both_open(a: Seq<KubeContainerPort>, b: Seq<KubeContainerPort>) -> bool {
    &&& a.len() == b.len()
    &&& forall|i: int|
        0 <= i < a.len() ==> (#[trigger] a[i]).container_port == b[i].container_port && both_say(
            a[i].name,
            b[i].name,
        ) && both_say(a[i].protocol, b[i].protocol)
}

proof fn lemma_both_open(a: Seq<KubeContainerPort>, b: Seq<KubeContainerPort>)
    ensures
        both_open(a, b) <==> container_port_views(a) == container_port_views(b),
{
    if both_open(a, b) {
        assert forall|i: int| 0 <= i < a.len() implies container_port_views(a)[i]
            == container_port_views(b)[i] by {
            assert(a[i].container_port == b[i].container_port);
        }
        assert(container_port_views(a) =~= container_port_views(b));
    }
    if container_port_views(a) == container_port_views(b) {
        assert(container_port_views(a).len() == a.len() && container_port_views(b).len()
            == b.len());
        assert forall|i: int| 0 <= i < a.len() implies (#[trigger] a[i]).container_port
            == b[i].container_port && both_say(a[i].name, b[i].name) && both_say(
            a[i].protocol,
            b[i].protocol,
        ) by {
            assert(container_port_views(a)[i] == container_port_views(b)[i]);
            assert(a[i]@ == b[i]@);
        }
    }
}

/// Two containers are equal just where all that they have is equal: names,
/// images, requests and limits, variables and ports.
pub proof fn law_equal_containers_have_all_in_common(
    a: KubeContainerInfo,
    b: KubeContainerInfo,
    r: bool,
)
    requires
        call_ensures(same_container, (&a, &b), r),
    ensures
        r <==> {
            &&& a.name@ == b.name@
            &&& a.original_image@ == b.original_image@
            &&& a.image is Custom <==> b.image is Custom
            &&& a.image matches KubeContainerImage::Custom(t) ==> (b.image
                matches KubeContainerImage::Custom(u) && t@ == u@)
            &&& both_say(a.cpu_request, b.cpu_request)
            &&& both_say(a.cpu_limit, b.cpu_limit)
            &&& both_say(a.memory_request, b.memory_request)
            &&& both_say(a.memory_limit, b.memory_limit)
            &&& both_set(a.env_vars@, b.env_vars@)
            &&& both_set(a.original_env_vars@, b.original_env_vars@)
            &&& both_open(a.ports@, b.ports@)
        },
{
    lemma_both_set(a.env_vars@, b.env_vars@);
    lemma_both_set(a.original_env_vars@, b.original_env_vars@);
    lemma_both_open(a.ports@, b.ports@);
}

/// Two service ports are equal just where all that they have is equal.
pub proof fn law_equal_service_ports_have_all_in_common(
    a: KubeServicePort,
    b: KubeServicePort,
    r: bool,
)
    requires
        call_ensures(same_service_port, (&a, &b), r),
    ensures
        r <==> both_say(a.name, b.name) && a.port == b.port && a.target_port == b.target_port
            && both_say(a.protocol, b.protocol) && a.node_port == b.node_port
            && a.original_target_port == b.original_target_port,
{
}

} // verus!
