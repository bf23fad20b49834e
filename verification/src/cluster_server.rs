//! The servers of connected clusters, and the calls between them and their
//! agents.
use crate::cluster_resources::KubeClusterInfo;
use crate::direct_handshake::{live, DirectCredentialStore};
use crate::generations::{entries_of, no_empty_entry, without_entry, Generations};
use crate::ids::{id_text, id_to_string, new_token};
use crate::kube_rpc::{DirectChannelConfig, DirectCredential, KubeWorkloadsWithResources};
use crate::net::SocketAddress;
use crate::text::{bounded_value, concat, concat3, parse_unsigned, trim, trim_string};
use std::collections::HashMap;
use vstd::prelude::*;

verus! {

broadcast use vstd::std_specs::hash::group_hash_axioms;

// ---------------------------------------------------------------------------
// Connected clusters
// ---------------------------------------------------------------------------

/// The servers of each cluster by generation.
pub struct ClusterServers<T> {
    pub servers: Generations<T>,
    pub next: u64,
}

impl<T> ClusterServers<T> {
    pub open spec fn well_formed(&self) -> bool {
        no_empty_entry(self.servers@)
    }

    pub fn new() -> (r: Self)
        ensures
            r.well_formed(),
            r.servers@ == Map::<u128, Map<u64, T>>::empty(),
            r.next == 0,
    {
        ClusterServers { servers: Generations::new(), next: 0 }
    }

    /// Lists the server of a connection under a new generation.
    pub fn register(&mut self, cluster_id: u128, server: T) -> (r: u64)
        requires
            old(self).well_formed(),
        ensures
            final(self).well_formed(),
            r == old(self).next,
            final(self).next == (if r == u64::MAX {
                0u64
            } else {
                (r + 1) as u64
            }),
            final(self).servers@ == old(self).servers@.insert(
                cluster_id,
                entries_of(old(self).servers@, cluster_id).insert(r, server),
            ),
    {
        let generation: u64 = self.next;
        self.next = self.next.wrapping_add(1);
        self.servers.insert(cluster_id, generation, server);
        generation
    }

    /// Forgets the server of a connection that ended. One that was never
    /// listed is passed over.
    pub fn unregister(&mut self, cluster_id: u128, generation: Option<u64>)
        requires
            old(self).well_formed(),
        ensures
            final(self).well_formed(),
            final(self).next == old(self).next,
            final(self).servers@ == (match generation {
                Some(g) => without_entry(old(self).servers@, cluster_id, g),
                None => old(self).servers@,
            }),
    {
        if let Some(g) = generation {
            self.servers.remove(cluster_id, g);
        }
    }
}

/// A connection that ends takes away what it listed and nothing else.
pub proof fn law_unregister_undoes_register<T>(
    before: Map<u128, Map<u64, T>>,
    cluster_id: u128,
    generation: u64,
    server: T,
)
    requires
        no_empty_entry(before),
        !entries_of(before, cluster_id).contains_key(generation),
    ensures
        without_entry(
            before.insert(cluster_id, entries_of(before, cluster_id).insert(generation, server)),
            cluster_id,
            generation,
        ) == before,
{
    let entries = entries_of(before, cluster_id);
    let listed = before.insert(cluster_id, entries.insert(generation, server));
    assert(entries_of(listed, cluster_id).remove(generation) =~= entries);
    if before.contains_key(cluster_id) {
        assert(listed.insert(cluster_id, entries) =~= before);
    } else {
        assert(listed.remove(cluster_id) =~= before);
    }
}

/// The namespace whose watch is added or removed: trimmed; none where nothing
/// is left.
pub fn watch_namespace(namespace: &str) -> (r: Option<String>)
    ensures
        match r {
            Some(n) => n@ == trim(namespace@) && n@.len() > 0,
            None => trim(namespace@).len() == 0,
        },
{
    let trimmed: String = trim_string(namespace);
    if trimmed.as_str().is_empty() {
        None
    } else {
        Some(trimmed)
    }
}

// ---------------------------------------------------------------------------
// Calls to the agent
// ---------------------------------------------------------------------------

/// What is asked of the agent of a cluster.
#[derive(Debug, Clone, Copy, PartialEq, Eq, Structural)]
pub enum AgentCall {
    ConfigureWatches,
    AddNamespaceWatch,
    RemoveNamespaceWatch,
    SetDevboxRoutes,
    SetDevboxRoute,
    RemoveDevboxRoute,
    ClearDevboxRoutes,
    GetDevboxDirectConfig,
}

/// What came of a call.
#[derive(Debug)]
pub enum CallOutcome<R> {
    Answered(R),
    /// The agent said no.
    Rejected(String),
    /// The call did not get through.
    Failed(String),
}

/// What is said of a call that the agent rejected.
pub open spec fn rejected_text(call: AgentCall, error: Seq<char>) -> Seq<char> {
    match call {
        AgentCall::ConfigureWatches =>
        "KubeManager rejected namespace watch configuration: "@ + error,
        AgentCall::AddNamespaceWatch => "KubeManager rejected namespace watch add: "@ + error,
        AgentCall::RemoveNamespaceWatch =>
        "KubeManager rejected namespace watch removal: "@ + error,
        _ => error,
    }
}

/// What is said of a call that did not get through.
pub open spec fn failed_text(call: AgentCall, error: Seq<char>) -> Seq<char> {
    match call {
        AgentCall::ConfigureWatches => "Failed to send namespace watch configuration RPC: "@
            + error,
        AgentCall::AddNamespaceWatch => "Failed to add namespace watch RPC: "@ + error,
        AgentCall::RemoveNamespaceWatch => "Failed to remove namespace watch RPC: "@ + error,
        AgentCall::SetDevboxRoutes =>
        "Failed to send set_devbox_routes RPC to kube-manager: "@ + error,
        AgentCall::SetDevboxRoute =>
        "Failed to send set_devbox_route RPC to kube-manager: "@ + error,
        AgentCall::RemoveDevboxRoute =>
        "Failed to send remove_devbox_route RPC to kube-manager: "@ + error,
        AgentCall::ClearDevboxRoutes =>
        "Failed to send clear_devbox_routes RPC to kube-manager: "@ + error,
        AgentCall::GetDevboxDirectConfig =>
        "Failed to send get_devbox_direct_config RPC to kube-manager: "@ + error,
    }
}

/// What comes back of a call to the agent.
pub fn agent_result<R>(call: AgentCall, outcome: CallOutcome<R>) -> (r: Result<R, String>)
    ensures
        match outcome {
            CallOutcome::Answered(x) => r == Ok::<R, String>(x),
            CallOutcome::Rejected(e) => r matches Err(m) && m@ == rejected_text(call, e@),
            CallOutcome::Failed(e) => r matches Err(m) && m@ == failed_text(call, e@),
        },
{
    match outcome {
        CallOutcome::Answered(x) => Ok(x),
        CallOutcome::Rejected(e) => Err(
            match call {
                AgentCall::ConfigureWatches => concat(
                    "KubeManager rejected namespace watch configuration: ",
                    e.as_str(),
                ),
                AgentCall::AddNamespaceWatch => concat(
                    "KubeManager rejected namespace watch add: ",
                    e.as_str(),
                ),
                AgentCall::RemoveNamespaceWatch => concat(
                    "KubeManager rejected namespace watch removal: ",
                    e.as_str(),
                ),
                _ => e,
            },
        ),
        CallOutcome::Failed(e) => {
            let head: &str = match call {
                AgentCall::ConfigureWatches =>
                "Failed to send namespace watch configuration RPC: ",
                AgentCall::AddNamespaceWatch => "Failed to add namespace watch RPC: ",
                AgentCall::RemoveNamespaceWatch => "Failed to remove namespace watch RPC: ",
                AgentCall::SetDevboxRoutes =>
                "Failed to send set_devbox_routes RPC to kube-manager: ",
                AgentCall::SetDevboxRoute =>
                "Failed to send set_devbox_route RPC to kube-manager: ",
                AgentCall::RemoveDevboxRoute =>
                "Failed to send remove_devbox_route RPC to kube-manager: ",
                AgentCall::ClearDevboxRoutes =>
                "Failed to send clear_devbox_routes RPC to kube-manager: ",
                AgentCall::GetDevboxDirectConfig =>
                "Failed to send get_devbox_direct_config RPC to kube-manager: ",
            };
            Err(concat(head, e.as_str()))
        },
    }
}

// ---------------------------------------------------------------------------
// Reports of the agent
// ---------------------------------------------------------------------------

/// Why a report of a cluster is refused.
#[derive(Debug)]
pub enum ReportError {
    Database(String),
    NotFound(u128),
    Update(String),
}

impl ReportError {
    pub open spec fn text(&self) -> Seq<char> {
        match self {
            ReportError::Database(e) => "Database error: "@ + e@,
            ReportError::NotFound(id) => "Cluster "@ + id_text(*id) + " not found"@,
            ReportError::Update(e) => "Failed to update cluster info: "@ + e@,
        }
    }

    pub fn message(&self) -> (r: String)
        ensures
            r@ == self.text(),
    {
        match self {
            ReportError::Database(e) => concat("Database error: ", e.as_str()),
            ReportError::NotFound(id) => {
                let id: String = id_to_string(*id);
                concat3("Cluster ", id.as_str(), " not found")
            },
            ReportError::Update(e) => concat("Failed to update cluster info: ", e.as_str()),
        }
    }
}

/// Checks that the cluster of a report is known.
pub fn check_report(cluster_id: u128, known: Result<bool, String>) -> (r: Result<(), ReportError>)
    ensures
        match known {
            Ok(true) => r is Ok,
            Ok(false) => r == Err::<(), ReportError>(ReportError::NotFound(cluster_id)),
            Err(e) => r == Err::<(), ReportError>(ReportError::Database(e)),
        },
{
    match known {
        Ok(true) => Ok(()),
        Ok(false) => Err(ReportError::NotFound(cluster_id)),
        Err(e) => Err(ReportError::Database(e)),
    }
}

/// What is stored of a cluster once it has reported.
#[derive(Debug)]
pub struct ClusterUpdate {
    pub cluster_version: String,
    pub status: String,
    pub provider: Option<String>,
    pub region: Option<String>,
    pub manager_namespace: Option<String>,
}

/// What is stored of a report. What the cluster has to offer is not.
pub fn cluster_update(info: KubeClusterInfo) -> (r: ClusterUpdate)
    ensures
        r.cluster_version == info.cluster_version,
        r.status@ == info.status.text(),
        r.provider == info.provider,
        r.region == info.region,
        r.manager_namespace == info.manager_namespace,
{
    ClusterUpdate {
        status: info.status.name().to_owned(),
        cluster_version: info.cluster_version,
        provider: info.provider,
        region: info.region,
        manager_namespace: info.manager_namespace,
    }
}

// ---------------------------------------------------------------------------
// The agent's own settings
// ---------------------------------------------------------------------------

/// How long an agent waits before it connects again.
pub const RECONNECT_SECONDS: u64 = 5;

/// Where an agent connects to, and with which token.
#[derive(Debug)]
pub struct AgentSettings {
    pub token: String,
    pub url: String,
    pub tunnel_url: String,
}

/// Reads the settings of an agent from its variables. Only the token has no
/// usual value.
pub fn agent_settings(
    token_variable: &str,
    token: Option<String>,
    url: Option<String>,
    tunnel_url: Option<String>,
    usual_url: &str,
    usual_tunnel_url: &str,
) -> (r: Result<AgentSettings, String>)
    ensures
        match token {
            None => r matches Err(m) && m@ == "can't find env var "@ + token_variable@,
            Some(t) => r matches Ok(s) && {
                &&& s.token == t
                &&& s.url@ == (match url {
                    Some(u) => u@,
                    None => usual_url@,
                })
                &&& s.tunnel_url@ == (match tunnel_url {
                    Some(u) => u@,
                    None => usual_tunnel_url@,
                })
            },
        },
{
    match token {
        None => Err(concat("can't find env var ", token_variable)),
        Some(token) => Ok(
            AgentSettings {
                token,
                url: match url {
                    Some(u) => u,
                    None => usual_url.to_owned(),
                },
                tunnel_url: match tunnel_url {
                    Some(u) => u,
                    None => usual_tunnel_url.to_owned(),
                },
            },
        ),
    }
}

// ---------------------------------------------------------------------------
// What an agent answers
// ---------------------------------------------------------------------------

/// What an agent could not do.
#[derive(Debug, Clone, Copy, PartialEq, Eq, Structural)]
pub enum AgentFailure {
    CollectWorkloads,
    WorkloadDetails,
    CollectNamespaces,
    DeployWorkloads,
    NamespacedResources,
    RefreshRoutes,
    DestroyEnvironment,
    ConfigureWatches,
    ProxyCall,
}

/// How an agent says what it could not do.
pub open spec fn agent_failure_text(f: AgentFailure, error: Seq<char>) -> Seq<char> {
    match f {
        AgentFailure::CollectWorkloads => "Failed to collect workloads: "@ + error,
        AgentFailure::WorkloadDetails => "Failed to get workload details: "@ + error,
        AgentFailure::CollectNamespaces => "Failed to collect namespaces: "@ + error,
        AgentFailure::DeployWorkloads => "Failed to deploy workloads: "@ + error,
        AgentFailure::NamespacedResources => "Failed to fetch namespaced resources: "@ + error,
        AgentFailure::RefreshRoutes => "Failed to refresh branch service routes: "@ + error,
        AgentFailure::DestroyEnvironment => "Failed to destroy environment: "@ + error,
        AgentFailure::ConfigureWatches => "Failed to configure namespace watches: "@ + error,
        AgentFailure::ProxyCall => "RPC call to devbox-proxy failed: "@ + error,
    }
}

impl AgentFailure {
    pub fn message(&self, error: &str) -> (r: String)
        ensures
            r@ == agent_failure_text(*self, error@),
    {
        let head: &str = match self {
            AgentFailure::CollectWorkloads => "Failed to collect workloads: ",
            AgentFailure::WorkloadDetails => "Failed to get workload details: ",
            AgentFailure::CollectNamespaces => "Failed to collect namespaces: ",
            AgentFailure::DeployWorkloads => "Failed to deploy workloads: ",
            AgentFailure::NamespacedResources => "Failed to fetch namespaced resources: ",
            AgentFailure::RefreshRoutes => "Failed to refresh branch service routes: ",
            AgentFailure::DestroyEnvironment => "Failed to destroy environment: ",
            AgentFailure::ConfigureWatches => "Failed to configure namespace watches: ",
            AgentFailure::ProxyCall => "RPC call to devbox-proxy failed: ",
        };
        concat(head, error)
    }
}

/// The failure to read the manifest of a workload.
pub fn raw_yaml_failure(namespace: &str, name: &str, error: &str) -> (r: String)
    ensures
        r@ == "Failed to fetch raw YAML for "@ + namespace@ + "/"@ + name@ + ": "@ + error@,
{
    let mut out: String = concat("Failed to fetch raw YAML for ", namespace);
    out.append("/");
    out.append(name);
    out.append(": ");
    out.append(error);
    out
}

/// How the routes of a workload could not be refreshed.
#[derive(Debug, Clone, Copy, PartialEq, Eq, Structural)]
pub enum RouteRefreshFailure {
    Rejected,
    NotFetched,
    NotPushed,
}

/// What is said of routes that could not be refreshed.
pub open spec fn route_refresh_text(
    f: RouteRefreshFailure,
    environment_id: u128,
    workload_id: u128,
    error: Seq<char>,
) -> Seq<char> {
    match f {
        RouteRefreshFailure::Rejected => "API rejected route request for environment "@ + id_text(
            environment_id,
        ) + " workload "@ + id_text(workload_id) + ": "@ + error,
        RouteRefreshFailure::NotFetched => "Failed to fetch routes for environment "@ + id_text(
            environment_id,
        ) + " workload "@ + id_text(workload_id) + ": "@ + error,
        RouteRefreshFailure::NotPushed => "Failed to push service routes to workload "@ + id_text(
            workload_id,
        ) + ": "@ + error,
    }
}

impl RouteRefreshFailure {
    pub fn message(&self, environment_id: u128, workload_id: u128, error: &str) -> (r: String)
        ensures
            r@ == route_refresh_text(*self, environment_id, workload_id, error@),
    {
        let workload: String = id_to_string(workload_id);
        let environment: String = id_to_string(environment_id);
        let mut out: String = match self {
            RouteRefreshFailure::Rejected => "API rejected route request for environment ".to_owned(),
            RouteRefreshFailure::NotFetched => "Failed to fetch routes for environment ".to_owned(),
            RouteRefreshFailure::NotPushed =>
            "Failed to push service routes to workload ".to_owned(),
        };
        match self {
            RouteRefreshFailure::NotPushed => {},
            _ => {
                out.append(environment.as_str());
                out.append(" workload ");
            },
        }
        out.append(workload.as_str());
        out.append(": ");
        out.append(error);
        out
    }
}

// ---------------------------------------------------------------------------
// Devbox proxies
// ---------------------------------------------------------------------------

pub const DEFAULT_DEVBOX_PROXY_MANAGER_PORT: u16 = 7771;

pub const DEVBOX_PROXY_MANAGER_PORT_ENV_VAR: &'static str = "LAPDEV_DEVBOX_PROXY_MANAGER_PORT";

/// The port that a variable names, or the usual one.
pub fn port_from_variable(value: Option<&str>, usual: u16) -> (r: u16)
    ensures
        r == (match value {
            Some(v) => match bounded_value(v@, 65535) {
                Some(p) => p as u16,
                None => usual,
            },
            None => usual,
        }),
{
    match value {
        Some(v) => match parse_unsigned(v, 65535) {
            Some(p) => p as u16,
            None => usual,
        },
        None => usual,
    }
}

/// The devbox proxies that are connected, by environment.
pub struct DevboxProxyManager<T> {
    pub devbox_proxies: HashMap<u128, T>,
}

impl<T> DevboxProxyManager<T> {
    pub fn new() -> (r: Self)
        ensures
            r.devbox_proxies@ == Map::<u128, T>::empty(),
    {
        DevboxProxyManager { devbox_proxies: HashMap::new() }
    }

    /// Lists the proxy of an environment, in place of any other.
    pub fn register_devbox_proxy(&mut self, environment_id: u128, client: T)
        ensures
            final(self).devbox_proxies@ == old(self).devbox_proxies@.insert(environment_id, client),
    {
        self.devbox_proxies.insert(environment_id, client);
    }

    pub fn get_proxy_client(&self, environment_id: u128) -> (r: Option<&T>)
        ensures
            match r {
                Some(c) => self.devbox_proxies@.contains_key(environment_id) && *c
                    == self.devbox_proxies@[environment_id],
                None => !self.devbox_proxies@.contains_key(environment_id),
            },
    {
        self.devbox_proxies.get(&environment_id)
    }

    /// The proxy that is told of a branch environment.
    pub fn proxy_for_branch(&self, base_environment_id: u128) -> (r: Result<&T, String>)
        ensures
            match r {
                Ok(c) => self.devbox_proxies@.contains_key(base_environment_id) && *c
                    == self.devbox_proxies@[base_environment_id],
                Err(m) => !self.devbox_proxies@.contains_key(base_environment_id) && m@
                    == "No devbox-proxy registered for base environment "@ + id_text(
                    base_environment_id,
                ),
            },
    {
        match self.devbox_proxies.get(&base_environment_id) {
            Some(c) => Ok(c),
            None => {
                let id: String = id_to_string(base_environment_id);
                Err(concat("No devbox-proxy registered for base environment ", id.as_str()))
            },
        }
    }
}

// ---------------------------------------------------------------------------
// Direct tunnels
// ---------------------------------------------------------------------------

/// How long the token of a direct tunnel is good: two minutes.
pub const DIRECT_TOKEN_NANOS: i64 = 120_000_000_000;

/// Accepts a token, and makes what a devbox needs to connect with it.
pub fn direct_config_for(
    store: &mut DirectCredentialStore,
    token: String,
    now: i64,
    server_certificate: Vec<u8>,
    observed: Option<SocketAddress>,
) -> (r: DirectChannelConfig)
    requires
        now <= i64::MAX - DIRECT_TOKEN_NANOS,
    ensures
        final(store)@ == live(old(store)@.insert(token@, (now + DIRECT_TOKEN_NANOS) as i64), now),
        r.credential.token@ == token@,
        r.credential.expires_at == now + DIRECT_TOKEN_NANOS,
        r.server_certificate == Some(server_certificate),
        r.stun_observed_addr == observed,
{
    let expires_at: i64 = now + DIRECT_TOKEN_NANOS;
    store.insert(token.clone(), expires_at, now);
    DirectChannelConfig {
        credential: DirectCredential { token, expires_at },
        server_certificate: Some(server_certificate),
        stun_observed_addr: observed,
    }
}

/// Makes a new token, accepts it, and makes what a devbox needs to connect
/// with it.
pub fn get_devbox_direct_config(
    store: &mut DirectCredentialStore,
    now: i64,
    server_certificate: Vec<u8>,
    observed: Option<SocketAddress>,
) -> (r: DirectChannelConfig)
    requires
        now <= i64::MAX - DIRECT_TOKEN_NANOS,
    ensures
        exists|id: u128| r.credential.token@ == #[trigger] id_text(id) && (id >> 76) & 15 == 4,
        final(store)@ == live(
            old(store)@.insert(r.credential.token@, (now + DIRECT_TOKEN_NANOS) as i64),
            now,
        ),
        r.credential.expires_at == now + DIRECT_TOKEN_NANOS,
        r.server_certificate == Some(server_certificate),
        r.stun_observed_addr == observed,
{
    direct_config_for(store, new_token(), now, server_certificate, observed)
}

/// A token that was just issued is good.
pub proof fn law_issued_token_is_good(tokens: Map<Seq<char>, i64>, token: Seq<char>, now: i64)
    requires
        now <= i64::MAX - DIRECT_TOKEN_NANOS,
    ensures
        live(tokens.insert(token, (now + DIRECT_TOKEN_NANOS) as i64), now).contains_key(token),
{
}

// ---------------------------------------------------------------------------
// Applying resources
// ---------------------------------------------------------------------------

/// A resource that is applied, by its index in its list.
#[derive(Debug, Clone, Copy, PartialEq, Eq, Structural)]
pub enum ApplyStep {
    ConfigMap(usize),
    Secret(usize),
    Workload(usize),
    Service(usize),
}

/// The rank of a resource: what is referred to comes before what refers to
/// it.
pub open spec fn rank(s: ApplyStep) -> int {
    match s {
        ApplyStep::ConfigMap(_) => 0,
        ApplyStep::Secret(_) => 1,
        ApplyStep::Workload(_) => 2,
        ApplyStep::Service(_) => 3,
    }
}

/// The steps of all resources, in order.
pub open spec fn apply_order(configmaps: nat, secrets: nat, workloads: nat, services: nat) -> Seq<
    ApplyStep,
> {
    Seq::new(configmaps, |i: int| ApplyStep::ConfigMap(i as usize)) + Seq::new(
        secrets,
        |i: int| ApplyStep::Secret(i as usize),
    ) + Seq::new(workloads, |i: int| ApplyStep::Workload(i as usize)) + Seq::new(
        services,
        |i: int| ApplyStep::Service(i as usize),
    )
}

/// The order in which resources are applied: config maps, secrets, workloads,
/// and services last.
pub fn apply_steps(resources: &KubeWorkloadsWithResources) -> (r: Vec<ApplyStep>)
    ensures
        r@ == apply_order(
            resources.configmaps.entry_seq().len(),
            resources.secrets.entry_seq().len(),
            resources.workloads@.len(),
            resources.services.entry_seq().len(),
        ),
{
    let c: usize = resources.configmaps.len();
    let s: usize = resources.secrets.len();
    let w: usize = resources.workloads.len();
    let v: usize = resources.services.len();
    let mut out: Vec<ApplyStep> = Vec::new();
    let mut i: usize = 0;
    while i < c
        invariant
            i <= c,
            out@ =~= Seq::new(i as nat, |i: int| ApplyStep::ConfigMap(i as usize)),
        decreases c - i,
    {
        out.push(ApplyStep::ConfigMap(i));
        i = i + 1;
    }
    let ghost first = out@;
    i = 0;
    while i < s
        invariant
            i <= s,
            out@ =~= first + Seq::new(i as nat, |i: int| ApplyStep::Secret(i as usize)),
        decreases s - i,
    {
        out.push(ApplyStep::Secret(i));
        i = i + 1;
    }
    let ghost second = out@;
    i = 0;
    while i < w
        invariant
            i <= w,
            out@ =~= second + Seq::new(i as nat, |i: int| ApplyStep::Workload(i as usize)),
        decreases w - i,
    {
        out.push(ApplyStep::Workload(i));
        i = i + 1;
    }
    let ghost third = out@;
    i = 0;
    while i < v
        invariant
            i <= v,
            out@ =~= third + Seq::new(i as nat, |i: int| ApplyStep::Service(i as usize)),
        decreases v - i,
    {
        out.push(ApplyStep::Service(i));
        i = i + 1;
    }
    out
}

/// What a workload refers to is applied before it, and what refers to a
/// workload after it.
pub proof fn law_apply_order(
    configmaps: nat,
    secrets: nat,
    workloads: nat,
    services: nat,
    i: int,
    j: int,
)
    requires
        0 <= i <= j < apply_order(configmaps, secrets, workloads, services).len(),
    ensures
        rank(apply_order(configmaps, secrets, workloads, services)[i]) <= rank(
            apply_order(configmaps, secrets, workloads, services)[j],
        ),
{
}

// ---------------------------------------------------------------------------
// Laws of calls
// ---------------------------------------------------------------------------

/// A server of a cluster is listed under a generation.
pub open spec fn lists_server<T>(
    m: Map<u128, Map<u64, T>>,
    cluster_id: u128,
    generation: u64,
    server: T,
) -> bool {
    m.contains_key(cluster_id) && m[cluster_id].contains_key(generation)
        && m[cluster_id][generation] == server
}

/// The server of a new connection is listed, and no other is touched.
pub proof fn law_server_is_listed<T>(
    servers: &mut ClusterServers<T>,
    cluster_id: u128,
    server: T,
    r: u64,
    c: u128,
    g: u64,
    s: T,
)
    requires
        call_ensures(ClusterServers::<T>::register, (servers, cluster_id, server), r),
    ensures
        lists_server(final(servers).servers@, cluster_id, r, server),
        (c, g) != (cluster_id, r) ==> lists_server(final(servers).servers@, c, g, s)
            == lists_server(old(servers).servers@, c, g, s),
        r < u64::MAX ==> final(servers).next > r,
{
}

/// The server of a connection that ended is no longer listed, and no other is
/// touched.
pub proof fn law_server_is_forgotten<T>(
    servers: &mut ClusterServers<T>,
    cluster_id: u128,
    generation: Option<u64>,
    c: u128,
    g: u64,
    s: T,
)
    requires
        call_ensures(ClusterServers::<T>::unregister, (servers, cluster_id, generation), ()),
    ensures
        lists_server(final(servers).servers@, c, g, s) == (lists_server(
            old(servers).servers@,
            c,
            g,
            s,
        ) && !(c == cluster_id && generation == Some(g))),
{
    if generation is Some && c == cluster_id {
        let entries = entries_of(old(servers).servers@, cluster_id);
        let left = entries.remove(generation->0);
        if left =~= Map::<u64, T>::empty() {
            assert(left.contains_key(g) == (entries.contains_key(g) && g != generation->0));
        }
    }
}

/// A call comes back with what the agent answered, or else with an error that
/// ends in what went wrong.
pub proof fn law_calls_come_back<R>(
    call: AgentCall,
    outcome: CallOutcome<R>,
    r: Result<R, String>,
)
    requires
        call_ensures(agent_result::<R>, (call, outcome), r),
    ensures
        outcome matches CallOutcome::Answered(x) ==> r == Ok::<R, String>(x),
        outcome matches CallOutcome::Rejected(e) ==> (r matches Err(m) && e@.is_suffix_of(m@)),
        outcome matches CallOutcome::Failed(e) ==> (r matches Err(m) && e@.is_suffix_of(m@)
            && m@.len() > e@.len()),
{
    match outcome {
        CallOutcome::Answered(_) => {},
        CallOutcome::Rejected(e) => {
            reveal_strlit("KubeManager rejected namespace watch configuration: ");
            reveal_strlit("KubeManager rejected namespace watch add: ");
            reveal_strlit("KubeManager rejected namespace watch removal: ");
            let m = r->Err_0@;
            assert(m.subrange(m.len() - e@.len(), m.len() as int) =~= e@);
        },
        CallOutcome::Failed(e) => {
            reveal_strlit("Failed to send namespace watch configuration RPC: ");
            reveal_strlit("Failed to add namespace watch RPC: ");
            reveal_strlit("Failed to remove namespace watch RPC: ");
            reveal_strlit("Failed to send set_devbox_routes RPC to kube-manager: ");
            reveal_strlit("Failed to send set_devbox_route RPC to kube-manager: ");
            reveal_strlit("Failed to send remove_devbox_route RPC to kube-manager: ");
            reveal_strlit("Failed to send clear_devbox_routes RPC to kube-manager: ");
            reveal_strlit("Failed to send get_devbox_direct_config RPC to kube-manager: ");
            let m = r->Err_0@;
            assert(m.subrange(m.len() - e@.len(), m.len() as int) =~= e@);
        },
    }
}

/// A report is taken just where the cluster is known for sure.
pub proof fn law_reports_of_known_clusters(
    cluster_id: u128,
    known: Result<bool, String>,
    r: Result<(), ReportError>,
)
    requires
        call_ensures(check_report, (cluster_id, known), r),
    ensures
        r is Ok <==> known == Ok::<bool, String>(true),
        r matches Err(ReportError::NotFound(id)) ==> id == cluster_id && known == Ok::<
            bool,
            String,
        >(false),
        r matches Err(ReportError::Database(e)) ==> known == Err::<bool, String>(e),
        !(r matches Err(ReportError::Update(_))),
{
}

/// Settings that are given are taken, and only the token has to be given.
pub proof fn law_given_settings_are_taken(
    variable: &str,
    token: Option<String>,
    url: Option<String>,
    tunnel_url: Option<String>,
    usual_url: &str,
    usual_tunnel_url: &str,
    r: Result<AgentSettings, String>,
)
    requires
        call_ensures(
            agent_settings,
            (variable, token, url, tunnel_url, usual_url, usual_tunnel_url),
            r,
        ),
    ensures
        r is Ok <==> token is Some,
        r matches Ok(s) ==> {
            &&& Some(s.token) == token
            &&& s.url@ == (if url is Some {
                url->0@
            } else {
                usual_url@
            })
            &&& s.tunnel_url@ == (if tunnel_url is Some {
                tunnel_url->0@
            } else {
                usual_tunnel_url@
            })
        },
{
}

/// A variable that holds the number of a port names it; any other text, and no
/// variable, stand for the usual port.
pub proof fn law_variable_names_a_port(value: Option<&str>, usual: u16, r: u16)
    requires
        call_ensures(port_from_variable, (value, usual), r),
    ensures
        value is None ==> r == usual,
        value matches Some(v) ==> (bounded_value(v@, 65535) matches Some(p) ==> r == p),
        value matches Some(v) ==> (bounded_value(v@, 65535) is None ==> r == usual),
{
}

/// The proxy that was listed last for an environment is the one that is found
/// for it and for its branches; for any other environment nothing changes.
pub proof fn law_listed_proxy_is_found<T>(
    manager: &mut DevboxProxyManager<T>,
    environment_id: u128,
    client: T,
    after: DevboxProxyManager<T>,
    id: u128,
    found: Option<&T>,
    told: Result<&T, String>,
)
    requires
        call_ensures(
            DevboxProxyManager::<T>::register_devbox_proxy,
            (manager, environment_id, client),
            (),
        ),
        after == *final(manager),
        call_ensures(DevboxProxyManager::<T>::get_proxy_client, (&after, id), found),
        call_ensures(DevboxProxyManager::<T>::proxy_for_branch, (&after, id), told),
    ensures
        id == environment_id ==> found == Some(&client) && told == Ok::<&T, String>(&client),
        id != environment_id ==> (found is Some) == old(manager).devbox_proxies@.contains_key(id),
        found is Some <==> told is Ok,
        found matches Some(c) ==> told == Ok::<&T, String>(c),
{
}

/// The token of a direct tunnel is accepted from the moment it is handed out
/// until it expires, two minutes later, and no other token comes to be
/// accepted.
pub proof fn law_direct_token_is_accepted(
    store: &mut DirectCredentialStore,
    token: String,
    now: i64,
    certificate: Vec<u8>,
    observed: Option<SocketAddress>,
    r: DirectChannelConfig,
    other: Seq<char>,
)
    requires
        now <= i64::MAX - DIRECT_TOKEN_NANOS,
        call_ensures(direct_config_for, (store, token, now, certificate, observed), r),
    ensures
        r.credential.token@ == token@,
        r.credential.expires_at - now == 120_000_000_000,
        final(store)@.contains_key(token@),
        final(store)@[token@] == r.credential.expires_at,
        other != token@ && final(store)@.contains_key(other) ==> old(store)@.contains_key(other)
            && final(store)@[other] == old(store)@[other],
        r.server_certificate matches Some(c) && c@ == certificate@,
        r.stun_observed_addr == observed,
{
}

/// Every resource is applied once: a step for each of them, with its own index,
/// and no more steps than resources.
pub proof fn law_every_resource_is_applied(
    resources: KubeWorkloadsWithResources,
    r: Vec<ApplyStep>,
    i: usize,
)
    requires
        call_ensures(apply_steps, (&resources,), r),
    ensures
        r@.len() == resources.configmaps.entry_seq().len() + resources.secrets.entry_seq().len()
            + resources.workloads@.len() + resources.services.entry_seq().len(),
        i < resources.configmaps.entry_seq().len() ==> r@.contains(ApplyStep::ConfigMap(i)),
        i < resources.secrets.entry_seq().len() ==> r@.contains(ApplyStep::Secret(i)),
        i < resources.workloads@.len() ==> r@.contains(ApplyStep::Workload(i)),
        i < resources.services.entry_seq().len() ==> r@.contains(ApplyStep::Service(i)),
        forall|a: int, b: int|
            0 <= a < b < r@.len() ==> !((#[trigger] r@[a]) is Workload && ((#[trigger] r@[b])
                is ConfigMap || r@[b] is Secret)) && !(r@[a] is Service && !(r@[b] is Service)),
{
    let c = resources.configmaps.entry_seq().len();
    let s = resources.secrets.entry_seq().len();
    let w = resources.workloads@.len();
    if i < c {
        assert(r@[i as int] == ApplyStep::ConfigMap(i));
    }
    if i < s {
        assert(r@[(c + i) as int] == ApplyStep::Secret(i));
    }
    if i < w {
        assert(r@[(c + s + i) as int] == ApplyStep::Workload(i));
    }
    if i < resources.services.entry_seq().len() {
        assert(r@[(c + s + w + i) as int] == ApplyStep::Service(i));
    }
}

/// A watch is for the namespace without the white space around it, and there is
/// none for white space alone.
pub proof fn law_watched_namespace_is_trimmed(namespace: &str, r: Option<String>, plain: String)
    requires
        call_ensures(watch_namespace, (namespace,), r),
        call_ensures(trim_string, (namespace,), plain),
    ensures
        r is Some <==> plain@.len() > 0,
        r matches Some(n) ==> n@ == plain@,
{
}

/// What a cluster reports of itself is what is stored.
pub proof fn law_report_is_stored(info: KubeClusterInfo, r: ClusterUpdate)
    requires
        call_ensures(cluster_update, (info,), r),
    ensures
        r.cluster_version == info.cluster_version,
        r.status@ == info.status.text(),
        r.provider == info.provider,
        r.region == info.region,
        r.manager_namespace == info.manager_namespace,
{
}

} // verus!
