//! The data that the cluster server, the cluster manager and the sidecar
//! proxies exchange. Identifiers are 128-bit numbers; points in time are
//! counted from the Unix epoch.
use crate::kube_types::KubeWorkloadKind;
use crate::net::SocketAddress;
use crate::text_map::TextMap;
use std::collections::HashMap;
use vstd::prelude::*;

verus! {

#[derive(Debug, Clone)]
pub struct TunnelEstablishmentResponse {
    pub success: bool,
    pub tunnel_id: String,
    pub websocket_endpoint: String,
    pub error_message: Option<String>,
}

#[derive(Debug, Clone)]
pub struct TunnelStatus {
    pub tunnel_id: Option<String>,
    pub is_connected: bool,
    pub connected_at: Option<i64>,
    pub last_heartbeat: Option<i64>,
    pub active_connections: u32,
    pub total_connections: u64,
    pub bytes_transferred: u64,
}

#[derive(Debug, Clone)]
pub struct TunnelInfo {
    pub tunnel_id: String,
    pub websocket_endpoint: String,
    pub supported_protocols: Vec<String>,
    pub max_concurrent_connections: u32,
}

/// The kinds of cluster resources that are watched.
#[derive(Debug, Clone, Copy, PartialEq, Eq, Hash, Structural)]
pub enum ResourceType {
    Deployment,
    StatefulSet,
    DaemonSet,
    ReplicaSet,
    Job,
    CronJob,
    ConfigMap,
    Secret,
    Service,
}

#[derive(Debug, Clone, Copy, PartialEq, Eq, Structural)]
pub enum ResourceChangeType {
    Created,
    Updated,
    Deleted,
}

/// A change of a cluster resource.
#[derive(Debug, Clone)]
pub struct ResourceChangeEvent {
    pub namespace: String,
    pub resource_type: ResourceType,
    pub resource_name: String,
    pub change_type: ResourceChangeType,
    pub resource_version: String,
    pub resource_yaml: Option<String>,
    pub timestamp: i64,
}

#[derive(Debug, Clone)]
pub enum TunnelErrorCode {
    ConnectionRefused,
    Timeout,
    NetworkUnreachable,
    PermissionDenied,
    InternalError,
}

#[derive(Debug, Clone)]
pub enum CloseReason {
    ClientRequest,
    ServerRequest,
    Timeout,
    Error,
    Shutdown,
}

/// Messages from the cluster manager to the server.
#[derive(Debug, Clone)]
pub enum ClientTunnelMessage {
    ConnectionOpened { tunnel_id: String, local_addr: String },
    ConnectionFailed { tunnel_id: String, error: String, error_code: TunnelErrorCode },
    ConnectionClosed { tunnel_id: String, bytes_transferred: u64 },
    CloseConnection { tunnel_id: String, reason: CloseReason },
    Data { tunnel_id: String, payload: Vec<u8>, sequence_num: Option<u32> },
    Pong { timestamp: u64 },
    TunnelStats {
        active_connections: u32,
        total_connections: u64,
        bytes_sent: u64,
        bytes_received: u64,
        connection_errors: u64,
    },
    Authenticate { cluster_id: u128, auth_token: String, tunnel_capabilities: Vec<String> },
}

/// Messages from the server to the cluster manager.
#[derive(Debug, Clone)]
pub enum ServerTunnelMessage {
    OpenConnection {
        tunnel_id: String,
        target_host: String,
        target_port: u16,
        protocol_hint: Option<String>,
    },
    CloseConnection { tunnel_id: String, reason: CloseReason },
    Data { tunnel_id: String, payload: Vec<u8>, sequence_num: Option<u32> },
    Ping { timestamp: u64 },
    AuthenticationResult {
        success: bool,
        session_id: Option<String>,
        error_message: Option<String>,
    },
}

/// Messages of both directions.
#[derive(Debug, Clone)]
pub enum TunnelMessage {
    OpenConnection {
        tunnel_id: String,
        target_host: String,
        target_port: u16,
        protocol_hint: Option<String>,
    },
    ConnectionOpened { tunnel_id: String, local_addr: String },
    ConnectionFailed { tunnel_id: String, error: String, error_code: TunnelErrorCode },
    CloseConnection { tunnel_id: String, reason: CloseReason },
    ConnectionClosed { tunnel_id: String, bytes_transferred: u64 },
    Data { tunnel_id: String, payload: Vec<u8>, sequence_num: Option<u32> },
    Ping { timestamp: u64 },
    Pong { timestamp: u64 },
    TunnelStats {
        active_connections: u32,
        total_connections: u64,
        bytes_sent: u64,
        bytes_received: u64,
        connection_errors: u64,
    },
    Authenticate { cluster_id: u128, auth_token: String, tunnel_capabilities: Vec<String> },
    AuthenticationResult {
        success: bool,
        session_id: Option<String>,
        error_message: Option<String>,
    },
}

#[derive(Debug, Clone)]
pub struct ClientTunnelFrame {
    pub message: ClientTunnelMessage,
    pub timestamp: i64,
    pub message_id: u128,
}

#[derive(Debug, Clone)]
pub struct ServerTunnelFrame {
    pub message: ServerTunnelMessage,
    pub timestamp: i64,
    pub message_id: u128,
}

#[derive(Debug, Clone)]
pub struct TunnelFrame {
    pub message: TunnelMessage,
    pub timestamp: i64,
    pub message_id: u128,
}

/// A workload with the names of the resources that belong to it.
#[derive(Debug, Clone)]
pub struct KubeWorkloadWithServices {
    pub workload_yaml: String,
    pub services: Vec<String>,
    pub configmaps: Vec<String>,
    pub secrets: Vec<String>,
}

#[derive(Debug, Clone)]
pub struct WorkloadIdentifier {
    pub name: String,
    pub namespace: String,
    pub kind: KubeWorkloadKind,
}

#[derive(Debug, Clone)]
pub enum KubeWorkloadYaml {
    Deployment(KubeWorkloadWithServices),
    StatefulSet(KubeWorkloadWithServices),
    DaemonSet(KubeWorkloadWithServices),
    ReplicaSet(KubeWorkloadWithServices),
    Pod(KubeWorkloadWithServices),
    Job(KubeWorkloadWithServices),
    CronJob(KubeWorkloadWithServices),
}

#[derive(Debug, Clone)]
pub enum KubeWorkloadYamlOnly {
    Deployment(String),
    StatefulSet(String),
    DaemonSet(String),
    ReplicaSet(String),
    Pod(String),
    Job(String),
    CronJob(String),
}

/// A service and its manifest.
#[derive(Debug, Clone)]
pub struct KubeServiceWithYaml {
    pub yaml: String,
}

/// A workload and the resources that it refers to.
#[derive(Debug)]
pub struct KubeWorkloadWithResources {
    pub workload: KubeWorkloadYamlOnly,
    pub services: TextMap<KubeServiceWithYaml>,
    pub configmaps: TextMap<String>,
    pub secrets: TextMap<String>,
}

/// Workloads and the resources that they share.
#[derive(Debug)]
pub struct KubeWorkloadsWithResources {
    pub workloads: Vec<KubeWorkloadYamlOnly>,
    pub services: TextMap<KubeServiceWithYaml>,
    pub configmaps: TextMap<String>,
    pub secrets: TextMap<String>,
}

/// A branch environment that shares a devbox proxy.
#[derive(Debug, Clone)]
pub struct BranchEnvironmentInfo {
    pub environment_id: u128,
    pub auth_token: String,
    pub namespace: String,
}

#[derive(Debug, Clone)]
pub struct NamespacedResourceRequest {
    pub namespace: String,
    pub configmaps: Vec<String>,
    pub secrets: Vec<String>,
}

/// Resources of a namespace: for each name the YAML text.
#[derive(Debug, Clone)]
pub struct NamespacedResourceResponse {
    pub namespace: String,
    pub configmaps: TextMap<String>,
    pub secrets: TextMap<String>,
}

#[derive(Debug, Clone)]
pub struct KubeRawWorkloadYaml {
    pub name: String,
    pub namespace: String,
    pub kind: KubeWorkloadKind,
    pub workload_yaml: String,
}

#[derive(Debug, Clone)]
pub struct DevboxTunnelInfo {
    pub tunnel_id: String,
    pub websocket_url: String,
    pub auth_token: String,
    pub session_id: u128,
}

/// Who may use a route.
#[derive(Debug, Clone, Copy, PartialEq, Eq, Structural)]
pub enum ProxyRouteAccessLevel {
    Personal,
    Shared,
    Public,
}

impl Default for ProxyRouteAccessLevel {
    fn default() -> (r: Self)
        ensures
            r == ProxyRouteAccessLevel::Personal,
    {
        ProxyRouteAccessLevel::Personal
    }
}

/// How to reach the devbox that intercepts a workload.
#[derive(Debug)]
pub struct DevboxRouteConfig {
    pub intercept_id: u128,
    pub workload_id: u128,
    pub auth_token: String,
    pub websocket_url: String,
    pub path_pattern: String,
    pub branch_environment_id: Option<u128>,
    pub created_at_epoch_seconds: Option<i64>,
    pub expires_at_epoch_seconds: Option<i64>,
    pub port_mappings: HashMap<u16, u16>,
    pub direct: Option<DirectChannelConfig>,
}

/// How to reach a devbox without a relay.
#[derive(Debug)]
pub struct DirectChannelConfig {
    pub credential: DirectCredential,
    pub server_certificate: Option<Vec<u8>>,
    pub stun_observed_addr: Option<SocketAddress>,
}

/// A token and the time until which it is good.
#[derive(Debug)]
pub struct DirectCredential {
    pub token: String,
    pub expires_at: i64,
}

/// What a `DirectChannelConfig` holds.
pub struct DirectView {
    pub token: Seq<char>,
    pub expires_at: i64,
    pub server_certificate: Option<Seq<u8>>,
    pub stun_observed_addr: Option<SocketAddress>,
}

impl View for DirectChannelConfig {
    type V = DirectView;

    open spec fn view(&self) -> DirectView {
        DirectView {
            token: self.credential.token@,
            expires_at: self.credential.expires_at,
            server_certificate: match self.server_certificate {
                Some(c) => Some(c@),
                None => None,
            },
            stun_observed_addr: self.stun_observed_addr,
        }
    }
}

impl Clone for DirectChannelConfig {
    fn clone(&self) -> (r: Self)
        ensures
            r@ == self@,
    {
        let server_certificate: Option<Vec<u8>> = match &self.server_certificate {
            Some(c) => {
                let copy: Vec<u8> = c.clone();
                proof {
                    assert(copy@ =~= c@);
                }
                Some(copy)
            },
            None => None,
        };
        DirectChannelConfig {
            credential: DirectCredential {
                token: self.credential.token.clone(),
                expires_at: self.credential.expires_at,
            },
            server_certificate,
            stun_observed_addr: self.stun_observed_addr,
        }
    }
}

/// What a `DevboxRouteConfig` holds.
pub struct DevboxRouteView {
    pub intercept_id: u128,
    pub workload_id: u128,
    pub auth_token: Seq<char>,
    pub websocket_url: Seq<char>,
    pub path_pattern: Seq<char>,
    pub branch_environment_id: Option<u128>,
    pub created_at_epoch_seconds: Option<i64>,
    pub expires_at_epoch_seconds: Option<i64>,
    pub port_mappings: Map<u16, u16>,
    pub direct: Option<DirectView>,
}

/// What an optional `DirectChannelConfig` holds.
pub open spec fn direct_view(direct: Option<DirectChannelConfig>) -> Option<DirectView> {
    match direct {
        Some(d) => Some(d@),
        None => None,
    }
}

impl View for DevboxRouteConfig {
    type V = DevboxRouteView;

    open spec fn view(&self) -> DevboxRouteView {
        DevboxRouteView {
            intercept_id: self.intercept_id,
            workload_id: self.workload_id,
            auth_token: self.auth_token@,
            websocket_url: self.websocket_url@,
            path_pattern: self.path_pattern@,
            branch_environment_id: self.branch_environment_id,
            created_at_epoch_seconds: self.created_at_epoch_seconds,
            expires_at_epoch_seconds: self.expires_at_epoch_seconds,
            port_mappings: self.port_mappings@,
            direct: direct_view(self.direct),
        }
    }
}

impl Clone for DevboxRouteConfig {
    fn clone(&self) -> (r: Self)
        ensures
            r@ == self@,
    {
        let direct: Option<DirectChannelConfig> = match &self.direct {
            Some(d) => Some(d.clone()),
            None => None,
        };
        DevboxRouteConfig {
            intercept_id: self.intercept_id,
            workload_id: self.workload_id,
            auth_token: self.auth_token.clone(),
            websocket_url: self.websocket_url.clone(),
            path_pattern: self.path_pattern.clone(),
            branch_environment_id: self.branch_environment_id,
            created_at_epoch_seconds: self.created_at_epoch_seconds,
            expires_at_epoch_seconds: self.expires_at_epoch_seconds,
            port_mappings: self.port_mappings.clone(),
            direct,
        }
    }
}

/// The routes of a branch environment through a sidecar proxy.
#[derive(Debug)]
pub struct ProxyBranchRouteConfig {
    pub branch_environment_id: u128,
    pub service_names: HashMap<u16, String>,
    pub headers: TextMap<String>,
    pub requires_auth: bool,
    pub access_level: ProxyRouteAccessLevel,
    pub timeout_ms: Option<u64>,
    pub devbox_route: Option<DevboxRouteConfig>,
}

} // verus!
