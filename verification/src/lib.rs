//! Verified core of the Lapdev Kubernetes components.

pub mod catalog;
pub mod catalog_sync;
pub mod change_failures;
pub mod cluster_events;
pub mod cluster_resources;
pub mod cluster_server;
pub mod collect;
pub mod config;
pub mod connection_plan;
pub mod connection_registry;
pub mod direct_gateway;
pub mod direct_handshake;
pub mod direct_tunnel;
pub mod generations;
pub mod headers;
pub mod host_keys;
pub mod http2_client;
pub mod http_buffer_parser;
pub mod http_parser;
pub mod ids;
pub mod json;
pub mod kube_rpc;
pub mod kube_types;
pub mod manifests;
pub mod maps;
pub mod net;
pub mod otel_routing;
pub mod path_routing;
pub mod preview_proxy;
pub mod preview_url;
pub mod probe;
pub mod protocol_detector;
pub mod relay;
pub mod route_listing;
pub mod route_updates;
pub mod sidecar_manager;
pub mod stun;
pub mod text;
pub mod text_map;
pub mod tracestate;
pub mod tunnel_error;
pub mod tunnel_message;
pub mod tunnel_registry;
pub mod twoway;
pub mod watch_manager;
pub mod wire;
pub mod workload;
