# lapdev_kube

The logic of Lapdev's Kubernetes side: the manager that runs in a cluster, the
sidecar proxy of a workload, the API server's view of a cluster, preview URLs,
and the tunnels that join them.

* `src/` is a library that Verus verifies. Every function says in its contract
  what it returns, and the promises that span functions are the proof functions
  whose names begin with `law_`.
* `tests/` runs the library on concrete values.
* `app/` is ordinary Rust around the library: `main`, sockets, the Kubernetes
  API, remote calls. It asks the library what to do next and does it.

The library calls a few outside crates (`serde_json`, `serde_yaml`,
`k8s-openapi`, `httparse`, `http`, `uuid`, `chrono`, `pasetors`, `rand`) through
small functions marked `#[verifier::external_body]`. What those functions promise
is taken on trust; each says so above itself.

| Area | Modules |
| --- | --- |
| Text, maps, JSON | `text`, `text_map`, `maps`, `json`, `ids`, `net`, `wire` |
| Workloads and the catalog | `kube_types`, `kube_rpc`, `workload`, `catalog`, `catalog_sync`, `collect` |
| The API server's side of a cluster | `cluster_events`, `change_failures`, `route_listing`, `cluster_server`, `generations`, `tunnel_registry` |
| The manager of a cluster | `cluster_resources`, `manifests`, `watch_manager`, `sidecar_manager`, `direct_gateway` |
| The sidecar proxy | `config`, `route_updates`, `connection_plan`, `connection_registry`, `protocol_detector`, `http_parser`, `http_buffer_parser`, `http2_client`, `otel_routing`, `tracestate`, `headers`, `path_routing` |
| Preview URLs | `preview_url`, `preview_proxy` |
| Tunnels | `tunnel_message`, `tunnel_error`, `direct_handshake`, `direct_tunnel`, `relay`, `stun`, `probe`, `twoway`, `host_keys` |
