//! The sidecar proxy's settings and its routing table.
use crate::kube_rpc::{DirectChannelConfig, ProxyRouteAccessLevel};
use crate::maps::keys_of;
use crate::net::SocketAddress;
use crate::text_map::TextMap;
use std::collections::HashMap;
use std::sync::Arc;
use vstd::prelude::*;
use vstd::std_specs::hash::{into_iter_keys, spec_keys_iter};
use vstd::std_specs::iter::IteratorSpec;

verus! {

broadcast use vstd::std_specs::hash::group_hash_axioms;

/// Settings that are fixed when the sidecar proxy starts.
#[derive(Debug, Clone)]
pub struct SidecarSettings {
    /// Address for traffic that is redirected to the proxy.
    pub listen_addr: SocketAddress,
    pub namespace: Option<String>,
    pub pod_name: Option<String>,
    pub environment_id: u128,
    pub environment_auth_token: String,
    pub health_check: HealthCheckConfig,
    pub metrics: MetricsConfig,
}

impl SidecarSettings {
    pub fn new(
        listen_addr: SocketAddress,
        namespace: Option<String>,
        pod_name: Option<String>,
        environment_id: u128,
        environment_auth_token: String,
    ) -> (r: Self)
        ensures
            r.listen_addr == listen_addr,
            r.namespace == namespace,
            r.pod_name == pod_name,
            r.environment_id == environment_id,
            r.environment_auth_token == environment_auth_token,
            r.health_check.is_default(),
            r.metrics.is_default(),
    {
        SidecarSettings {
            listen_addr,
            namespace,
            pod_name,
            environment_id,
            environment_auth_token,
            health_check: HealthCheckConfig::default(),
            metrics: MetricsConfig::default(),
        }
    }
}

#[derive(Debug, Clone)]
pub struct HealthCheckConfig {
    pub path: String,
    pub interval_seconds: u64,
    pub timeout_ms: u64,
    pub failure_threshold: u32,
}

impl HealthCheckConfig {
    /// The settings where nothing else is said.
    pub open spec fn is_default(&self) -> bool {
        &&& self.path@ == "/health"@
        &&& self.interval_seconds == 30
        &&& self.timeout_ms == 5000
        &&& self.failure_threshold == 3
    }
}

impl Default for HealthCheckConfig {
    fn default() -> (r: Self)
        ensures
            r.is_default(),
    {
        HealthCheckConfig {
            path: "/health".to_owned(),
            interval_seconds: 30,
            timeout_ms: 5000,
            failure_threshold: 3,
        }
    }
}

#[derive(Debug, Clone)]
pub struct MetricsConfig {
    pub enabled: bool,
    pub path: String,
    pub port: Option<u16>,
}

impl MetricsConfig {
    /// The settings where nothing else is said.
    pub open spec fn is_default(&self) -> bool {
        &&& self.enabled
        &&& self.path@ == "/metrics"@
        &&& self.port is None
    }
}

impl Default for MetricsConfig {
    fn default() -> (r: Self)
        ensures
            r.is_default(),
    {
        MetricsConfig { enabled: true, path: "/metrics".to_owned(), port: None }
    }
}

/// Who may use a service.
#[derive(Debug, Clone, Copy, PartialEq, Eq, Structural)]
pub enum AccessLevel {
    /// The owner, with authentication.
    Personal,
    /// Members of the organization, with authentication.
    Shared,
    /// Anyone, without authentication.
    Public,
}

/// The access level of a route, as the proxy keeps it.
pub open spec fn access_level_of(level: ProxyRouteAccessLevel) -> AccessLevel {
    match level {
        ProxyRouteAccessLevel::Personal => AccessLevel::Personal,
        ProxyRouteAccessLevel::Shared => AccessLevel::Shared,
        ProxyRouteAccessLevel::Public => AccessLevel::Public,
    }
}

pub fn access_level_from_proxy(level: ProxyRouteAccessLevel) -> (r: AccessLevel)
    ensures
        r == access_level_of(level),
{
    match level {
        ProxyRouteAccessLevel::Personal => AccessLevel::Personal,
        ProxyRouteAccessLevel::Shared => AccessLevel::Shared,
        ProxyRouteAccessLevel::Public => AccessLevel::Public,
    }
}

/// The annotations that configure the proxy.
pub struct ProxyAnnotations;

impl ProxyAnnotations {
    pub const TARGET_SERVICE: &'static str = "lapdev.io/proxy-target-service";

    pub const TARGET_PORT: &'static str = "lapdev.io/proxy-target-port";

    pub const ROUTING_RULES: &'static str = "lapdev.io/proxy-routing-rules";

    pub const ACCESS_LEVEL: &'static str = "lapdev.io/proxy-access-level";

    pub const REQUIRE_AUTH: &'static str = "lapdev.io/proxy-require-auth";

    pub const CUSTOM_HEADERS: &'static str = "lapdev.io/proxy-custom-headers";

    pub const TIMEOUT_MS: &'static str = "lapdev.io/proxy-timeout-ms";
}

// ---------------------------------------------------------------------------
// Routes
// ---------------------------------------------------------------------------

/// How to reach a devbox.
#[derive(Debug)]
pub struct DevboxRouteMetadata {
    pub intercept_id: u128,
    pub workload_id: u128,
    pub auth_token: String,
    pub websocket_url: String,
    pub path_pattern: String,
    pub port_mappings: HashMap<u16, u16>,
    pub created_at_epoch_seconds: Option<i64>,
    pub expires_at_epoch_seconds: Option<i64>,
    pub direct: Option<DirectChannelConfig>,
}

/// The port of a devbox that stands for a port of a workload.
pub open spec fn mapped_port(mappings: Map<u16, u16>, port: u16) -> u16 {
    if mappings.contains_key(port) {
        mappings[port]
    } else {
        port
    }
}

impl DevboxRouteMetadata {
    pub fn resolve_target_port(&self, original_port: u16) -> (r: u16)
        ensures
            r == mapped_port(self.port_mappings@, original_port),
    {
        match self.port_mappings.get(&original_port) {
            Some(p) => *p,
            None => original_port,
        }
    }
}

/// A connection to a devbox.
#[derive(Debug)]
pub struct DevboxConnection {
    pub metadata: DevboxRouteMetadata,
}

impl DevboxConnection {
    /// What is known of the devbox.
    pub open spec fn spec_metadata(&self) -> DevboxRouteMetadata {
        self.metadata
    }

    pub fn new(metadata: DevboxRouteMetadata) -> (r: Self)
        ensures
            r == (DevboxConnection { metadata }),
    {
        DevboxConnection { metadata }
    }

    pub fn metadata(&self) -> (r: &DevboxRouteMetadata)
        ensures
            *r == self.spec_metadata(),
    {
        &self.metadata
    }

    pub fn resolve_target_port(&self, original_port: u16) -> (r: u16)
        ensures
            r == mapped_port(self.spec_metadata().port_mappings@, original_port),
    {
        self.metadata.resolve_target_port(original_port)
    }
}

/// Where the requests of a branch go.
#[derive(Debug, Clone)]
pub enum BranchMode {
    Service,
    Devbox(Arc<DevboxConnection>),
}

/// Where requests of no branch go.
#[derive(Debug)]
pub enum DefaultRoute {
    Local,
    Devbox(Arc<DevboxConnection>),
}

impl Default for DefaultRoute {
    fn default() -> (r: Self)
        ensures
            r == DefaultRoute::Local,
    {
        DefaultRoute::Local
    }
}

/// The services of a branch.
#[derive(Debug)]
pub struct BranchServiceRoute {
    pub service_names: HashMap<u16, String>,
    pub headers: TextMap<String>,
    pub requires_auth: bool,
    pub access_level: AccessLevel,
    pub timeout_ms: Option<u64>,
}

/// What a `BranchServiceRoute` holds.
pub struct BranchServiceView {
    pub service_names: Map<u16, String>,
    pub headers: Map<Seq<char>, String>,
    pub requires_auth: bool,
    pub access_level: AccessLevel,
    pub timeout_ms: Option<u64>,
}

impl View for BranchServiceRoute {
    type V = BranchServiceView;

    open spec fn view(&self) -> BranchServiceView {
        BranchServiceView {
            service_names: self.service_names@,
            headers: self.headers@,
            requires_auth: self.requires_auth,
            access_level: self.access_level,
            timeout_ms: self.timeout_ms,
        }
    }
}

impl Clone for BranchServiceRoute {
    fn clone(&self) -> (r: Self)
        ensures
            r@ == self@,
    {
        BranchServiceRoute {
            service_names: self.service_names.clone(),
            headers: self.headers.clone(),
            requires_auth: self.requires_auth,
            access_level: self.access_level,
            timeout_ms: self.timeout_ms,
        }
    }
}

impl BranchServiceRoute {
    /// A route to one service, for its owner.
    pub fn new_service(port: u16, service_name: String) -> (r: Self)
        ensures
            r@ == (BranchServiceView {
                service_names: Map::<u16, String>::empty().insert(port, service_name),
                headers: Map::empty(),
                requires_auth: true,
                access_level: AccessLevel::Personal,
                timeout_ms: None,
            }),
    {
        let mut service_names: HashMap<u16, String> = HashMap::new();
        service_names.insert(port, service_name);
        BranchServiceRoute {
            service_names,
            headers: TextMap::new(),
            requires_auth: true,
            access_level: AccessLevel::Personal,
            timeout_ms: None,
        }
    }

    pub fn service_name_for_port(&self, port: u16) -> (r: Option<&str>)
        ensures
            match r {
                Some(t) => self.service_names@.contains_key(port) && t@
                    == self.service_names@[port]@,
                None => !self.service_names@.contains_key(port),
            },
    {
        match self.service_names.get(&port) {
            Some(name) => Some(name.as_str()),
            None => None,
        }
    }
}

/// The route of a branch.
#[derive(Debug)]
pub struct BranchRoute {
    pub service: BranchServiceRoute,
    pub mode: BranchMode,
}

/// A port of the proxy, the port of the service that it stands for, and the
/// port of the workload behind that service.
#[derive(Debug, Clone, Copy, PartialEq, Eq, Structural)]
pub struct ProxyPortRoute {
    pub proxy_port: u16,
    pub service_port: u16,
    pub target_port: u16,
}

/// Where a request goes.
#[derive(Debug)]
pub enum RouteDecision {
    BranchService { service: BranchServiceRoute },
    BranchDevbox { connection: Arc<DevboxConnection>, target_port: u16 },
    DefaultDevbox { connection: Arc<DevboxConnection>, target_port: u16 },
    DefaultLocal { target_port: u16 },
}

/// The routing state of the proxy.
#[derive(Debug)]
pub struct RoutingTable {
    pub branch_routes: HashMap<u128, BranchRoute>,
    pub default_route: DefaultRoute,
    pub port_routes: HashMap<u16, ProxyPortRoute>,
}

impl Default for RoutingTable {
    fn default() -> (r: Self)
        ensures
            r.branch_routes@ == Map::<u128, BranchRoute>::empty(),
            r.default_route == DefaultRoute::Local,
            r.port_routes@ == Map::<u16, ProxyPortRoute>::empty(),
    {
        RoutingTable {
            branch_routes: HashMap::new(),
            default_route: DefaultRoute::default(),
            port_routes: HashMap::new(),
        }
    }
}

/// The branch route of a request.
pub open spec fn branch_route_of(
    routes: Map<u128, BranchRoute>,
    branch_id: Option<u128>,
) -> Option<BranchRoute> {
    match branch_id {
        Some(id) => if routes.contains_key(id) {
            Some(routes[id])
        } else {
            None
        },
        None => None,
    }
}

/// `list` holds the route of each of the proxy ports, which are all that have
/// one, each once.
pub open spec fn lists_routes(
    routes: Map<u16, ProxyPortRoute>,
    ports: Seq<u16>,
    list: Seq<ProxyPortRoute>,
) -> bool {
    &&& ports.no_duplicates()
    &&& forall|p: u16| #[trigger] ports.contains(p) <==> routes.contains_key(p)
    &&& list.len() == ports.len()
    &&& forall|i: int| 0 <= i < list.len() ==> #[trigger] list[i] == routes[ports[i]]
}

/// `target` is a port behind `service_port`: that of some route to the
/// service, or the service port itself where no route leads to it.
pub open spec fn is_service_target(
    routes: Map<u16, ProxyPortRoute>,
    service_port: u16,
    target: u16,
) -> bool {
    if exists|p: u16| #[trigger]
        routes.contains_key(p) && routes[p].service_port == service_port {
        exists|p: u16| #[trigger]
            routes.contains_key(p) && routes[p].service_port == service_port
                && routes[p].target_port == target
    } else {
        target == service_port
    }
}

/// The order in which the port routes are walked, by proxy port. It lasts as
/// long as the routes stay as they are.
pub open spec fn port_order(routes: HashMap<u16, ProxyPortRoute>) -> Seq<u16> {
    into_iter_keys(spec_keys_iter(&routes))
}

/// The target of the first route in an order that leads to a service port, or
/// the service port itself where none does.
pub open spec fn first_target(
    routes: Map<u16, ProxyPortRoute>,
    order: Seq<u16>,
    service_port: u16,
) -> u16
    decreases order.len(),
{
    if order.len() == 0 {
        service_port
    } else if routes[order[0]].service_port == service_port {
        routes[order[0]].target_port
    } else {
        first_target(routes, order.drop_first(), service_port)
    }
}

/// The port of the workload behind a service port.
pub open spec fn service_target(table: RoutingTable, service_port: u16) -> u16 {
    first_target(table.port_routes@, port_order(table.port_routes), service_port)
}

/// Where a request of no branch goes.
pub open spec fn default_decision_of(table: RoutingTable, port: u16) -> RouteDecision {
    match table.default_route {
        DefaultRoute::Devbox(connection) => RouteDecision::DefaultDevbox {
            connection,
            target_port: mapped_port(connection.spec_metadata().port_mappings@, port),
        },
        DefaultRoute::Local => RouteDecision::DefaultLocal {
            target_port: service_target(table, port),
        },
    }
}

/// `r` is where a request of no branch goes. A port of this host is one behind
/// the service port.
pub open spec fn is_default_decision(table: RoutingTable, port: u16, r: RouteDecision) -> bool {
    &&& r == default_decision_of(table, port)
    &&& r matches RouteDecision::DefaultLocal { target_port } ==> is_service_target(
        table.port_routes@,
        port,
        target_port,
    )
}

/// `r` is where a request goes.
pub open spec fn is_decision(
    table: RoutingTable,
    port: u16,
    branch_id: Option<u128>,
    r: RouteDecision,
) -> bool {
    match branch_route_of(table.branch_routes@, branch_id) {
        Some(route) => match route.mode {
            BranchMode::Devbox(connection) => r matches RouteDecision::BranchDevbox {
                connection: c,
                target_port,
            } && c == connection && target_port == mapped_port(
                connection.spec_metadata().port_mappings@,
                port,
            ),
            BranchMode::Service => r matches RouteDecision::BranchService { service } && service@
                == route.service@,
        },
        None => is_default_decision(table, port, r),
    }
}

/// The routes of branches after a replacement, and the old routes that no
/// entry of the replacement has taken yet.
pub open spec fn replaced_routes(
    before: Map<u128, BranchRoute>,
    routes: Seq<(u128, BranchServiceRoute)>,
) -> (Map<u128, BranchRoute>, Map<u128, BranchRoute>)
    decreases routes.len(),
{
    if routes.len() == 0 {
        (Map::empty(), before)
    } else {
        let (made, left) = replaced_routes(before, routes.drop_last());
        let (id, service) = routes.last();
        (made.insert(id, BranchRoute { service, mode: kept_mode(left, id) }), left.remove(id))
    }
}

/// The mode that a branch keeps when its services change.
pub open spec fn kept_mode(routes: Map<u128, BranchRoute>, id: u128) -> BranchMode {
    if routes.contains_key(id) {
        routes[id].mode
    } else {
        BranchMode::Service
    }
}

/// A route whose requests go to its service.
pub open spec fn to_service(route: BranchRoute) -> BranchRoute {
    BranchRoute { service: route.service, mode: BranchMode::Service }
}

/// The route leads to the devbox of an intercept.
pub open spec fn intercepted_by(route: BranchRoute, intercept_id: u128) -> bool {
    route.mode matches BranchMode::Devbox(c) && c.spec_metadata().intercept_id == intercept_id
}

/// The port routes of a list; a later route replaces an earlier one of the
/// same proxy port.
pub open spec fn port_route_map(routes: Seq<ProxyPortRoute>) -> Map<u16, ProxyPortRoute>
    decreases routes.len(),
{
    if routes.len() == 0 {
        Map::empty()
    } else {
        port_route_map(routes.drop_last()).insert(routes.last().proxy_port, routes.last())
    }
}

fn share(connection: &Arc<DevboxConnection>) -> (r: Arc<DevboxConnection>)
    ensures
        r == *connection,
{
    connection.clone()
}

impl RoutingTable {
    fn default_decision(&self, port: u16) -> (r: RouteDecision)
        ensures
            is_default_decision(*self, port, r),
    {
        match &self.default_route {
            DefaultRoute::Devbox(connection) => RouteDecision::DefaultDevbox {
                connection: share(connection),
                target_port: connection.resolve_target_port(port),
            },
            DefaultRoute::Local => RouteDecision::DefaultLocal {
                target_port: self.target_port_for_service(port),
            },
        }
    }

    /// Decides where an HTTP request goes.
    pub fn resolve_http(&self, port: u16, branch_id: Option<u128>) -> (r: RouteDecision)
        ensures
            is_decision(*self, port, branch_id, r),
    {
        if let Some(id) = branch_id {
            if let Some(route) = self.branch_routes.get(&id) {
                return match &route.mode {
                    BranchMode::Devbox(connection) => RouteDecision::BranchDevbox {
                        connection: share(connection),
                        target_port: connection.resolve_target_port(port),
                    },
                    BranchMode::Service => RouteDecision::BranchService {
                        service: route.service.clone(),
                    },
                };
            }
        }
        self.default_decision(port)
    }

    /// Decides where a connection of another protocol goes.
    pub fn resolve_tcp(&self, port: u16) -> (r: RouteDecision)
        ensures
            is_default_decision(*self, port, r),
    {
        self.default_decision(port)
    }

    /// Replaces the services of all branches. A branch that stays keeps its
    /// mode.
    pub fn replace_branch_routes(&mut self, routes: Vec<(u128, BranchServiceRoute)>)
        ensures
            final(self).branch_routes@ == replaced_routes(old(self).branch_routes@, routes@).0,
            final(self).default_route == old(self).default_route,
            final(self).port_routes == old(self).port_routes,
    {
        let ghost before = self.branch_routes@;
        let ghost all = routes@;
        let mut old_routes: HashMap<u128, BranchRoute> = HashMap::new();
        core::mem::swap(&mut old_routes, &mut self.branch_routes);
        let mut new_routes: HashMap<u128, BranchRoute> = HashMap::new();
        proof {
            assert(all.take(0) =~= Seq::<(u128, BranchServiceRoute)>::empty());
        }
        for entry in it: routes
            invariant
                it.seq() == all,
                (new_routes@, old_routes@) == replaced_routes(before, all.take(it.index() as int)),
        {
            let ghost i = it.index() as int;
            proof {
                assert(all.take(i + 1).drop_last() =~= all.take(i));
                assert(all.take(i + 1).last() == entry);
            }
            let ghost left = old_routes@;
            let (env_id, service) = entry;
            let mode: BranchMode = match old_routes.remove(&env_id) {
                Some(existing) => existing.mode,
                None => BranchMode::Service,
            };
            proof {
                assert(old_routes@ =~= left.remove(env_id));
            }
            new_routes.insert(env_id, BranchRoute { service, mode });
        }
        proof {
            assert(all.take(all.len() as int) =~= all);
        }
        self.branch_routes = new_routes;
    }

    /// Sends the requests of a known branch to a devbox.
    pub fn set_branch_devbox(&mut self, branch_id: u128, connection: Arc<DevboxConnection>) -> (r:
        bool)
        ensures
            r == old(self).branch_routes@.contains_key(branch_id),
            final(self).branch_routes@ == (if r {
                old(self).branch_routes@.insert(
                    branch_id,
                    BranchRoute {
                        service: old(self).branch_routes@[branch_id].service,
                        mode: BranchMode::Devbox(connection),
                    },
                )
            } else {
                old(self).branch_routes@
            }),
            final(self).default_route == old(self).default_route,
            final(self).port_routes == old(self).port_routes,
    {
        match self.branch_routes.remove(&branch_id) {
            Some(route) => {
                self.branch_routes.insert(
                    branch_id,
                    BranchRoute { service: route.service, mode: BranchMode::Devbox(connection) },
                );
                proof {
                    assert(self.branch_routes@ =~= old(self).branch_routes@.insert(
                        branch_id,
                        BranchRoute {
                            service: old(self).branch_routes@[branch_id].service,
                            mode: BranchMode::Devbox(connection),
                        },
                    ));
                }
                true
            },
            None => {
                proof {
                    assert(self.branch_routes@ =~= old(self).branch_routes@);
                }
                false
            },
        }
    }

    /// Sends the requests of every branch to its service.
    pub fn clear_branch_devboxes(&mut self)
        ensures
            final(self).branch_routes@ == old(self).branch_routes@.map_values(
                |route: BranchRoute| to_service(route),
            ),
            final(self).default_route == old(self).default_route,
            final(self).port_routes == old(self).port_routes,
    {
        let ghost before = self.branch_routes@;
        let keys: Vec<u128> = keys_of(&self.branch_routes);
        let mut i: usize = 0;
        while i < keys.len()
            invariant
                i <= keys@.len(),
                keys@.no_duplicates(),
                forall|k: u128| keys@.contains(k) <==> before.contains_key(k),
                self.branch_routes@.dom() == before.dom(),
                forall|k: int|
                    #![trigger keys@[k]]
                    0 <= k < keys@.len() ==> self.branch_routes@[keys@[k]] == (if k < i {
                        to_service(before[keys@[k]])
                    } else {
                        before[keys@[k]]
                    }),
                self.default_route == old(self).default_route,
                self.port_routes == old(self).port_routes,
            decreases keys@.len() - i,
        {
            let key: u128 = keys[i];
            proof {
                assert(keys@.contains(key));
            }
            let ghost current = self.branch_routes@;
            match self.branch_routes.remove(&key) {
                Some(route) => {
                    self.branch_routes.insert(
                        key,
                        BranchRoute { service: route.service, mode: BranchMode::Service },
                    );
                    proof {
                        assert(self.branch_routes@ =~= current.insert(
                            key,
                            to_service(current[key]),
                        ));
                        assert(self.branch_routes@.dom() =~= before.dom());
                    }
                },
                None => {},
            }
            i = i + 1;
        }
        proof {
            let after = before.map_values(|route: BranchRoute| to_service(route));
            assert forall|k: u128| #[trigger] self.branch_routes@.contains_key(k) implies
                self.branch_routes@[k] == after[k] by {
                assert(keys@.contains(k));
                let j = choose|j: int| 0 <= j < keys@.len() && keys@[j] == k;
                assert(self.branch_routes@[keys@[j]] == to_service(before[keys@[j]]));
            }
            assert(self.branch_routes@ =~= after);
        }
    }

    /// Sends the requests of a branch to its service again.
    pub fn remove_branch_devbox(&mut self, branch_id: u128) -> (r: bool)
        ensures
            r == (old(self).branch_routes@.contains_key(branch_id) && old(
                self,
            ).branch_routes@[branch_id].mode is Devbox),
            final(self).branch_routes@ == (if r {
                old(self).branch_routes@.insert(
                    branch_id,
                    to_service(old(self).branch_routes@[branch_id]),
                )
            } else {
                old(self).branch_routes@
            }),
            final(self).default_route == old(self).default_route,
            final(self).port_routes == old(self).port_routes,
    {
        let ghost before = self.branch_routes@;
        match self.branch_routes.remove(&branch_id) {
            Some(route) => {
                let intercepted: bool = matches!(route.mode, BranchMode::Devbox(_));
                self.branch_routes.insert(
                    branch_id,
                    BranchRoute { service: route.service, mode: BranchMode::Service },
                );
                proof {
                    assert(self.branch_routes@ =~= before.insert(
                        branch_id,
                        to_service(before[branch_id]),
                    ));
                    if !intercepted {
                        assert(to_service(before[branch_id]) == before[branch_id]);
                        assert(before.insert(branch_id, before[branch_id]) =~= before);
                    }
                }
                intercepted
            },
            None => {
                proof {
                    assert(self.branch_routes@ =~= before);
                }
                false
            },
        }
    }

    /// Sets the services of a branch. A branch that is known keeps its mode.
    pub fn upsert_branch_service_route(
        &mut self,
        branch_id: u128,
        service_route: BranchServiceRoute,
    )
        ensures
            final(self).branch_routes@ == old(self).branch_routes@.insert(
                branch_id,
                BranchRoute {
                    service: service_route,
                    mode: kept_mode(old(self).branch_routes@, branch_id),
                },
            ),
            final(self).default_route == old(self).default_route,
            final(self).port_routes == old(self).port_routes,
    {
        let ghost before = self.branch_routes@;
        let mode: BranchMode = match self.branch_routes.remove(&branch_id) {
            Some(existing) => existing.mode,
            None => BranchMode::Service,
        };
        let ghost entry = BranchRoute { service: service_route, mode };
        self.branch_routes.insert(branch_id, BranchRoute { service: service_route, mode });
        proof {
            assert(self.branch_routes@ =~= before.insert(branch_id, entry));
        }
    }

    /// Forgets a branch; tells whether it was known.
    pub fn remove_branch_service_route(&mut self, branch_id: u128) -> (r: bool)
        ensures
            r == old(self).branch_routes@.contains_key(branch_id),
            final(self).branch_routes@ == old(self).branch_routes@.remove(branch_id),
            final(self).default_route == old(self).default_route,
            final(self).port_routes == old(self).port_routes,
    {
        self.branch_routes.remove(&branch_id).is_some()
    }

    /// Sends the requests of a branch that an intercept holds to its service
    /// again, and tells which branch that was.
    pub fn remove_branch_devbox_by_intercept(&mut self, intercept_id: u128) -> (r: Option<u128>)
        ensures
            match r {
                Some(id) => {
                    &&& old(self).branch_routes@.contains_key(id)
                    &&& intercepted_by(old(self).branch_routes@[id], intercept_id)
                    &&& final(self).branch_routes@ == old(self).branch_routes@.insert(
                        id,
                        to_service(old(self).branch_routes@[id]),
                    )
                },
                None => {
                    &&& forall|id: u128|
                        #![trigger old(self).branch_routes@.contains_key(id)]
                        old(self).branch_routes@.contains_key(id) ==> !intercepted_by(
                            old(self).branch_routes@[id],
                            intercept_id,
                        )
                    &&& final(self).branch_routes@ == old(self).branch_routes@
                },
            },
            final(self).default_route == old(self).default_route,
            final(self).port_routes == old(self).port_routes,
    {
        let keys: Vec<u128> = keys_of(&self.branch_routes);
        let mut i: usize = 0;
        while i < keys.len()
            invariant
                i <= keys@.len(),
                *self == *old(self),
                forall|k: u128| keys@.contains(k) <==> self.branch_routes@.contains_key(k),
                forall|k: int|
                    #![trigger keys@[k]]
                    0 <= k < i ==> !intercepted_by(self.branch_routes@[keys@[k]], intercept_id),
            decreases keys@.len() - i,
        {
            let key: u128 = keys[i];
            proof {
                assert(keys@.contains(key));
            }
            let hit: bool = match self.branch_routes.get(&key) {
                Some(route) => match &route.mode {
                    BranchMode::Devbox(connection) => connection.metadata().intercept_id
                        == intercept_id,
                    BranchMode::Service => false,
                },
                None => false,
            };
            if hit {
                self.remove_branch_devbox(key);
                return Some(key);
            }
            i = i + 1;
        }
        proof {
            assert forall|id: u128| #[trigger]
                old(self).branch_routes@.contains_key(id) implies !intercepted_by(
                old(self).branch_routes@[id],
                intercept_id,
            ) by {
                assert(keys@.contains(id));
                let j = choose|j: int| 0 <= j < keys@.len() && keys@[j] == id;
                assert(!intercepted_by(self.branch_routes@[keys@[j]], intercept_id));
            }
        }
        None
    }

    pub fn set_default_devbox(&mut self, connection: Arc<DevboxConnection>)
        ensures
            final(self).default_route == DefaultRoute::Devbox(connection),
            final(self).branch_routes == old(self).branch_routes,
            final(self).port_routes == old(self).port_routes,
    {
        self.default_route = DefaultRoute::Devbox(connection);
    }

    pub fn clear_default_devbox(&mut self)
        ensures
            final(self).default_route == DefaultRoute::Local,
            final(self).branch_routes == old(self).branch_routes,
            final(self).port_routes == old(self).port_routes,
    {
        self.default_route = DefaultRoute::Local;
    }

    pub fn default_devbox(&self) -> (r: Option<Arc<DevboxConnection>>)
        ensures
            match self.default_route {
                DefaultRoute::Devbox(connection) => r == Some(connection),
                DefaultRoute::Local => r is None,
            },
    {
        match &self.default_route {
            DefaultRoute::Devbox(connection) => Some(share(connection)),
            DefaultRoute::Local => None,
        }
    }

    /// Serves requests of no branch locally again, where an intercept holds
    /// them.
    pub fn remove_default_devbox_by_intercept(&mut self, intercept_id: u128) -> (r: bool)
        ensures
            r == (old(self).default_route matches DefaultRoute::Devbox(c)
                && c.spec_metadata().intercept_id == intercept_id),
            final(self).default_route == (if r {
                DefaultRoute::Local
            } else {
                old(self).default_route
            }),
            final(self).branch_routes == old(self).branch_routes,
            final(self).port_routes == old(self).port_routes,
    {
        let hit: bool = match &self.default_route {
            DefaultRoute::Devbox(connection) => connection.metadata().intercept_id == intercept_id,
            DefaultRoute::Local => false,
        };
        if hit {
            self.default_route = DefaultRoute::Local;
        }
        hit
    }

    /// Replaces all port routes, and gives the table back.
    pub fn set_port_routes(&mut self, routes: Vec<ProxyPortRoute>) -> (r: &mut Self)
        ensures
            r.port_routes@ == port_route_map(routes@),
            r.branch_routes == old(self).branch_routes,
            r.default_route == old(self).default_route,
            *final(self) == *final(r),
    {
        self.port_routes.clear();
        let mut i: usize = 0;
        proof {
            assert(routes@.take(0) =~= Seq::<ProxyPortRoute>::empty());
        }
        while i < routes.len()
            invariant
                i <= routes@.len(),
                self.port_routes@ == port_route_map(routes@.take(i as int)),
                self.branch_routes == old(self).branch_routes,
                self.default_route == old(self).default_route,
            decreases routes@.len() - i,
        {
            proof {
                assert(routes@.take(i as int + 1).drop_last() =~= routes@.take(i as int));
            }
            self.port_routes.insert(routes[i].proxy_port, routes[i]);
            i = i + 1;
        }
        proof {
            assert(routes@.take(routes@.len() as int) =~= routes@);
        }
        self
    }

    /// Sets a port route; gives back the one that it replaces.
    pub fn upsert_port_route(&mut self, route: ProxyPortRoute) -> (r: Option<ProxyPortRoute>)
        ensures
            final(self).port_routes@ == old(self).port_routes@.insert(route.proxy_port, route),
            r == old(self).spec_port_route(route.proxy_port),
            final(self).branch_routes == old(self).branch_routes,
            final(self).default_route == old(self).default_route,
    {
        self.port_routes.insert(route.proxy_port, route)
    }

    /// Forgets a port route; gives it back.
    pub fn remove_port_route(&mut self, proxy_port: u16) -> (r: Option<ProxyPortRoute>)
        ensures
            final(self).port_routes@ == old(self).port_routes@.remove(proxy_port),
            r == old(self).spec_port_route(proxy_port),
            final(self).branch_routes == old(self).branch_routes,
            final(self).default_route == old(self).default_route,
    {
        self.port_routes.remove(&proxy_port)
    }

    /// The route of a proxy port.
    pub open spec fn spec_port_route(&self, proxy_port: u16) -> Option<ProxyPortRoute> {
        if self.port_routes@.contains_key(proxy_port) {
            Some(self.port_routes@[proxy_port])
        } else {
            None
        }
    }

    pub fn port_route(&self, proxy_port: u16) -> (r: Option<&ProxyPortRoute>)
        ensures
            match r {
                Some(route) => self.spec_port_route(proxy_port) == Some(*route),
                None => self.spec_port_route(proxy_port) is None,
            },
    {
        self.port_routes.get(&proxy_port)
    }

    /// The port routes, each once, in the order in which they are walked.
    pub fn port_routes(&self) -> (r: Vec<ProxyPortRoute>)
        ensures
            lists_routes(self.port_routes@, port_order(self.port_routes), r@),
            forall|route: ProxyPortRoute|
                r@.contains(route) <==> self.port_routes@.contains_value(route),
    {
        let mut out: Vec<ProxyPortRoute> = Vec::new();
        let ghost all = spec_keys_iter(&self.port_routes).remaining();
        let ghost ports = port_order(self.port_routes);
        for port in it: self.port_routes.keys()
            invariant
                it.seq() == all,
                ports == port_order(self.port_routes),
                ports == all.unref(),
                all.no_duplicates(),
                ports.to_set() == self.port_routes@.dom(),
                out@.len() == it.index(),
                forall|k: int|
                    0 <= k < out@.len() ==> #[trigger] out@[k] == self.port_routes@[ports[k]],
        {
            proof {
                assert(ports[it.index() as int] == *port);
                assert(ports.to_set().contains(*port));
            }
            if let Some(route) = self.port_routes.get(port) {
                out.push(*route);
            }
        }
        proof {
            assert forall|p: u16| #[trigger] ports.contains(p) <==> self.port_routes@.contains_key(
                p,
            ) by {
                assert(ports.to_set().contains(p) <==> ports.contains(p));
            }
            assert(lists_routes(self.port_routes@, ports, out@));
            assert forall|route: ProxyPortRoute|
                out@.contains(route) <==> self.port_routes@.contains_value(route) by {
                if out@.contains(route) {
                    let k = choose|k: int| 0 <= k < out@.len() && out@[k] == route;
                    assert(ports.contains(ports[k]));
                    assert(self.port_routes@[ports[k]] == route);
                }
                if self.port_routes@.contains_value(route) {
                    let p = choose|p: u16|
                        self.port_routes@.contains_key(p) && self.port_routes@[p] == route;
                    assert(ports.contains(p));
                    let k = choose|k: int| 0 <= k < ports.len() && ports[k] == p;
                    assert(out@[k] == route);
                }
            }
        }
        out
    }

    /// The service port behind a proxy port.
    pub fn service_port_for_proxy(&self, proxy_port: u16) -> (r: u16)
        ensures
            r == match self.spec_port_route(proxy_port) {
                Some(route) => route.service_port,
                None => proxy_port,
            },
    {
        match self.port_routes.get(&proxy_port) {
            Some(route) => route.service_port,
            None => proxy_port,
        }
    }

    /// The port of the workload behind a service port: that of the first port
    /// route that leads to it.
    pub fn target_port_for_service(&self, service_port: u16) -> (r: u16)
        ensures
            r == service_target(*self, service_port),
            is_service_target(self.port_routes@, service_port, r),
    {
        let routes: Vec<ProxyPortRoute> = self.port_routes();
        let ghost order = port_order(self.port_routes);
        let mut i: usize = 0;
        proof {
            assert(order.skip(0) =~= order);
        }
        while i < routes.len()
            invariant
                i <= routes@.len(),
                order == port_order(self.port_routes),
                lists_routes(self.port_routes@, order, routes@),
                service_target(*self, service_port) == first_target(
                    self.port_routes@,
                    order.skip(i as int),
                    service_port,
                ),
                forall|k: int|
                    0 <= k < i ==> (#[trigger] routes@[k]).service_port != service_port,
            decreases routes@.len() - i,
        {
            proof {
                assert(order.skip(i as int)[0] == order[i as int]);
                assert(order.skip(i as int).drop_first() =~= order.skip(i as int + 1));
                assert(routes@[i as int] == self.port_routes@[order[i as int]]);
            }
            if routes[i].service_port == service_port {
                proof {
                    assert(order.contains(order[i as int]));
                    assert(self.port_routes@.contains_key(order[i as int]));
                }
                return routes[i].target_port;
            }
            i = i + 1;
        }
        proof {
            assert forall|p: u16| #[trigger] self.port_routes@.contains_key(p) implies
                self.port_routes@[p].service_port != service_port by {
                assert(order.contains(p));
                let k = choose|k: int| 0 <= k < order.len() && order[k] == p;
                assert(routes@[k].service_port != service_port);
            }
        }
        service_port
    }
}

// ---------------------------------------------------------------------------
// Laws of the routing table
// ---------------------------------------------------------------------------

/// A request without a branch goes where other protocols go on the same table.
pub proof fn law_no_branch_is_tcp(
    table: RoutingTable,
    port: u16,
    http: RouteDecision,
    tcp: RouteDecision,
)
    requires
        is_decision(table, port, None, http),
        is_default_decision(table, port, tcp),
    ensures
        http == tcp,
{
}

/// A request of an unknown branch goes where other protocols go on the same
/// table.
pub proof fn law_unknown_branch_falls_back(
    table: RoutingTable,
    port: u16,
    branch: u128,
    http: RouteDecision,
    tcp: RouteDecision,
)
    requires
        !table.branch_routes@.contains_key(branch),
        is_decision(table, port, Some(branch), http),
        is_default_decision(table, port, tcp),
    ensures
        http == tcp,
{
}

/// A request of a known branch goes to the devbox or to the services of that
/// branch, whatever the default route is.
pub proof fn law_known_branch_decides(
    table: RoutingTable,
    port: u16,
    branch: u128,
    http: RouteDecision,
)
    requires
        table.branch_routes@.contains_key(branch),
        is_decision(table, port, Some(branch), http),
    ensures
        match table.branch_routes@[branch].mode {
            BranchMode::Devbox(connection) => http == (RouteDecision::BranchDevbox {
                connection,
                target_port: mapped_port(connection.spec_metadata().port_mappings@, port),
            }),
            BranchMode::Service => http matches RouteDecision::BranchService { service } && service@
                == table.branch_routes@[branch].service@,
        },
{
}

/// No branch is named twice.
pub open spec fn distinct_branches(routes: Seq<(u128, BranchServiceRoute)>) -> bool {
    forall|i: int, j: int|
        0 <= i < j < routes.len() ==> (#[trigger] routes[i]).0 != (#[trigger] routes[j]).0
}

proof fn lemma_replaced(before: Map<u128, BranchRoute>, routes: Seq<(u128, BranchServiceRoute)>)
    requires
        distinct_branches(routes),
    ensures
        forall|id: u128| #[trigger]
            replaced_routes(before, routes).0.contains_key(id) <==> exists|i: int|
                0 <= i < routes.len() && (#[trigger] routes[i]).0 == id,
        forall|id: u128|
            #![trigger replaced_routes(before, routes).1.contains_key(id)]
            replaced_routes(before, routes).1.contains_key(id) <==> before.contains_key(id)
                && !replaced_routes(before, routes).0.contains_key(id),
        forall|id: u128|
            #![trigger replaced_routes(before, routes).1[id]]
            replaced_routes(before, routes).1.contains_key(id) ==> replaced_routes(
                before,
                routes,
            ).1[id] == before[id],
        forall|i: int|
            0 <= i < routes.len() ==> replaced_routes(before, routes).0[(#[trigger] routes[i]).0]
                == (BranchRoute {
                service: routes[i].1,
                mode: kept_mode(before, routes[i].0),
            }),
    decreases routes.len(),
{
    if routes.len() > 0 {
        let shorter = routes.drop_last();
        assert forall|i: int, j: int| 0 <= i < j < shorter.len() implies (#[trigger] shorter[i]).0
            != (#[trigger] shorter[j]).0 by {
            assert(shorter[i] == routes[i] && shorter[j] == routes[j]);
        }
        lemma_replaced(before, shorter);
        let (made, left) = replaced_routes(before, shorter);
        let (id, service) = routes.last();
        assert(!made.contains_key(id)) by {
            if made.contains_key(id) {
                let i = choose|i: int| 0 <= i < shorter.len() && (#[trigger] shorter[i]).0 == id;
                assert(routes[i].0 != routes[routes.len() - 1].0);
            }
        }
        assert forall|k: u128| #[trigger]
            replaced_routes(before, routes).0.contains_key(k) <==> exists|i: int|
                0 <= i < routes.len() && (#[trigger] routes[i]).0 == k by {
            if exists|i: int| 0 <= i < routes.len() && (#[trigger] routes[i]).0 == k {
                let i = choose|i: int| 0 <= i < routes.len() && (#[trigger] routes[i]).0 == k;
                if i < shorter.len() {
                    assert(shorter[i].0 == k);
                    assert(made.contains_key(k));
                }
            }
            if made.contains_key(k) {
                let i = choose|i: int| 0 <= i < shorter.len() && (#[trigger] shorter[i]).0 == k;
                assert(routes[i].0 == k);
            }
            if k == id {
                assert(routes[routes.len() - 1].0 == k);
            }
        }
        assert forall|i: int| 0 <= i < routes.len() implies replaced_routes(
            before,
            routes,
        ).0[(#[trigger] routes[i]).0] == (BranchRoute {
            service: routes[i].1,
            mode: kept_mode(before, routes[i].0),
        }) by {
            if i < shorter.len() {
                assert(shorter[i] == routes[i]);
                assert(routes[i].0 != routes[routes.len() - 1].0);
                assert(made[shorter[i].0] == (BranchRoute {
                    service: shorter[i].1,
                    mode: kept_mode(before, shorter[i].0),
                }));
            } else {
                assert(left.contains_key(id) <==> before.contains_key(id));
                assert(left.contains_key(id) ==> left[id] == before[id]);
            }
        }
    }
}

/// After a replacement the table knows just the branches that were named,
/// each with its new services and in the mode that it had before.
pub proof fn law_replace_keeps_modes(
    before: Map<u128, BranchRoute>,
    routes: Seq<(u128, BranchServiceRoute)>,
)
    requires
        distinct_branches(routes),
    ensures
        forall|id: u128| #[trigger]
            replaced_routes(before, routes).0.contains_key(id) <==> exists|i: int|
                0 <= i < routes.len() && (#[trigger] routes[i]).0 == id,
        forall|i: int|
            0 <= i < routes.len() ==> replaced_routes(before, routes).0[(#[trigger] routes[i]).0]
                == (BranchRoute {
                service: routes[i].1,
                mode: kept_mode(before, routes[i].0),
            }),
{
    lemma_replaced(before, routes);
}

/// Sending a branch to a devbox and back leaves it with its services, and no
/// other branch is touched.
pub proof fn law_devbox_and_back(
    before: Map<u128, BranchRoute>,
    id: u128,
    connection: Arc<DevboxConnection>,
)
    requires
        before.contains_key(id),
    ensures
        ({
            let sent = before.insert(
                id,
                BranchRoute { service: before[id].service, mode: BranchMode::Devbox(connection) },
            );
            sent.insert(id, to_service(sent[id])) == before.insert(id, to_service(before[id]))
        }),
{
    let sent = before.insert(
        id,
        BranchRoute { service: before[id].service, mode: BranchMode::Devbox(connection) },
    );
    assert(sent.insert(id, to_service(sent[id])) =~= before.insert(id, to_service(before[id])));
}

/// The port of a devbox for a port of a workload: the one that it is mapped
/// to, or the port itself where the devbox maps it to nothing.
pub proof fn law_devbox_maps_ports(connection: DevboxConnection, port: u16, r: u16)
    requires
        call_ensures(DevboxConnection::resolve_target_port, (&connection, port), r),
    ensures
        connection.metadata.port_mappings@.contains_key(port) ==> r
            == connection.metadata.port_mappings@[port],
        !connection.metadata.port_mappings@.contains_key(port) ==> r == port,
{
}

/// While a shared intercept is set, what belongs to no branch goes to its
/// devbox, at the port that the devbox maps the service port to. Else it goes
/// to a port of this host: to the target of a port route of the service port,
/// or to the service port itself where there is no such route.
pub proof fn law_default_route_decides(table: RoutingTable, port: u16, r: RouteDecision)
    requires
        call_ensures(RoutingTable::resolve_tcp, (&table, port), r),
    ensures
        match table.default_route {
            DefaultRoute::Devbox(c) => r matches RouteDecision::DefaultDevbox {
                connection,
                target_port,
            } && connection == c && target_port == (if c.metadata.port_mappings@.contains_key(
                port,
            ) {
                c.metadata.port_mappings@[port]
            } else {
                port
            }),
            DefaultRoute::Local => r matches RouteDecision::DefaultLocal { target_port } && (
            if exists|p: u16| #[trigger]
                table.port_routes@.contains_key(p) && table.port_routes@[p].service_port == port {
                exists|p: u16| #[trigger]
                    table.port_routes@.contains_key(p) && table.port_routes@[p].service_port
                        == port && table.port_routes@[p].target_port == target_port
            } else {
                target_port == port
            }),
        },
{
}

/// A request of a known branch goes to the devbox of the branch, at the port
/// that the devbox maps the service port to, or with all the services of the
/// branch; any other request goes where other protocols go.
pub proof fn law_branch_route_decides(
    table: RoutingTable,
    port: u16,
    branch: Option<u128>,
    r: RouteDecision,
    tcp: RouteDecision,
)
    requires
        call_ensures(RoutingTable::resolve_http, (&table, port, branch), r),
        call_ensures(RoutingTable::resolve_tcp, (&table, port), tcp),
    ensures
        match branch {
            Some(id) => if table.branch_routes@.contains_key(id) {
                let route = table.branch_routes@[id];
                match route.mode {
                    BranchMode::Devbox(c) => r matches RouteDecision::BranchDevbox {
                        connection,
                        target_port,
                    } && connection == c && target_port == (
                    if c.metadata.port_mappings@.contains_key(port) {
                        c.metadata.port_mappings@[port]
                    } else {
                        port
                    }),
                    BranchMode::Service => r matches RouteDecision::BranchService { service }
                        && service.service_names@ == route.service.service_names@
                        && service.headers@ == route.service.headers@ && service.requires_auth
                        == route.service.requires_auth && service.access_level
                        == route.service.access_level && service.timeout_ms
                        == route.service.timeout_ms,
                }
            } else {
                r == tcp
            },
            None => r == tcp,
        },
{
}

/// New services for a branch leave it in its mode: a branch that a devbox
/// holds stays with the devbox. A branch that was not known starts with its
/// services. Nothing else of the table changes.
pub proof fn law_upsert_keeps_the_mode(
    table: &mut RoutingTable,
    id: u128,
    service: BranchServiceRoute,
)
    requires
        call_ensures(RoutingTable::upsert_branch_service_route, (table, id, service), ()),
    ensures
        final(table).branch_routes@.contains_key(id),
        final(table).branch_routes@[id].service == service,
        final(table).branch_routes@[id].mode == (if old(table).branch_routes@.contains_key(id) {
            old(table).branch_routes@[id].mode
        } else {
            BranchMode::Service
        }),
        forall|other: u128|
            #![trigger final(table).branch_routes@.contains_key(other)]
            other != id ==> final(table).branch_routes@.contains_key(other) == old(
                table,
            ).branch_routes@.contains_key(other) && final(table).branch_routes@[other] == old(
                table,
            ).branch_routes@[other],
        final(table).default_route == old(table).default_route,
        final(table).port_routes@ == old(table).port_routes@,
{
}

/// After a replacement the table knows just the branches that were named,
/// each with its new services and in the mode that it had before.
pub proof fn law_replacement_keeps_the_modes(
    table: &mut RoutingTable,
    routes: Vec<(u128, BranchServiceRoute)>,
)
    requires
        call_ensures(RoutingTable::replace_branch_routes, (table, routes), ()),
        distinct_branches(routes@),
    ensures
        forall|id: u128| #[trigger]
            final(table).branch_routes@.contains_key(id) <==> exists|i: int|
                0 <= i < routes@.len() && (#[trigger] routes@[i]).0 == id,
        forall|i: int|
            #![trigger routes@[i]]
            0 <= i < routes@.len() ==> {
                let id = routes@[i].0;
                &&& final(table).branch_routes@[id].service == routes@[i].1
                &&& final(table).branch_routes@[id].mode == (if old(
                    table,
                ).branch_routes@.contains_key(id) {
                    old(table).branch_routes@[id].mode
                } else {
                    BranchMode::Service
                })
            },
        final(table).default_route == old(table).default_route,
        final(table).port_routes@ == old(table).port_routes@,
{
    lemma_replaced(old(table).branch_routes@, routes@);
}

/// Sending a branch to a devbox reaches known branches only, and changes the
/// mode of that branch and nothing else.
pub proof fn law_branch_is_intercepted(
    table: &mut RoutingTable,
    id: u128,
    connection: Arc<DevboxConnection>,
    r: bool,
)
    requires
        call_ensures(RoutingTable::set_branch_devbox, (table, id, connection), r),
    ensures
        r == old(table).branch_routes@.contains_key(id),
        final(table).branch_routes@.dom() == old(table).branch_routes@.dom(),
        r ==> final(table).branch_routes@[id].mode == BranchMode::Devbox(connection)
            && final(table).branch_routes@[id].service == old(table).branch_routes@[id].service,
        forall|other: u128|
            #![trigger final(table).branch_routes@[other]]
            other != id && old(table).branch_routes@.contains_key(other)
                ==> final(table).branch_routes@[other] == old(table).branch_routes@[other],
        final(table).default_route == old(table).default_route,
        final(table).port_routes@ == old(table).port_routes@,
{
    assert(final(table).branch_routes@.dom() =~= old(table).branch_routes@.dom());
}

/// Taking a branch back from its devbox tells whether a devbox held it, leaves
/// it with its services, and changes nothing else.
pub proof fn law_branch_is_released(table: &mut RoutingTable, id: u128, r: bool)
    requires
        call_ensures(RoutingTable::remove_branch_devbox, (table, id), r),
    ensures
        r == (old(table).branch_routes@.contains_key(id) && old(table).branch_routes@[id].mode
            is Devbox),
        final(table).branch_routes@.dom() == old(table).branch_routes@.dom(),
        old(table).branch_routes@.contains_key(id) ==> final(table).branch_routes@[id].mode
            is Service && final(table).branch_routes@[id].service == old(
            table,
        ).branch_routes@[id].service,
        forall|other: u128|
            #![trigger final(table).branch_routes@[other]]
            other != id && old(table).branch_routes@.contains_key(other)
                ==> final(table).branch_routes@[other] == old(table).branch_routes@[other],
        final(table).default_route == old(table).default_route,
        final(table).port_routes@ == old(table).port_routes@,
{
    assert(final(table).branch_routes@.dom() =~= old(table).branch_routes@.dom());
}

/// Taking all branches back leaves every branch with its services.
pub proof fn law_all_branches_are_released(table: &mut RoutingTable)
    requires
        call_ensures(RoutingTable::clear_branch_devboxes, (table,), ()),
    ensures
        final(table).branch_routes@.dom() == old(table).branch_routes@.dom(),
        forall|id: u128|
            #![trigger final(table).branch_routes@[id]]
            old(table).branch_routes@.contains_key(id) ==> final(table).branch_routes@[id].mode
                is Service && final(table).branch_routes@[id].service == old(
                table,
            ).branch_routes@[id].service,
        final(table).default_route == old(table).default_route,
        final(table).port_routes@ == old(table).port_routes@,
{
    assert(final(table).branch_routes@.dom() =~= old(table).branch_routes@.dom());
}

/// The end of an intercept takes its branch back, where it holds one, and no
/// branch that another intercept holds.
pub proof fn law_end_of_intercept_releases(table: &mut RoutingTable, intercept: u128, r: Option<u128>)
    requires
        call_ensures(RoutingTable::remove_branch_devbox_by_intercept, (table, intercept), r),
    ensures
        match r {
            Some(id) => {
                &&& old(table).branch_routes@.contains_key(id)
                &&& old(table).branch_routes@[id].mode matches BranchMode::Devbox(c)
                    && c.metadata.intercept_id == intercept
                &&& final(table).branch_routes@[id].mode is Service
                &&& final(table).branch_routes@[id].service == old(
                    table,
                ).branch_routes@[id].service
                &&& forall|other: u128|
                    #![trigger final(table).branch_routes@[other]]
                    other != id && old(table).branch_routes@.contains_key(other)
                        ==> final(table).branch_routes@[other] == old(table).branch_routes@[other]
            },
            None => final(table).branch_routes@ == old(table).branch_routes@ && forall|id: u128|
                #![trigger old(table).branch_routes@[id]]
                old(table).branch_routes@.contains_key(id) ==> !(old(table).branch_routes@[id].mode
                    matches BranchMode::Devbox(c) && c.metadata.intercept_id == intercept),
        },
        final(table).branch_routes@.dom() == old(table).branch_routes@.dom(),
        final(table).default_route == old(table).default_route,
        final(table).port_routes@ == old(table).port_routes@,
{
    assert(final(table).branch_routes@.dom() =~= old(table).branch_routes@.dom());
    if r is None {
        assert forall|id: u128|
            #![trigger old(table).branch_routes@[id]]
            old(table).branch_routes@.contains_key(id) implies !(old(table).branch_routes@[id].mode
            matches BranchMode::Devbox(c) && c.metadata.intercept_id == intercept) by {
            assert(!intercepted_by(old(table).branch_routes@[id], intercept));
        }
    }
}

/// The port routes that are set are the last ones of their proxy ports in the
/// list.
pub proof fn law_last_port_route_counts(routes: Seq<ProxyPortRoute>, i: int)
    requires
        0 <= i < routes.len(),
        forall|j: int| i < j < routes.len() ==> (#[trigger] routes[j]).proxy_port
            != routes[i].proxy_port,
    ensures
        port_route_map(routes).contains_key(routes[i].proxy_port),
        port_route_map(routes)[routes[i].proxy_port] == routes[i],
    decreases routes.len(),
{
    if i < routes.len() - 1 {
        let shorter = routes.drop_last();
        assert forall|j: int| i < j < shorter.len() implies (#[trigger] shorter[j]).proxy_port
            != shorter[i].proxy_port by {
            assert(shorter[j] == routes[j]);
        }
        law_last_port_route_counts(shorter, i);
        assert(routes[routes.len() - 1].proxy_port != routes[i].proxy_port);
    }
}

/// A proxy port that no route of the list has gets no route.
pub proof fn law_no_other_port_routes(routes: Seq<ProxyPortRoute>, port: u16)
    requires
        forall|j: int| 0 <= j < routes.len() ==> (#[trigger] routes[j]).proxy_port != port,
    ensures
        !port_route_map(routes).contains_key(port),
    decreases routes.len(),
{
    if routes.len() > 0 {
        let shorter = routes.drop_last();
        assert forall|j: int| 0 <= j < shorter.len() implies (#[trigger] shorter[j]).proxy_port
            != port by {
            assert(shorter[j] == routes[j]);
        }
        law_no_other_port_routes(shorter, port);
        assert(routes[routes.len() - 1].proxy_port != port);
    }
}

/// A port route is set, taken away and looked up by its proxy port, and no other
/// port is touched.
pub proof fn law_port_routes_are_kept_by_port(
    table: &mut RoutingTable,
    route: ProxyPortRoute,
    replaced: Option<ProxyPortRoute>,
    after: &mut RoutingTable,
    port: u16,
    removed: Option<ProxyPortRoute>,
    other: u16,
)
    requires
        call_ensures(RoutingTable::upsert_port_route, (table, route), replaced),
        *old(after) == *final(table),
        call_ensures(RoutingTable::remove_port_route, (after, port), removed),
    ensures
        final(table).port_routes@.contains_key(route.proxy_port),
        final(table).port_routes@[route.proxy_port] == route,
        replaced is Some <==> old(table).port_routes@.contains_key(route.proxy_port),
        replaced matches Some(r) ==> r == old(table).port_routes@[route.proxy_port],
        port == route.proxy_port ==> removed == Some(route),
        !final(after).port_routes@.contains_key(port),
        other != route.proxy_port && other != port ==> final(after).port_routes@.contains_key(other)
            == old(table).port_routes@.contains_key(other),
        final(after).branch_routes == old(table).branch_routes,
        final(after).default_route == old(table).default_route,
{
}

/// The port routes that are listed are those of the table.
pub proof fn law_port_routes_are_listed(
    table: RoutingTable,
    r: Vec<ProxyPortRoute>,
    port: u16,
    found: Option<&ProxyPortRoute>,
)
    requires
        call_ensures(RoutingTable::port_routes, (&table,), r),
        call_ensures(RoutingTable::port_route, (&table, port), found),
    ensures
        found is Some <==> table.port_routes@.contains_key(port),
        found matches Some(route) ==> *route == table.port_routes@[port] && r@.contains(*route),
{
    if let Some(route) = found {
        assert(table.port_routes@.contains_value(*route));
        assert(r@.contains(*route));
    }
}

/// A service port is served at the host port of a route for it, and at itself
/// where there is none.
pub proof fn law_service_port_is_mapped(table: RoutingTable, service_port: u16, r: u16)
    requires
        call_ensures(RoutingTable::target_port_for_service, (&table, service_port), r),
    ensures
        (forall|p: u16| #[trigger]
            table.port_routes@.contains_key(p) ==> table.port_routes@[p].service_port
                != service_port) ==> r == service_port,
        (exists|p: u16| #[trigger]
            table.port_routes@.contains_key(p) && table.port_routes@[p].service_port
                == service_port) ==> exists|p: u16| #[trigger]
            table.port_routes@.contains_key(p) && table.port_routes@[p].service_port
                == service_port && table.port_routes@[p].target_port == r,
{
}

/// An intercept of all that belongs to no branch ends just where it is the one
/// that was named; the table then serves these requests here.
pub proof fn law_default_intercept_ends(table: &mut RoutingTable, intercept: u128, r: bool)
    requires
        call_ensures(RoutingTable::remove_default_devbox_by_intercept, (table, intercept), r),
    ensures
        r <==> (old(table).default_route matches DefaultRoute::Devbox(c) && c.metadata.intercept_id
            == intercept),
        r ==> final(table).default_route is Local,
        !r ==> final(table).default_route == old(table).default_route,
        final(table).branch_routes == old(table).branch_routes,
        final(table).port_routes == old(table).port_routes,
{
}

/// A branch that was forgotten is no longer known, and no other is touched.
pub proof fn law_branch_is_forgotten(table: &mut RoutingTable, id: u128, r: bool, other: u128)
    requires
        call_ensures(RoutingTable::remove_branch_service_route, (table, id), r),
    ensures
        r <==> old(table).branch_routes@.contains_key(id),
        final(table).branch_routes@.contains_key(other) <==> old(table).branch_routes@.contains_key(
            other,
        ) && other != id,
        final(table).branch_routes@.contains_key(other) ==> final(table).branch_routes@[other]
            == old(table).branch_routes@[other],
        final(table).default_route == old(table).default_route,
        final(table).port_routes == old(table).port_routes,
{
}

/// The devbox that was set for all that belongs to no branch is the one that is
/// found, and after it was cleared there is none.
pub proof fn law_default_devbox_is_found(
    table: &mut RoutingTable,
    connection: Arc<DevboxConnection>,
    set: RoutingTable,
    found: Option<Arc<DevboxConnection>>,
    again: &mut RoutingTable,
    cleared: RoutingTable,
    gone: Option<Arc<DevboxConnection>>,
)
    requires
        call_ensures(RoutingTable::set_default_devbox, (table, connection), ()),
        set == *final(table),
        call_ensures(RoutingTable::default_devbox, (&set,), found),
        *old(again) == set,
        call_ensures(RoutingTable::clear_default_devbox, (again,), ()),
        cleared == *final(again),
        call_ensures(RoutingTable::default_devbox, (&cleared,), gone),
    ensures
        found == Some(connection),
        gone is None,
        final(again).branch_routes == old(table).branch_routes,
        final(again).port_routes == old(table).port_routes,
{
}

} // verus!
