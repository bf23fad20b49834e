//! How calls of the manager change the routes of a sidecar proxy.
use crate::config::{
    access_level_from_proxy, access_level_of, distinct_branches, kept_mode,
    law_replace_keeps_modes, replaced_routes, to_service, AccessLevel, BranchMode,
    BranchRoute, BranchServiceRoute, DefaultRoute, DevboxConnection, DevboxRouteMetadata,
    RoutingTable,
};
use crate::kube_rpc::{
    direct_view, DevboxRouteConfig, DevboxRouteView, DirectChannelConfig, ProxyBranchRouteConfig,
    ProxyRouteAccessLevel,
};
use crate::maps::keys_of;
use std::sync::Arc;
use vstd::prelude::*;

verus! {

broadcast use vstd::std_specs::hash::group_hash_axioms;

// ---------------------------------------------------------------------------
// Devbox routes
// ---------------------------------------------------------------------------

/// What a devbox route says of its devbox.
pub open spec fn metadata_of(route: DevboxRouteConfig) -> DevboxRouteMetadata {
    DevboxRouteMetadata {
        intercept_id: route.intercept_id,
        workload_id: route.workload_id,
        auth_token: route.auth_token,
        websocket_url: route.websocket_url,
        path_pattern: route.path_pattern,
        port_mappings: route.port_mappings,
        created_at_epoch_seconds: route.created_at_epoch_seconds,
        expires_at_epoch_seconds: route.expires_at_epoch_seconds,
        direct: route.direct,
    }
}

/// The connection of a devbox route.
pub open spec fn connection_of(route: DevboxRouteConfig) -> Arc<DevboxConnection> {
    Arc::new(DevboxConnection { metadata: metadata_of(route) })
}

pub fn devbox_connection_from_config(route: DevboxRouteConfig) -> (r: Arc<DevboxConnection>)
    ensures
        r == connection_of(route),
{
    Arc::new(
        DevboxConnection::new(
            DevboxRouteMetadata {
                intercept_id: route.intercept_id,
                workload_id: route.workload_id,
                auth_token: route.auth_token,
                websocket_url: route.websocket_url,
                path_pattern: route.path_pattern,
                port_mappings: route.port_mappings,
                created_at_epoch_seconds: route.created_at_epoch_seconds,
                expires_at_epoch_seconds: route.expires_at_epoch_seconds,
                direct: route.direct,
            },
        ),
    )
}

/// The route of a devbox, for a branch or for requests of no branch.
pub open spec fn route_view_of(
    metadata: DevboxRouteMetadata,
    branch_id: Option<u128>,
) -> DevboxRouteView {
    DevboxRouteView {
        intercept_id: metadata.intercept_id,
        workload_id: metadata.workload_id,
        auth_token: metadata.auth_token@,
        websocket_url: metadata.websocket_url@,
        path_pattern: metadata.path_pattern@,
        branch_environment_id: branch_id,
        created_at_epoch_seconds: metadata.created_at_epoch_seconds,
        expires_at_epoch_seconds: metadata.expires_at_epoch_seconds,
        port_mappings: metadata.port_mappings@,
        direct: direct_view(metadata.direct),
    }
}

pub fn devbox_route_config_from_connection(
    connection: &DevboxConnection,
    branch_id: Option<u128>,
) -> (r: DevboxRouteConfig)
    ensures
        r@ == route_view_of(connection.spec_metadata(), branch_id),
{
    let metadata: &DevboxRouteMetadata = connection.metadata();
    let direct: Option<DirectChannelConfig> = match &metadata.direct {
        Some(d) => Some(d.clone()),
        None => None,
    };
    DevboxRouteConfig {
        intercept_id: metadata.intercept_id,
        workload_id: metadata.workload_id,
        auth_token: metadata.auth_token.clone(),
        websocket_url: metadata.websocket_url.clone(),
        path_pattern: metadata.path_pattern.clone(),
        branch_environment_id: branch_id,
        created_at_epoch_seconds: metadata.created_at_epoch_seconds,
        expires_at_epoch_seconds: metadata.expires_at_epoch_seconds,
        port_mappings: metadata.port_mappings.clone(),
        direct,
    }
}

/// A route that is made from the connection of a route is that route again,
/// for the branch that is asked for.
pub proof fn law_devbox_route_round_trip(route: DevboxRouteConfig, branch_id: Option<u128>)
    ensures
        route_view_of(connection_of(route).spec_metadata(), branch_id) == (DevboxRouteView {
            branch_environment_id: branch_id,
            ..route@
        }),
        route_view_of(connection_of(route).spec_metadata(), route.branch_environment_id) == route@,
{
}

// ---------------------------------------------------------------------------
// Service routes
// ---------------------------------------------------------------------------

/// The services that a branch route lists.
pub open spec fn services_of(route: ProxyBranchRouteConfig) -> BranchServiceRoute {
    BranchServiceRoute {
        service_names: route.service_names,
        headers: route.headers,
        requires_auth: route.requires_auth,
        access_level: access_level_of(route.access_level),
        timeout_ms: route.timeout_ms,
    }
}

/// The branches that get services: those with a service name.
pub open spec fn service_updates(routes: Seq<ProxyBranchRouteConfig>) -> Seq<
    (u128, BranchServiceRoute),
>
    decreases routes.len(),
{
    if routes.len() == 0 {
        seq![]
    } else {
        let earlier = service_updates(routes.drop_last());
        let route = routes.last();
        if route.service_names@.len() == 0 {
            earlier
        } else {
            earlier.push((route.branch_environment_id, services_of(route)))
        }
    }
}

/// The branches that get a devbox.
pub open spec fn devbox_updates(routes: Seq<ProxyBranchRouteConfig>) -> Seq<
    (u128, Arc<DevboxConnection>),
>
    decreases routes.len(),
{
    if routes.len() == 0 {
        seq![]
    } else {
        let earlier = devbox_updates(routes.drop_last());
        match routes.last().devbox_route {
            Some(devbox) => earlier.push(
                (routes.last().branch_environment_id, connection_of(devbox)),
            ),
            None => earlier,
        }
    }
}

/// Sends the requests of a branch to a devbox, if the branch is known.
pub open spec fn with_devbox(
    routes: Map<u128, BranchRoute>,
    id: u128,
    connection: Arc<DevboxConnection>,
) -> Map<u128, BranchRoute> {
    if routes.contains_key(id) {
        routes.insert(
            id,
            BranchRoute { service: routes[id].service, mode: BranchMode::Devbox(connection) },
        )
    } else {
        routes
    }
}

/// Sends the requests of several branches to devboxes.
pub open spec fn with_devboxes(
    routes: Map<u128, BranchRoute>,
    devboxes: Seq<(u128, Arc<DevboxConnection>)>,
) -> Map<u128, BranchRoute>
    decreases devboxes.len(),
{
    if devboxes.len() == 0 {
        routes
    } else {
        with_devbox(
            with_devboxes(routes, devboxes.drop_last()),
            devboxes.last().0,
            devboxes.last().1,
        )
    }
}

/// The branch routes once a list of routes was set.
pub open spec fn set_routes(
    before: Map<u128, BranchRoute>,
    routes: Seq<ProxyBranchRouteConfig>,
) -> Map<u128, BranchRoute> {
    with_devboxes(replaced_routes(before, service_updates(routes)).0, devbox_updates(routes))
}

/// Some route of the list is for the branch.
pub open spec fn names_branch(routes: Seq<ProxyBranchRouteConfig>, id: u128) -> bool {
    exists|i: int| 0 <= i < routes.len() && (#[trigger] routes[i]).branch_environment_id == id
}

/// The connections of the branch end where a list of routes is set: it was
/// known, or the list names it.
pub open spec fn branch_ends(
    before: Map<u128, BranchRoute>,
    routes: Seq<ProxyBranchRouteConfig>,
    id: u128,
) -> bool {
    before.contains_key(id) || names_branch(routes, id)
}

fn push_new(ids: &mut Vec<u128>, id: u128)
    requires
        old(ids)@.no_duplicates(),
    ensures
        final(ids)@.no_duplicates(),
        forall|k: u128| #[trigger]
            final(ids)@.contains(k) <==> old(ids)@.contains(k) || k == id,
{
    let ghost before = ids@;
    let mut i: usize = 0;
    while i < ids.len()
        invariant
            i <= ids@.len(),
            ids@ == before,
            before.no_duplicates(),
            forall|k: int| 0 <= k < i ==> ids@[k] != id,
        decreases ids@.len() - i,
    {
        if ids[i] == id {
            proof {
                assert(before.contains(id)) by {
                    assert(before[i as int] == id);
                }
            }
            return ;
        }
        i = i + 1;
    }
    ids.push(id);
    proof {
        assert forall|k: u128| #[trigger] ids@.contains(k) <==> before.contains(k) || k == id by {
            if before.contains(k) {
                let j = choose|j: int| 0 <= j < before.len() && before[j] == k;
                assert(ids@[j] == k);
            }
            if k == id {
                assert(ids@[before.len() as int] == id);
            }
        }
    }
}

/// Replaces the routes of all branches, and tells whose connections have to
/// end: those of the branches that were known and of those that are named,
/// each once.
pub fn set_service_routes(
    table: &mut RoutingTable,
    routes: Vec<ProxyBranchRouteConfig>,
) -> (r: Vec<u128>)
    ensures
        final(table).branch_routes@ == set_routes(old(table).branch_routes@, routes@),
        final(table).default_route == old(table).default_route,
        final(table).port_routes == old(table).port_routes,
        r@.no_duplicates(),
        forall|id: u128| #[trigger]
            r@.contains(id) <==> branch_ends(old(table).branch_routes@, routes@, id),
{
    let ghost all = routes@;
    let mut ids: Vec<u128> = keys_of(&table.branch_routes);
    let mut updates: Vec<(u128, BranchServiceRoute)> = Vec::new();
    let mut devboxes: Vec<(u128, Arc<DevboxConnection>)> = Vec::new();
    proof {
        assert(all.take(0) =~= Seq::<ProxyBranchRouteConfig>::empty());
        assert forall|id: u128| #[trigger]
            ids@.contains(id) <==> table.branch_routes@.contains_key(id) || names_branch(
                all.take(0),
                id,
            ) by {}
    }
    for route in it: routes
        invariant
            it.seq() == all,
            updates@ == service_updates(all.take(it.index() as int)),
            devboxes@ == devbox_updates(all.take(it.index() as int)),
            ids@.no_duplicates(),
            forall|id: u128| #[trigger]
                ids@.contains(id) <==> table.branch_routes@.contains_key(id) || names_branch(
                    all.take(it.index() as int),
                    id,
                ),
    {
        let ghost i = it.index() as int;
        let ghost seen = ids@;
        proof {
            assert(all.take(i + 1).drop_last() =~= all.take(i));
            assert(all.take(i + 1).last() == route);
        }
        let branch_id: u128 = route.branch_environment_id;
        push_new(&mut ids, branch_id);
        proof {
            assert forall|id: u128| #[trigger]
                ids@.contains(id) <==> table.branch_routes@.contains_key(id) || names_branch(
                    all.take(i + 1),
                    id,
                ) by {
                assert(seen.contains(id) <==> table.branch_routes@.contains_key(id)
                    || names_branch(all.take(i), id));
                if names_branch(all.take(i), id) {
                    let k = choose|k: int|
                        0 <= k < i && (#[trigger] all.take(i)[k]).branch_environment_id == id;
                    assert(all.take(i + 1)[k].branch_environment_id == id);
                }
                if id == branch_id {
                    assert(all.take(i + 1)[i].branch_environment_id == id);
                }
                if names_branch(all.take(i + 1), id) && id != branch_id {
                    let k = choose|k: int|
                        0 <= k < i + 1 && (#[trigger] all.take(i + 1)[k]).branch_environment_id
                            == id;
                    assert(all.take(i)[k].branch_environment_id == id);
                }
            }
        }
        if route.service_names.len() != 0 {
            updates.push(
                (
                    branch_id,
                    BranchServiceRoute {
                        service_names: route.service_names,
                        headers: route.headers,
                        requires_auth: route.requires_auth,
                        access_level: access_level_from_proxy(route.access_level),
                        timeout_ms: route.timeout_ms,
                    },
                ),
            );
        }
        if let Some(devbox) = route.devbox_route {
            devboxes.push((branch_id, devbox_connection_from_config(devbox)));
        }
    }
    proof {
        assert(all.take(all.len() as int) =~= all);
    }
    table.replace_branch_routes(updates);
    let ghost replaced = table.branch_routes@;
    let ghost boxes = devboxes@;
    proof {
        assert(boxes.take(0) =~= Seq::<(u128, Arc<DevboxConnection>)>::empty());
    }
    for entry in it: devboxes
        invariant
            it.seq() == boxes,
            table.branch_routes@ == with_devboxes(replaced, boxes.take(it.index() as int)),
            table.default_route == old(table).default_route,
            table.port_routes == old(table).port_routes,
    {
        let ghost i = it.index() as int;
        proof {
            assert(boxes.take(i + 1).drop_last() =~= boxes.take(i));
            assert(boxes.take(i + 1).last() == entry);
        }
        let (branch_id, devbox) = entry;
        table.set_branch_devbox(branch_id, devbox);
    }
    proof {
        assert(boxes.take(boxes.len() as int) =~= boxes);
    }
    ids
}

proof fn lemma_replaced_keys(
    before: Map<u128, BranchRoute>,
    updates: Seq<(u128, BranchServiceRoute)>,
)
    ensures
        forall|id: u128| #[trigger]
            replaced_routes(before, updates).0.contains_key(id) ==> exists|i: int|
                0 <= i < updates.len() && (#[trigger] updates[i]).0 == id,
    decreases updates.len(),
{
    if updates.len() > 0 {
        let shorter = updates.drop_last();
        lemma_replaced_keys(before, shorter);
        assert forall|id: u128| #[trigger]
            replaced_routes(before, updates).0.contains_key(id) implies exists|i: int|
            0 <= i < updates.len() && (#[trigger] updates[i]).0 == id by {
            if replaced_routes(before, shorter).0.contains_key(id) {
                let i = choose|i: int| 0 <= i < shorter.len() && (#[trigger] shorter[i]).0 == id;
                assert(updates[i].0 == id);
            } else {
                assert(updates[updates.len() - 1].0 == id);
            }
        }
    }
}

proof fn lemma_updates_named(routes: Seq<ProxyBranchRouteConfig>)
    ensures
        forall|i: int|
            0 <= i < service_updates(routes).len() ==> names_branch(
                routes,
                (#[trigger] service_updates(routes)[i]).0,
            ),
    decreases routes.len(),
{
    if routes.len() > 0 {
        let shorter = routes.drop_last();
        lemma_updates_named(shorter);
        let updates = service_updates(routes);
        let earlier = service_updates(shorter);
        assert forall|i: int| 0 <= i < updates.len() implies names_branch(
            routes,
            (#[trigger] updates[i]).0,
        ) by {
            if i < earlier.len() {
                assert(updates[i] == earlier[i]);
                let k = choose|k: int|
                    0 <= k < shorter.len() && (#[trigger] shorter[k]).branch_environment_id
                        == earlier[i].0;
                assert(routes[k].branch_environment_id == updates[i].0);
            } else {
                assert(routes[routes.len() - 1].branch_environment_id == updates[i].0);
            }
        }
    }
}

proof fn lemma_devboxes_keep_keys(
    routes: Map<u128, BranchRoute>,
    devboxes: Seq<(u128, Arc<DevboxConnection>)>,
)
    ensures
        with_devboxes(routes, devboxes).dom() == routes.dom(),
    decreases devboxes.len(),
{
    if devboxes.len() > 0 {
        lemma_devboxes_keep_keys(routes, devboxes.drop_last());
        assert(with_devboxes(routes, devboxes).dom() =~= routes.dom());
    }
}

/// A branch whose connections do not end has no route, neither before nor
/// after: no connection goes on along a route that was replaced.
pub proof fn law_changed_branches_end(
    before: Map<u128, BranchRoute>,
    routes: Seq<ProxyBranchRouteConfig>,
    id: u128,
)
    requires
        !branch_ends(before, routes, id),
    ensures
        !before.contains_key(id),
        !set_routes(before, routes).contains_key(id),
{
    let updates = service_updates(routes);
    lemma_replaced_keys(before, updates);
    lemma_updates_named(routes);
    let replaced = replaced_routes(before, updates).0;
    lemma_devboxes_keep_keys(replaced, devbox_updates(routes));
    assert(with_devboxes(replaced, devbox_updates(routes)).dom().contains(id)
        == replaced.dom().contains(id));
    if replaced.contains_key(id) {
        let i = choose|i: int| 0 <= i < updates.len() && (#[trigger] updates[i]).0 == id;
        assert(names_branch(routes, updates[i].0));
    }
}

/// Sets a devbox route. A route of another workload is ignored; otherwise the
/// result tells whose connections have to end: those of the branch, or those
/// of no branch.
pub fn set_devbox_route(
    table: &mut RoutingTable,
    workload_id: u128,
    route: DevboxRouteConfig,
) -> (r: Option<Option<u128>>)
    ensures
        if route.workload_id != workload_id {
            r is None && *final(table) == *old(table)
        } else {
            &&& r == Some(route.branch_environment_id)
            &&& final(table).port_routes == old(table).port_routes
            &&& match route.branch_environment_id {
                Some(id) => {
                    &&& final(table).branch_routes@ == with_devbox(
                        old(table).branch_routes@,
                        id,
                        connection_of(route),
                    )
                    &&& final(table).default_route == old(table).default_route
                },
                None => {
                    &&& final(table).default_route == DefaultRoute::Devbox(connection_of(route))
                    &&& final(table).branch_routes == old(table).branch_routes
                },
            }
        },
{
    if route.workload_id != workload_id {
        return None;
    }
    let key: Option<u128> = route.branch_environment_id;
    let connection: Arc<DevboxConnection> = devbox_connection_from_config(route);
    match key {
        Some(id) => {
            table.set_branch_devbox(id, connection);
        },
        None => {
            table.set_default_devbox(connection);
        },
    }
    Some(key)
}

/// Takes a devbox route away. The connections of the branch, or of no branch,
/// have to end.
pub fn stop_devbox(table: &mut RoutingTable, branch: Option<u128>) -> (r: Option<u128>)
    ensures
        r == branch,
        final(table).port_routes == old(table).port_routes,
        match branch {
            Some(id) => {
                &&& final(table).branch_routes@ == (if old(table).branch_routes@.contains_key(id) {
                    old(table).branch_routes@.insert(id, to_service(old(table).branch_routes@[id]))
                } else {
                    old(table).branch_routes@
                })
                &&& final(table).default_route == old(table).default_route
            },
            None => {
                &&& final(table).default_route == DefaultRoute::Local
                &&& final(table).branch_routes == old(table).branch_routes
            },
        },
{
    match branch {
        Some(id) => {
            let ghost before = table.branch_routes@;
            let removed: bool = table.remove_branch_devbox(id);
            proof {
                if !removed && before.contains_key(id) {
                    assert(to_service(before[id]) == before[id]);
                    assert(before.insert(id, before[id]) =~= before);
                }
            }
        },
        None => {
            table.clear_default_devbox();
        },
    }
    branch
}

/// Sets the services of one branch, and its devbox where the route has one.
/// Fails on a route without service names; otherwise the connections of the
/// branch have to end.
pub fn upsert_branch_service_route(
    table: &mut RoutingTable,
    route: ProxyBranchRouteConfig,
) -> (r: Result<u128, String>)
    ensures
        match r {
            Err(message) => {
                &&& route.service_names@.len() == 0
                &&& message@ == "Missing service_names for branch service route update"@
                &&& *final(table) == *old(table)
            },
            Ok(id) => {
                &&& route.service_names@.len() != 0
                &&& id == route.branch_environment_id
                &&& final(table).branch_routes@ == old(table).branch_routes@.insert(
                    id,
                    BranchRoute {
                        service: services_of(route),
                        mode: match route.devbox_route {
                            Some(devbox) => BranchMode::Devbox(connection_of(devbox)),
                            None => kept_mode(old(table).branch_routes@, id),
                        },
                    },
                )
                &&& final(table).default_route == old(table).default_route
                &&& final(table).port_routes == old(table).port_routes
            },
        },
{
    let ghost before = table.branch_routes@;
    let branch_id: u128 = route.branch_environment_id;
    if route.service_names.len() == 0 {
        return Err("Missing service_names for branch service route update".to_owned());
    }
    let service_route: BranchServiceRoute = BranchServiceRoute {
        service_names: route.service_names,
        headers: route.headers,
        requires_auth: route.requires_auth,
        access_level: access_level_from_proxy(route.access_level),
        timeout_ms: route.timeout_ms,
    };
    table.upsert_branch_service_route(branch_id, service_route);
    if let Some(devbox) = route.devbox_route {
        let connection: Arc<DevboxConnection> = devbox_connection_from_config(devbox);
        table.set_branch_devbox(branch_id, connection);
        proof {
            assert(table.branch_routes@ =~= before.insert(
                branch_id,
                BranchRoute {
                    service: services_of(route),
                    mode: BranchMode::Devbox(connection_of(devbox)),
                },
            ));
        }
    }
    Ok(branch_id)
}

/// Forgets a branch. Its connections have to end.
pub fn remove_branch_service_route(table: &mut RoutingTable, branch_id: u128) -> (r: u128)
    ensures
        r == branch_id,
        final(table).branch_routes@ == old(table).branch_routes@.remove(branch_id),
        final(table).default_route == old(table).default_route,
        final(table).port_routes == old(table).port_routes,
{
    table.remove_branch_service_route(branch_id);
    branch_id
}

/// A connection leads to the devbox of a route: it has all that the route says
/// of it.
pub open spec fn leads_to(c: Arc<DevboxConnection>, route: DevboxRouteConfig) -> bool {
    &&& c.metadata.intercept_id == route.intercept_id
    &&& c.metadata.workload_id == route.workload_id
    &&& c.metadata.auth_token@ == route.auth_token@
    &&& c.metadata.websocket_url@ == route.websocket_url@
    &&& c.metadata.path_pattern@ == route.path_pattern@
    &&& c.metadata.port_mappings@ == route.port_mappings@
    &&& c.metadata.created_at_epoch_seconds == route.created_at_epoch_seconds
    &&& c.metadata.expires_at_epoch_seconds == route.expires_at_epoch_seconds
    &&& c.metadata.direct == route.direct
}

/// A branch has the services of a route: their names, their headers, and who
/// may use them for how long.
pub open spec fn serves(service: BranchServiceRoute, route: ProxyBranchRouteConfig) -> bool {
    &&& service.service_names@ == route.service_names@
    &&& service.headers@ == route.headers@
    &&& service.requires_auth == route.requires_auth
    &&& (service.access_level == AccessLevel::Personal) == (route.access_level
        == ProxyRouteAccessLevel::Personal)
    &&& (service.access_level == AccessLevel::Shared) == (route.access_level
        == ProxyRouteAccessLevel::Shared)
    &&& (service.access_level == AccessLevel::Public) == (route.access_level
        == ProxyRouteAccessLevel::Public)
    &&& service.timeout_ms == route.timeout_ms
}

/// The mode of a branch that a route was set for: the devbox of the route,
/// where it has one, and else what it was before.
pub open spec fn is_mode_after(
    before: Map<u128, BranchRoute>,
    route: ProxyBranchRouteConfig,
    mode: BranchMode,
) -> bool {
    match route.devbox_route {
        Some(devbox) => mode matches BranchMode::Devbox(c) && leads_to(c, devbox),
        None => mode == (if before.contains_key(route.branch_environment_id) {
            before[route.branch_environment_id].mode
        } else {
            BranchMode::Service
        }),
    }
}

/// A connection is made from a route, and a route from a connection, without
/// losing or changing anything of it.
pub proof fn law_connection_of_a_route(
    route: DevboxRouteConfig,
    c: Arc<DevboxConnection>,
    branch: Option<u128>,
    back: DevboxRouteConfig,
)
    requires
        call_ensures(devbox_connection_from_config, (route,), c),
        call_ensures(devbox_route_config_from_connection, (&*c, branch), back),
    ensures
        leads_to(c, route),
        back.intercept_id == route.intercept_id,
        back.workload_id == route.workload_id,
        back.auth_token@ == route.auth_token@,
        back.websocket_url@ == route.websocket_url@,
        back.path_pattern@ == route.path_pattern@,
        back.port_mappings@ == route.port_mappings@,
        back.created_at_epoch_seconds == route.created_at_epoch_seconds,
        back.expires_at_epoch_seconds == route.expires_at_epoch_seconds,
        direct_view(back.direct) == direct_view(route.direct),
        back.branch_environment_id == branch,
{
    assert(back@ == route_view_of(c.spec_metadata(), branch));
}

/// A devbox route for a branch sends that branch to its devbox, where it is
/// known; one for no branch sends all else there. A route of another workload
/// changes nothing, and the connections along a changed route end.
pub proof fn law_devbox_route_is_set(
    table: &mut RoutingTable,
    workload: u128,
    route: DevboxRouteConfig,
    r: Option<Option<u128>>,
    id: u128,
)
    requires
        call_ensures(set_devbox_route, (table, workload, route), r),
    ensures
        (r is None) == (route.workload_id != workload),
        r matches Some(key) ==> key == route.branch_environment_id,
        r is None ==> *final(table) == *old(table),
        final(table).port_routes@ == old(table).port_routes@,
        final(table).branch_routes@.dom() == old(table).branch_routes@.dom(),
        r is Some && route.branch_environment_id is None ==> {
            &&& final(table).default_route matches DefaultRoute::Devbox(c) && leads_to(c, route)
            &&& final(table).branch_routes@ == old(table).branch_routes@
        },
        r is Some && route.branch_environment_id is Some ==> {
            &&& final(table).default_route == old(table).default_route
            &&& old(table).branch_routes@.contains_key(id) ==> {
                let before = old(table).branch_routes@[id];
                let after = final(table).branch_routes@[id];
                if route.branch_environment_id == Some(id) {
                    after.service == before.service && (after.mode matches BranchMode::Devbox(c)
                        && leads_to(c, route))
                } else {
                    after == before
                }
            }
        },
{
    assert(final(table).branch_routes@.dom() =~= old(table).branch_routes@.dom());
}

/// Stopping a devbox sends its branch back to its services, or all that
/// belongs to no branch back to this host, and changes nothing else.
pub proof fn law_devbox_is_stopped(
    table: &mut RoutingTable,
    branch: Option<u128>,
    r: Option<u128>,
    id: u128,
)
    requires
        call_ensures(stop_devbox, (table, branch), r),
    ensures
        r == branch,
        final(table).port_routes@ == old(table).port_routes@,
        final(table).branch_routes@.dom() == old(table).branch_routes@.dom(),
        final(table).default_route == (if branch is None {
            DefaultRoute::Local
        } else {
            old(table).default_route
        }),
        old(table).branch_routes@.contains_key(id) ==> {
            let before = old(table).branch_routes@[id];
            let after = final(table).branch_routes@[id];
            if branch == Some(id) {
                after.service == before.service && after.mode is Service
            } else {
                after == before
            }
        },
{
    assert(final(table).branch_routes@.dom() =~= old(table).branch_routes@.dom());
}

/// The route of one branch gives it its services and, where it has one, its
/// devbox, and changes nothing else. One without services is refused.
pub proof fn law_branch_route_is_set(
    table: &mut RoutingTable,
    route: ProxyBranchRouteConfig,
    r: Result<u128, String>,
    other: u128,
)
    requires
        call_ensures(upsert_branch_service_route, (table, route), r),
    ensures
        (r is Err) == (route.service_names@.len() == 0),
        r is Err ==> *final(table) == *old(table),
        r matches Ok(id) ==> {
            &&& id == route.branch_environment_id
            &&& final(table).branch_routes@.contains_key(id)
            &&& serves(final(table).branch_routes@[id].service, route)
            &&& is_mode_after(
                old(table).branch_routes@,
                route,
                final(table).branch_routes@[id].mode,
            )
            &&& other != id ==> final(table).branch_routes@.contains_key(other) == old(
                table,
            ).branch_routes@.contains_key(other) && final(table).branch_routes@[other] == old(
                table,
            ).branch_routes@[other]
            &&& final(table).default_route == old(table).default_route
            &&& final(table).port_routes@ == old(table).port_routes@
        },
{
}

/// No branch is named twice.
pub open spec fn names_each_once(routes: Seq<ProxyBranchRouteConfig>) -> bool {
    forall|i: int, j: int|
        0 <= i < j < routes.len() ==> (#[trigger] routes[i]).branch_environment_id != (
        #[trigger] routes[j]).branch_environment_id
}

proof fn lemma_updates_of(routes: Seq<ProxyBranchRouteConfig>)
    requires
        names_each_once(routes),
    ensures
        distinct_branches(service_updates(routes)),
        forall|id: u128, s: BranchServiceRoute| #[trigger]
            service_updates(routes).contains((id, s)) <==> exists|i: int|
                0 <= i < routes.len() && (#[trigger] routes[i]).branch_environment_id == id
                    && routes[i].service_names@.len() != 0 && s == services_of(routes[i]),
    decreases routes.len(),
{
    let updates = service_updates(routes);
    if routes.len() > 0 {
        let n = routes.len() - 1;
        let shorter = routes.drop_last();
        assert forall|i: int, j: int| 0 <= i < j < shorter.len() implies (
        #[trigger] shorter[i]).branch_environment_id != (
        #[trigger] shorter[j]).branch_environment_id by {
            assert(shorter[i] == routes[i] && shorter[j] == routes[j]);
        }
        lemma_updates_of(shorter);
        let earlier = service_updates(shorter);
        assert(routes[n] == routes.last());
        assert forall|i: int, j: int| 0 <= i < j < updates.len() implies (#[trigger] updates[i]).0
            != (#[trigger] updates[j]).0 by {
            assert(updates[i] == earlier[i]);
            if j < earlier.len() {
                assert(updates[j] == earlier[j]);
                assert(earlier[i].0 != earlier[j].0);
            } else {
                assert(earlier.contains(earlier[i]));
                assert(earlier.contains((earlier[i].0, earlier[i].1)));
                let k = choose|k: int|
                    0 <= k < shorter.len() && (#[trigger] shorter[k]).branch_environment_id
                        == earlier[i].0 && shorter[k].service_names@.len() != 0 && earlier[i].1
                        == services_of(shorter[k]);
                assert(routes[k] == shorter[k]);
                assert(routes[k].branch_environment_id != routes[n].branch_environment_id);
            }
        }
        assert forall|id: u128, s: BranchServiceRoute| #[trigger]
            updates.contains((id, s)) <==> exists|i: int|
                0 <= i < routes.len() && (#[trigger] routes[i]).branch_environment_id == id
                    && routes[i].service_names@.len() != 0 && s == services_of(routes[i]) by {
            if updates.contains((id, s)) {
                let k = choose|k: int| 0 <= k < updates.len() && updates[k] == (id, s);
                if k < earlier.len() {
                    assert(earlier[k] == (id, s));
                    assert(earlier.contains((id, s)));
                    let i = choose|i: int|
                        0 <= i < shorter.len() && (#[trigger] shorter[i]).branch_environment_id
                            == id && shorter[i].service_names@.len() != 0 && s == services_of(
                            shorter[i],
                        );
                    assert(routes[i] == shorter[i]);
                } else {
                    assert(routes[n].branch_environment_id == id);
                }
            }
            if exists|i: int|
                0 <= i < routes.len() && (#[trigger] routes[i]).branch_environment_id == id
                    && routes[i].service_names@.len() != 0 && s == services_of(routes[i]) {
                let i = choose|i: int|
                    0 <= i < routes.len() && (#[trigger] routes[i]).branch_environment_id == id
                        && routes[i].service_names@.len() != 0 && s == services_of(routes[i]);
                if i < n {
                    assert(shorter[i] == routes[i]);
                    assert(earlier.contains((id, s)));
                    let k = choose|k: int| 0 <= k < earlier.len() && earlier[k] == (id, s);
                    assert(updates[k] == (id, s));
                } else {
                    assert(updates[updates.len() - 1] == (id, s));
                }
            }
        }
    } else {
        assert forall|id: u128, s: BranchServiceRoute| !#[trigger] updates.contains((id, s)) by {}
    }
}

proof fn lemma_devboxes_of(
    start: Map<u128, BranchRoute>,
    routes: Seq<ProxyBranchRouteConfig>,
    id: u128,
    i: int,
)
    requires
        names_each_once(routes),
        start.contains_key(id),
        0 <= i <= routes.len(),
        i < routes.len() ==> routes[i].branch_environment_id == id,
        i == routes.len() ==> !names_branch(routes, id),
    ensures
        ({
            let after = with_devboxes(start, devbox_updates(routes));
            &&& after.contains_key(id)
            &&& after[id].service == start[id].service
            &&& after[id].mode == (if i < routes.len() && routes[i].devbox_route is Some {
                BranchMode::Devbox(connection_of(routes[i].devbox_route->0))
            } else {
                start[id].mode
            })
        }),
    decreases routes.len(),
{
    if routes.len() > 0 {
        let n = routes.len() - 1;
        let shorter = routes.drop_last();
        assert forall|a: int, b: int| 0 <= a < b < shorter.len() implies (
        #[trigger] shorter[a]).branch_environment_id != (
        #[trigger] shorter[b]).branch_environment_id by {
            assert(shorter[a] == routes[a] && shorter[b] == routes[b]);
        }
        assert(routes[n] == routes.last());
        if i < n {
            assert(shorter[i] == routes[i]);
            lemma_devboxes_of(start, shorter, id, i);
            assert(routes[i].branch_environment_id != routes[n].branch_environment_id);
        } else {
            assert(!names_branch(shorter, id)) by {
                if names_branch(shorter, id) {
                    let k = choose|k: int|
                        0 <= k < shorter.len() && (#[trigger] shorter[k]).branch_environment_id
                            == id;
                    assert(routes[k] == shorter[k]);
                    if i == n {
                        assert(routes[k].branch_environment_id != routes[n].branch_environment_id);
                    } else {
                        assert(names_branch(routes, id));
                    }
                }
            }
            lemma_devboxes_of(start, shorter, id, shorter.len() as int);
            if i > n {
                assert(routes[n].branch_environment_id != id);
            }
        }
        if routes.last().devbox_route is Some {
            let boxes = devbox_updates(routes);
            assert(boxes.drop_last() =~= devbox_updates(shorter));
        }
    }
}

/// After a list of routes was set, the table knows just the branches that the
/// list gives services, each with those services and with the devbox of its
/// route, or else in the mode that it had. The connections of every branch end
/// that was known or is named.
pub proof fn law_branch_routes_are_replaced(
    table: &mut RoutingTable,
    routes: Vec<ProxyBranchRouteConfig>,
    r: Vec<u128>,
    i: int,
    id: u128,
)
    requires
        call_ensures(set_service_routes, (table, routes), r),
        names_each_once(routes@),
    ensures
        final(table).branch_routes@.contains_key(id) ==> exists|k: int|
            0 <= k < routes@.len() && (#[trigger] routes@[k]).branch_environment_id == id
                && routes@[k].service_names@.len() != 0,
        0 <= i < routes@.len() && routes@[i].service_names@.len() != 0 ==> {
            let branch = routes@[i].branch_environment_id;
            &&& final(table).branch_routes@.contains_key(branch)
            &&& serves(final(table).branch_routes@[branch].service, routes@[i])
            &&& is_mode_after(
                old(table).branch_routes@,
                routes@[i],
                final(table).branch_routes@[branch].mode,
            )
        },
        r@.contains(id) <==> old(table).branch_routes@.contains_key(id) || exists|k: int|
            0 <= k < routes@.len() && (#[trigger] routes@[k]).branch_environment_id == id,
        final(table).default_route == old(table).default_route,
        final(table).port_routes@ == old(table).port_routes@,
{
    let before = old(table).branch_routes@;
    let updates = service_updates(routes@);
    lemma_updates_of(routes@);
    law_replace_keeps_modes(before, updates);
    let replaced = replaced_routes(before, updates).0;
    lemma_devboxes_keep_keys(replaced, devbox_updates(routes@));
    let after = final(table).branch_routes@;
    assert(after.contains_key(id) == after.dom().contains(id));
    if after.contains_key(id) {
        assert(replaced.dom().contains(id));
        assert(replaced.contains_key(id));
        let u = choose|u: int| 0 <= u < updates.len() && (#[trigger] updates[u]).0 == id;
        assert(updates.contains((updates[u].0, updates[u].1)));
    }
    if 0 <= i < routes@.len() && routes@[i].service_names@.len() != 0 {
        let branch = routes@[i].branch_environment_id;
        let s = services_of(routes@[i]);
        assert(updates.contains((branch, s)));
        let u = choose|u: int| 0 <= u < updates.len() && updates[u] == (branch, s);
        assert(updates[u].0 == branch);
        assert(replaced.contains_key(branch));
        assert(replaced[updates[u].0] == (BranchRoute {
            service: updates[u].1,
            mode: kept_mode(before, updates[u].0),
        }));
        lemma_devboxes_of(replaced, routes@, branch, i);
    }
}

} // verus!
