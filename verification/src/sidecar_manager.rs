//! The sidecar proxies that are connected, and the devbox routes that they
//! are told.
use crate::generations::{entries_of, is_newest, no_empty_entry, without_entry, Generations};
use crate::ids::{id_text, id_to_string};
use crate::kube_rpc::{DevboxRouteConfig, DevboxRouteView};
use crate::maps::keys_of;
use std::collections::HashMap;
use vstd::prelude::*;

verus! {

broadcast use vstd::std_specs::hash::group_hash_axioms;

/// What the devbox routes of an environment hold, by workload.
pub open spec fn route_views(routes: Map<u128, DevboxRouteConfig>) -> Map<u128, DevboxRouteView> {
    routes.map_values(|r: DevboxRouteConfig| r@)
}

/// The connected proxies by environment, workload and generation, and the
/// devbox routes of each environment by workload.
pub struct SidecarProxyManager<T> {
    proxies: HashMap<u128, Generations<T>>,
    next: u64,
    snapshots: HashMap<u128, HashMap<u128, DevboxRouteConfig>>,
}

/// The proxies of an environment.
pub open spec fn workloads_of<T>(
    m: Map<u128, Map<u128, Map<u64, T>>>,
    environment_id: u128,
) -> Map<u128, Map<u64, T>> {
    if m.contains_key(environment_id) {
        m[environment_id]
    } else {
        Map::empty()
    }
}

/// The devbox routes of an environment.
pub open spec fn routes_of(
    m: Map<u128, Map<u128, DevboxRouteView>>,
    environment_id: u128,
) -> Map<u128, DevboxRouteView> {
    if m.contains_key(environment_id) {
        m[environment_id]
    } else {
        Map::empty()
    }
}

/// The routes with those of one environment replaced. An environment without
/// routes is not listed.
pub open spec fn with_routes(
    m: Map<u128, Map<u128, DevboxRouteView>>,
    environment_id: u128,
    routes: Map<u128, DevboxRouteView>,
) -> Map<u128, Map<u128, DevboxRouteView>> {
    if routes =~= Map::<u128, DevboxRouteView>::empty() {
        m.remove(environment_id)
    } else {
        m.insert(environment_id, routes)
    }
}

/// The routes that stay when those of a branch, or those of no branch, are
/// cleared.
pub open spec fn pruned(
    routes: Map<u128, DevboxRouteView>,
    branch: Option<u128>,
) -> Map<u128, DevboxRouteView> {
    routes.restrict(
        Set::new(
            |k: u128| routes.contains_key(k) && routes[k].branch_environment_id != branch,
        ),
    )
}

/// The newest proxies of an environment: each workload once, with the
/// greatest generation.
pub open spec fn are_latest<T>(list: Seq<(u128, u64)>, workloads: Map<u128, Map<u64, T>>) -> bool {
    &&& forall|i: int, j: int|
        0 <= i < j < list.len() ==> (#[trigger] list[i]).0 != (#[trigger] list[j]).0
    &&& forall|i: int|
        0 <= i < list.len() ==> workloads.contains_key((#[trigger] list[i]).0) && is_newest(
            workloads[list[i].0],
            list[i].1,
        )
    &&& forall|w: u128| #[trigger]
        workloads.contains_key(w) ==> exists|i: int|
            0 <= i < list.len() && (#[trigger] list[i]).0 == w
}

fn latest_clients<T>(workloads: &Generations<T>) -> (r: Vec<(u128, u64)>)
    requires
        no_empty_entry(workloads@),
    ensures
        are_latest(r@, workloads@),
{
    let keys: Vec<u128> = workloads.keys();
    let mut out: Vec<(u128, u64)> = Vec::new();
    let mut i: usize = 0;
    while i < keys.len()
        invariant
            i <= keys@.len(),
            no_empty_entry(workloads@),
            keys@.no_duplicates(),
            forall|k: u128| keys@.contains(k) <==> workloads@.contains_key(k),
            out@.len() == i,
            forall|k: int|
                0 <= k < i ==> (#[trigger] out@[k]).0 == keys@[k] && is_newest(
                    workloads@[keys@[k]],
                    out@[k].1,
                ),
        decreases keys@.len() - i,
    {
        let key: u128 = keys[i];
        proof {
            assert(keys@.contains(key));
        }
        match workloads.newest(key) {
            Some(g) => {
                out.push((key, g));
            },
            None => {
                proof {
                    assert(workloads@.contains_key(key));
                    assert(false);
                }
            },
        }
        i = i + 1;
    }
    proof {
        assert forall|k: int| 0 <= k < out@.len() implies workloads@.contains_key(
            (#[trigger] out@[k]).0,
        ) by {
            assert(keys@.contains(keys@[k]));
        }
        assert forall|w: u128| #[trigger] workloads@.contains_key(w) implies exists|k: int|
            0 <= k < out@.len() && (#[trigger] out@[k]).0 == w by {
            assert(keys@.contains(w));
            let k = choose|k: int| 0 <= k < keys@.len() && keys@[k] == w;
            assert(out@[k].0 == w);
        }
    }
    out
}

/// What a proxy is told of devbox routes.
#[derive(Debug)]
pub enum DevboxCall {
    Route(DevboxRouteConfig),
    Stop,
}

/// `call` is what the proxy of a workload is told when the routes of its
/// environment are set.
pub open spec fn is_route_call(
    call: DevboxCall,
    routes: Map<u128, DevboxRouteView>,
    workload_id: u128,
) -> bool {
    if routes.contains_key(workload_id) {
        call matches DevboxCall::Route(route) && route@ == routes[workload_id]
    } else {
        call is Stop
    }
}

impl<T> SidecarProxyManager<T> {
    /// The connected proxies by environment, workload and generation.
    pub closed spec fn proxy_map(&self) -> Map<u128, Map<u128, Map<u64, T>>> {
        self.proxies@.map_values(|g: Generations<T>| g@)
    }

    /// The devbox routes by environment and workload.
    pub closed spec fn snapshot_map(&self) -> Map<u128, Map<u128, DevboxRouteView>> {
        self.snapshots@.map_values(|m: HashMap<u128, DevboxRouteConfig>| route_views(m@))
    }

    /// The generation that the next proxy gets.
    pub closed spec fn next_generation(&self) -> u64 {
        self.next
    }

    /// Every environment that is listed has a workload, and every workload a
    /// proxy.
    pub open spec fn well_formed(&self) -> bool {
        forall|e: u128| #[trigger]
            self.proxy_map().contains_key(e) ==> no_empty_entry(self.proxy_map()[e]) && !(
            self.proxy_map()[e] =~= Map::<u128, Map<u64, T>>::empty())
    }

    pub fn new() -> (r: Self)
        ensures
            r.well_formed(),
            r.proxy_map() == Map::<u128, Map<u128, Map<u64, T>>>::empty(),
            r.snapshot_map() == Map::<u128, Map<u128, DevboxRouteView>>::empty(),
            r.next_generation() == 1,
    {
        let r: Self = SidecarProxyManager {
            proxies: HashMap::new(),
            next: 1,
            snapshots: HashMap::new(),
        };
        proof {
            assert(r.proxy_map() =~= Map::<u128, Map<u128, Map<u64, T>>>::empty());
            assert(r.snapshot_map() =~= Map::<u128, Map<u128, DevboxRouteView>>::empty());
        }
        r
    }

    /// Lists a proxy under a new generation.
    pub fn register_sidecar(&mut self, environment_id: u128, workload_id: u128, client: T) -> (r:
        u64)
        requires
            old(self).well_formed(),
        ensures
            final(self).well_formed(),
            r == old(self).next_generation(),
            final(self).next_generation() == (if r == u64::MAX {
                0u64
            } else {
                (r + 1) as u64
            }),
            final(self).snapshot_map() == old(self).snapshot_map(),
            ({
                let workloads = workloads_of(old(self).proxy_map(), environment_id);
                final(self).proxy_map() == old(self).proxy_map().insert(
                    environment_id,
                    workloads.insert(
                        workload_id,
                        entries_of(workloads, workload_id).insert(r, client),
                    ),
                )
            }),
    {
        let ghost before = self.proxy_map();
        let generation: u64 = self.next;
        self.next = self.next.wrapping_add(1);
        let mut workloads: Generations<T> = match self.proxies.remove(&environment_id) {
            Some(w) => w,
            None => Generations::new(),
        };
        proof {
            assert(workloads@ =~= workloads_of(before, environment_id));
            assert(no_empty_entry(workloads@)) by {
                if before.contains_key(environment_id) {
                    assert(no_empty_entry(before[environment_id]));
                }
            }
        }
        workloads.insert(workload_id, generation, client);
        let ghost filled = workloads@;
        self.proxies.insert(environment_id, workloads);
        proof {
            assert(self.proxy_map() =~= before.insert(environment_id, filled));
            assert forall|e: u128| #[trigger] self.proxy_map().contains_key(e) implies
                no_empty_entry(self.proxy_map()[e]) && !(self.proxy_map()[e] =~= Map::<
                u128,
                Map<u64, T>,
            >::empty()) by {
                if e != environment_id {
                    assert(before.contains_key(e));
                } else {
                    assert(filled.contains_key(workload_id));
                }
            }
        }
        generation
    }

    /// Forgets a proxy whose connection ended.
    pub fn remove_sidecar(&mut self, environment_id: u128, workload_id: u128, generation: u64)
        requires
            old(self).well_formed(),
        ensures
            final(self).well_formed(),
            final(self).next_generation() == old(self).next_generation(),
            final(self).snapshot_map() == old(self).snapshot_map(),
            ({
                let workloads = workloads_of(old(self).proxy_map(), environment_id);
                let left = without_entry(workloads, workload_id, generation);
                final(self).proxy_map() == (if left =~= workloads {
                    old(self).proxy_map()
                } else if left =~= Map::<u128, Map<u64, T>>::empty() {
                    old(self).proxy_map().remove(environment_id)
                } else {
                    old(self).proxy_map().insert(environment_id, left)
                })
            }),
    {
        let ghost before = self.proxy_map();
        match self.proxies.remove(&environment_id) {
            None => {
                proof {
                    assert(self.proxy_map() =~= before);
                    assert(without_entry(
                        workloads_of(before, environment_id),
                        workload_id,
                        generation,
                    ) =~= workloads_of(before, environment_id));
                }
            },
            Some(w) => {
                let mut workloads: Generations<T> = w;
                proof {
                    assert(before.contains_key(environment_id));
                    assert(workloads@ =~= before[environment_id]);
                }
                let removed: bool = workloads.remove(workload_id, generation);
                let ghost left = workloads@;
                if !workloads.is_empty() {
                    self.proxies.insert(environment_id, workloads);
                    proof {
                        assert(self.proxy_map() =~= before.insert(environment_id, left));
                        if left =~= before[environment_id] {
                            assert(before.insert(environment_id, left) =~= before);
                        }
                    }
                } else {
                    proof {
                        assert(!(before[environment_id] =~= Map::<u128, Map<u64, T>>::empty()));
                        assert(self.proxy_map() =~= before.remove(environment_id));
                    }
                }
                proof {
                    assert forall|e: u128| #[trigger] self.proxy_map().contains_key(e) implies
                        no_empty_entry(self.proxy_map()[e]) && !(self.proxy_map()[e] =~= Map::<
                        u128,
                        Map<u64, T>,
                    >::empty()) by {
                        assert(before.contains_key(e));
                    }
                }
            },
        }
    }

    /// The newest proxies of an environment.
    pub fn latest_clients_for_environment(&self, environment_id: u128) -> (r: Option<
        Vec<(u128, u64)>,
    >)
        requires
            self.well_formed(),
        ensures
            match r {
                Some(list) => self.proxy_map().contains_key(environment_id) && are_latest(
                    list@,
                    self.proxy_map()[environment_id],
                ),
                None => !self.proxy_map().contains_key(environment_id),
            },
    {
        match self.proxies.get(&environment_id) {
            Some(workloads) => {
                proof {
                    assert(self.proxy_map().contains_key(environment_id));
                }
                Some(latest_clients(workloads))
            },
            None => None,
        }
    }

    /// The newest proxy of a workload.
    pub fn latest_client(&self, environment_id: u128, workload_id: u128) -> (r: Option<u64>)
        ensures
            ({
                let entries = entries_of(
                    workloads_of(self.proxy_map(), environment_id),
                    workload_id,
                );
                match r {
                    Some(g) => is_newest(entries, g),
                    None => entries =~= Map::<u64, T>::empty(),
                }
            }),
    {
        match self.proxies.get(&environment_id) {
            Some(workloads) => {
                proof {
                    assert(self.proxy_map().contains_key(environment_id));
                }
                workloads.newest(workload_id)
            },
            None => None,
        }
    }

    /// A connected proxy.
    pub fn client(&self, environment_id: u128, workload_id: u128, generation: u64) -> (r: Option<&T>)
        ensures
            ({
                let entries = entries_of(
                    workloads_of(self.proxy_map(), environment_id),
                    workload_id,
                );
                match r {
                    Some(c) => entries.contains_key(generation) && *c == entries[generation],
                    None => !entries.contains_key(generation),
                }
            }),
    {
        match self.proxies.get(&environment_id) {
            Some(workloads) => workloads.get(workload_id, generation),
            None => None,
        }
    }

    /// Answers a heartbeat: a proxy that is not listed is told so.
    pub fn heartbeat(&self, workload_id: u128, environment_id: u128) -> (r: Result<(), String>)
        ensures
            ({
                let entries = entries_of(
                    workloads_of(self.proxy_map(), environment_id),
                    workload_id,
                );
                match r {
                    Ok(_) => !(entries =~= Map::<u64, T>::empty()),
                    Err(m) => entries =~= Map::<u64, T>::empty() && m@
                        == "sidecar proxy not registered"@,
                }
            }),
    {
        match self.latest_client(environment_id, workload_id) {
            Some(_) => Ok(()),
            None => Err("sidecar proxy not registered".to_owned()),
        }
    }

    // -----------------------------------------------------------------------
    // Devbox routes
    // -----------------------------------------------------------------------

    /// Takes the routes of an environment out, to be changed.
    fn take_routes(&mut self, environment_id: u128) -> (r: HashMap<u128, DevboxRouteConfig>)
        ensures
            route_views(r@) == routes_of(old(self).snapshot_map(), environment_id),
            final(self).snapshot_map() == old(self).snapshot_map().remove(environment_id),
            final(self).proxy_map() == old(self).proxy_map(),
            final(self).next_generation() == old(self).next_generation(),
    {
        let ghost before = self.snapshot_map();
        let r: HashMap<u128, DevboxRouteConfig> = match self.snapshots.remove(&environment_id) {
            Some(m) => m,
            None => HashMap::new(),
        };
        proof {
            assert(self.snapshot_map() =~= before.remove(environment_id));
            assert(route_views(r@) =~= routes_of(before, environment_id));
        }
        r
    }

    /// Puts the routes of an environment back, unless none is left.
    fn put_routes(&mut self, environment_id: u128, routes: HashMap<u128, DevboxRouteConfig>)
        requires
            !old(self).snapshot_map().contains_key(environment_id),
        ensures
            final(self).snapshot_map() == with_routes(
                old(self).snapshot_map(),
                environment_id,
                route_views(routes@),
            ),
            final(self).proxy_map() == old(self).proxy_map(),
            final(self).next_generation() == old(self).next_generation(),
    {
        let ghost before = self.snapshot_map();
        let ghost given = route_views(routes@);
        if routes.is_empty() {
            proof {
                assert(given =~= Map::<u128, DevboxRouteView>::empty());
                assert(before.remove(environment_id) =~= before);
            }
        } else {
            proof {
                assert(!(given =~= Map::<u128, DevboxRouteView>::empty())) by {
                    if given =~= Map::<u128, DevboxRouteView>::empty() {
                        assert forall|k: u128| !routes@.dom().contains(k) by {
                            if routes@.dom().contains(k) {
                                assert(given.contains_key(k));
                            }
                        }
                        assert(routes@.dom() =~= Set::<u128>::empty());
                        assert(routes@ =~= Map::<u128, DevboxRouteConfig>::empty());
                    }
                }
            }
            self.snapshots.insert(environment_id, routes);
            proof {
                assert(self.snapshot_map() =~= before.insert(environment_id, given));
            }
        }
    }

    /// Sets the devbox routes of an environment, and tells what each of its
    /// proxies is told: its route, or to stop.
    pub fn set_devbox_routes(
        &mut self,
        environment_id: u128,
        routes: HashMap<u128, DevboxRouteConfig>,
    ) -> (r: Vec<(u128, u64, DevboxCall)>)
        requires
            old(self).well_formed(),
        ensures
            final(self).well_formed(),
            final(self).next_generation() == old(self).next_generation(),
            final(self).proxy_map() == old(self).proxy_map(),
            final(self).snapshot_map() == old(self).snapshot_map().insert(
                environment_id,
                route_views(routes@),
            ),
            are_latest(
                r@.map_values(|c: (u128, u64, DevboxCall)| (c.0, c.1)),
                workloads_of(old(self).proxy_map(), environment_id),
            ),
            forall|i: int|
                0 <= i < r@.len() ==> is_route_call(
                    (#[trigger] r@[i]).2,
                    route_views(routes@),
                    r@[i].0,
                ),
    {
        let ghost given = route_views(routes@);
        let list: Vec<(u128, u64)> = match self.latest_clients_for_environment(environment_id) {
            Some(list) => list,
            None => Vec::new(),
        };
        let mut out: Vec<(u128, u64, DevboxCall)> = Vec::new();
        let mut i: usize = 0;
        while i < list.len()
            invariant
                i <= list@.len(),
                given == route_views(routes@),
                out@.len() == i,
                forall|k: int|
                    0 <= k < i ==> (#[trigger] out@[k]).0 == list@[k].0 && out@[k].1 == list@[k].1
                        && is_route_call(out@[k].2, given, out@[k].0),
            decreases list@.len() - i,
        {
            let (workload_id, generation) = list[i];
            let call: DevboxCall = match routes.get(&workload_id) {
                Some(route) => DevboxCall::Route(route.clone()),
                None => DevboxCall::Stop,
            };
            out.push((workload_id, generation, call));
            i = i + 1;
        }
        proof {
            assert(out@.map_values(|c: (u128, u64, DevboxCall)| (c.0, c.1)) =~= list@);
        }
        let ghost before = self.snapshot_map();
        self.snapshots.insert(environment_id, routes);
        proof {
            assert(self.snapshot_map() =~= before.insert(environment_id, given));
        }
        out
    }

    /// Sets the devbox route of a workload; gives the proxy that is told of
    /// it.
    pub fn set_devbox_route(&mut self, environment_id: u128, route: DevboxRouteConfig) -> (r: Option<
        u64,
    >)
        requires
            old(self).well_formed(),
        ensures
            final(self).well_formed(),
            final(self).next_generation() == old(self).next_generation(),
            final(self).proxy_map() == old(self).proxy_map(),
            final(self).snapshot_map() == old(self).snapshot_map().insert(
                environment_id,
                routes_of(old(self).snapshot_map(), environment_id).insert(
                    route.workload_id,
                    route@,
                ),
            ),
            ({
                let entries = entries_of(
                    workloads_of(old(self).proxy_map(), environment_id),
                    route.workload_id,
                );
                match r {
                    Some(g) => is_newest(entries, g),
                    None => entries =~= Map::<u64, T>::empty(),
                }
            }),
    {
        let ghost before = self.snapshot_map();
        let client: Option<u64> = self.latest_client(environment_id, route.workload_id);
        let mut routes: HashMap<u128, DevboxRouteConfig> = self.take_routes(environment_id);
        let ghost known = routes@;
        let workload_id: u128 = route.workload_id;
        let ghost view = route@;
        routes.insert(workload_id, route);
        proof {
            assert(route_views(routes@) =~= route_views(known).insert(workload_id, view));
        }
        self.put_routes(environment_id, routes);
        proof {
            let filled = route_views(known).insert(workload_id, view);
            assert(filled.contains_key(workload_id));
            assert(self.snapshot_map() =~= before.insert(environment_id, filled));
        }
        client
    }

    /// Takes the devbox route of a workload away, if it is for the branch, or
    /// for no branch; gives the proxy that is told to stop.
    pub fn remove_devbox_route(
        &mut self,
        environment_id: u128,
        workload_id: u128,
        branch: Option<u128>,
    ) -> (r: Option<u64>)
        requires
            old(self).well_formed(),
        ensures
            final(self).well_formed(),
            final(self).next_generation() == old(self).next_generation(),
            final(self).proxy_map() == old(self).proxy_map(),
            ({
                let routes = routes_of(old(self).snapshot_map(), environment_id);
                let listed = routes.contains_key(workload_id)
                    && routes[workload_id].branch_environment_id == branch;
                let entries = entries_of(
                    workloads_of(old(self).proxy_map(), environment_id),
                    workload_id,
                );
                &&& final(self).snapshot_map() == with_routes(
                    old(self).snapshot_map(),
                    environment_id,
                    if listed {
                        routes.remove(workload_id)
                    } else {
                        routes
                    },
                )
                &&& match r {
                    Some(g) => listed && is_newest(entries, g),
                    None => !listed || entries =~= Map::<u64, T>::empty(),
                }
            }),
    {
        let ghost before = self.snapshot_map();
        let mut routes: HashMap<u128, DevboxRouteConfig> = self.take_routes(environment_id);
        let ghost known = routes@;
        let listed: bool = match routes.get(&workload_id) {
            Some(route) => same_branch(route.branch_environment_id, branch),
            None => false,
        };
        proof {
            assert(route_views(known).contains_key(workload_id) <==> known.contains_key(
                workload_id,
            ));
        }
        if listed {
            routes.remove(&workload_id);
            proof {
                assert(route_views(routes@) =~= route_views(known).remove(workload_id));
            }
        }
        let ghost left = route_views(routes@);
        self.put_routes(environment_id, routes);
        proof {
            assert(self.snapshot_map() =~= with_routes(before, environment_id, left));
        }
        if listed {
            self.latest_client(environment_id, workload_id)
        } else {
            None
        }
    }

    /// Clears the devbox routes of a branch, or of no branch; gives the
    /// proxies that are told to stop.
    pub fn clear_devbox_routes(&mut self, environment_id: u128, branch: Option<u128>) -> (r: Vec<
        (u128, u64),
    >)
        requires
            old(self).well_formed(),
        ensures
            final(self).well_formed(),
            final(self).next_generation() == old(self).next_generation(),
            final(self).proxy_map() == old(self).proxy_map(),
            final(self).snapshot_map() == with_routes(
                old(self).snapshot_map(),
                environment_id,
                pruned(routes_of(old(self).snapshot_map(), environment_id), branch),
            ),
            are_latest(r@, workloads_of(old(self).proxy_map(), environment_id)),
    {
        let ghost before = self.snapshot_map();
        let mut routes: HashMap<u128, DevboxRouteConfig> = self.take_routes(environment_id);
        let ghost known = routes@;
        let keys: Vec<u128> = keys_of(&routes);
        let mut i: usize = 0;
        proof {
            assert forall|k: int| 0 <= k < keys@.len() implies routes@.contains_key(
                #[trigger] keys@[k],
            ) by {
                assert(keys@.contains(keys@[k]));
            }
        }
        while i < keys.len()
            invariant
                i <= keys@.len(),
                keys@.no_duplicates(),
                forall|k: u128| keys@.contains(k) <==> known.contains_key(k),
                forall|k: u128| #[trigger]
                    routes@.contains_key(k) ==> known.contains_key(k) && routes@[k] == known[k],
                forall|k: int|
                    #![trigger keys@[k]]
                    0 <= k < keys@.len() ==> (routes@.contains_key(keys@[k]) <==> k >= i
                        || known[keys@[k]].branch_environment_id != branch),
            decreases keys@.len() - i,
        {
            let key: u128 = keys[i];
            proof {
                assert(keys@.contains(key));
                assert(routes@.contains_key(keys@[i as int]));
            }
            let drop: bool = match routes.get(&key) {
                Some(route) => same_branch(route.branch_environment_id, branch),
                None => false,
            };
            let ghost current = routes@;
            if drop {
                routes.remove(&key);
                proof {
                    assert(routes@ =~= current.remove(key));
                }
            }
            i = i + 1;
        }
        let ghost left = route_views(routes@);
        proof {
            let all = route_views(known);
            assert forall|k: u128| left.contains_key(k) <==> pruned(all, branch).contains_key(
                k,
            ) by {
                if known.contains_key(k) {
                    assert(keys@.contains(k));
                    let j = choose|j: int| 0 <= j < keys@.len() && keys@[j] == k;
                    assert(keys@[j] == k);
                    assert(all[k].branch_environment_id == known[k].branch_environment_id);
                }
            }
            assert(left =~= pruned(all, branch));
        }
        self.put_routes(environment_id, routes);
        proof {
            assert(self.snapshot_map() =~= with_routes(before, environment_id, left));
        }
        match self.latest_clients_for_environment(environment_id) {
            Some(list) => list,
            None => Vec::new(),
        }
    }

    /// The devbox route that a proxy is told when it connects again, and the
    /// proxy.
    pub fn replay_devbox_route(&self, environment_id: u128, workload_id: u128) -> (r: Option<
        (DevboxRouteConfig, u64),
    >)
        ensures
            ({
                let routes = routes_of(self.snapshot_map(), environment_id);
                let entries = entries_of(
                    workloads_of(self.proxy_map(), environment_id),
                    workload_id,
                );
                match r {
                    Some((route, g)) => {
                        &&& routes.contains_key(workload_id)
                        &&& route@ == routes[workload_id]
                        &&& is_newest(entries, g)
                    },
                    None => !routes.contains_key(workload_id) || entries =~= Map::<
                        u64,
                        T,
                    >::empty(),
                }
            }),
    {
        match self.snapshots.get(&environment_id) {
            None => None,
            Some(routes) => {
                proof {
                    assert(self.snapshot_map().contains_key(environment_id));
                    assert(routes_of(self.snapshot_map(), environment_id) == route_views(routes@));
                }
                match routes.get(&workload_id) {
                    None => None,
                    Some(route) => match self.latest_client(environment_id, workload_id) {
                        Some(g) => Some((route.clone(), g)),
                        None => None,
                    },
                }
            },
        }
    }
}

fn same_branch(a: Option<u128>, b: Option<u128>) -> (r: bool)
    ensures
        r == (a == b),
{
    match a {
        Some(x) => match b {
            Some(y) => x == y,
            None => false,
        },
        None => b.is_none(),
    }
}

/// A proxy that connects again is told the route that was last set for its
/// workload.
pub proof fn law_replayed_route(
    m: Map<u128, Map<u128, DevboxRouteView>>,
    environment_id: u128,
    route: DevboxRouteView,
)
    ensures
        routes_of(
            m.insert(
                environment_id,
                routes_of(m, environment_id).insert(route.workload_id, route),
            ),
            environment_id,
        )[route.workload_id] == route,
{
}

/// Clearing the routes of a branch leaves those of other branches, and no
/// route of that branch.
pub proof fn law_clear_is_exact(
    routes: Map<u128, DevboxRouteView>,
    branch: Option<u128>,
    workload_id: u128,
)
    requires
        routes.contains_key(workload_id),
    ensures
        pruned(routes, branch).contains_key(workload_id) <==> routes[workload_id].branch_environment_id
            != branch,
        pruned(routes, branch).contains_key(workload_id) ==> pruned(routes, branch)[workload_id]
            == routes[workload_id],
{
}

// ---------------------------------------------------------------------------
// A connection of a proxy
// ---------------------------------------------------------------------------

/// What a connection has registered.
#[derive(Debug, Clone, Copy, PartialEq, Eq, Structural)]
pub struct SidecarConnection {
    pub environment_id: u128,
    pub workload_id: u128,
    pub generation: u64,
}

/// Ends a connection: the proxy that it registered, if it did, is forgotten.
pub fn handle_disconnect<T>(
    manager: &mut SidecarProxyManager<T>,
    registered: Option<SidecarConnection>,
)
    requires
        old(manager).well_formed(),
    ensures
        final(manager).well_formed(),
        final(manager).next_generation() == old(manager).next_generation(),
        final(manager).snapshot_map() == old(manager).snapshot_map(),
        match registered {
            None => final(manager).proxy_map() == old(manager).proxy_map(),
            Some(c) => {
                let workloads = workloads_of(old(manager).proxy_map(), c.environment_id);
                let left = without_entry(workloads, c.workload_id, c.generation);
                final(manager).proxy_map() == (if left =~= workloads {
                    old(manager).proxy_map()
                } else if left =~= Map::<u128, Map<u64, T>>::empty() {
                    old(manager).proxy_map().remove(c.environment_id)
                } else {
                    old(manager).proxy_map().insert(c.environment_id, left)
                })
            },
        },
{
    if let Some(c) = registered {
        manager.remove_sidecar(c.environment_id, c.workload_id, c.generation);
    }
}

// ---------------------------------------------------------------------------
// Failed calls
// ---------------------------------------------------------------------------

/// A call that did not reach a proxy.
#[derive(Debug, Clone, Copy, PartialEq, Eq, Structural)]
pub enum FailedCall {
    SendRoutes,
    ClearRoutes,
    SendRoute,
    ClearRoute,
    UpdateBranch,
    RemoveBranch { branch_id: u128 },
    ReplayTransport,
    Replay,
}

/// What is said of a call that did not reach the proxy of a workload.
pub open spec fn failed_call_text(call: FailedCall, workload_id: u128, error: Seq<char>) -> Seq<
    char,
> {
    let w = id_text(workload_id);
    match call {
        FailedCall::SendRoutes => "Failed to send devbox routes to sidecar (workload "@ + w + "): "@
            + error,
        FailedCall::ClearRoutes => "Failed to clear devbox routes for workload "@ + w + ": "@
            + error,
        FailedCall::SendRoute => "Failed to send devbox route to workload "@ + w + ": "@ + error,
        FailedCall::ClearRoute => "Failed to clear devbox route for workload "@ + w + ": "@ + error,
        FailedCall::UpdateBranch => "Failed to update branch service route for workload "@ + w
            + ": "@ + error,
        FailedCall::RemoveBranch { branch_id } =>
        "Failed to remove branch service route for workload "@ + w + " branch "@ + id_text(
            branch_id,
        ) + ": "@ + error,
        FailedCall::ReplayTransport => "Failed to replay devbox route for workload "@ + w
            + " (RPC error): "@ + error,
        FailedCall::Replay => "Failed to replay devbox route for workload "@ + w + ": "@ + error,
    }
}

impl FailedCall {
    pub fn message(&self, workload_id: u128, error: &str) -> (r: String)
        ensures
            r@ == failed_call_text(*self, workload_id, error@),
    {
        let w: String = id_to_string(workload_id);
        let mut out: String = match self {
            FailedCall::SendRoutes => "Failed to send devbox routes to sidecar (workload ".to_owned(),
            FailedCall::ClearRoutes => "Failed to clear devbox routes for workload ".to_owned(),
            FailedCall::SendRoute => "Failed to send devbox route to workload ".to_owned(),
            FailedCall::ClearRoute => "Failed to clear devbox route for workload ".to_owned(),
            FailedCall::UpdateBranch =>
            "Failed to update branch service route for workload ".to_owned(),
            FailedCall::RemoveBranch { branch_id: _ } =>
            "Failed to remove branch service route for workload ".to_owned(),
            FailedCall::ReplayTransport =>
            "Failed to replay devbox route for workload ".to_owned(),
            FailedCall::Replay => "Failed to replay devbox route for workload ".to_owned(),
        };
        out.append(w.as_str());
        match self {
            FailedCall::SendRoutes => {
                out.append("): ");
            },
            FailedCall::RemoveBranch { branch_id } => {
                let b: String = id_to_string(*branch_id);
                out.append(" branch ");
                out.append(b.as_str());
                out.append(": ");
            },
            FailedCall::ReplayTransport => {
                out.append(" (RPC error): ");
            },
            _ => {
                out.append(": ");
            },
        }
        out.append(error);
        out
    }
}

// ---------------------------------------------------------------------------
// Laws
// ---------------------------------------------------------------------------

/// A proxy of a workload of an environment is listed under a generation.
pub open spec fn is_listed<T>(
    m: Map<u128, Map<u128, Map<u64, T>>>,
    environment: u128,
    workload: u128,
    generation: u64,
) -> bool {
    m.contains_key(environment) && m[environment].contains_key(workload)
        && m[environment][workload].contains_key(generation)
}

/// A proxy that registers is listed under its new generation, and is the one
/// that is found there. No other proxy is touched, and no route.
pub proof fn law_proxy_is_registered<T>(
    manager: &mut SidecarProxyManager<T>,
    environment: u128,
    workload: u128,
    client: T,
    r: u64,
    e: u128,
    w: u128,
    g: u64,
)
    requires
        old(manager).well_formed(),
        call_ensures(
            SidecarProxyManager::<T>::register_sidecar,
            (manager, environment, workload, client),
            r,
        ),
    ensures
        is_listed(final(manager).proxy_map(), environment, workload, r),
        final(manager).proxy_map()[environment][workload][r] == client,
        (e, w, g) != (environment, workload, r) ==> is_listed(final(manager).proxy_map(), e, w, g)
            == is_listed(old(manager).proxy_map(), e, w, g) && (is_listed(
            old(manager).proxy_map(),
            e,
            w,
            g,
        ) ==> final(manager).proxy_map()[e][w][g] == old(manager).proxy_map()[e][w][g]),
        final(manager).snapshot_map() == old(manager).snapshot_map(),
        r < u64::MAX ==> final(manager).next_generation() > r,
{
}

/// A proxy that is gone is no longer listed, and no other is touched.
pub proof fn law_proxy_is_removed<T>(
    manager: &mut SidecarProxyManager<T>,
    environment: u128,
    workload: u128,
    generation: u64,
    e: u128,
    w: u128,
    g: u64,
)
    requires
        old(manager).well_formed(),
        call_ensures(
            SidecarProxyManager::<T>::remove_sidecar,
            (manager, environment, workload, generation),
            (),
        ),
    ensures
        !is_listed(final(manager).proxy_map(), environment, workload, generation),
        (e, w, g) != (environment, workload, generation) ==> is_listed(
            final(manager).proxy_map(),
            e,
            w,
            g,
        ) == is_listed(old(manager).proxy_map(), e, w, g),
        final(manager).snapshot_map() == old(manager).snapshot_map(),
{
    let before = old(manager).proxy_map();
    let after = final(manager).proxy_map();
    let workloads = workloads_of(before, environment);
    let left = without_entry(workloads, workload, generation);
    let entries = entries_of(workloads, workload);
    if entries.contains_key(generation) {
        assert(!(left =~= workloads)) by {
            if left =~= workloads {
                assert(entries_of(left, workload).contains_key(generation));
            }
        }
        if is_listed(before, environment, w, g) && (w, g) != (workload, generation) {
            assert(left.contains_key(w)) by {
                if w == workload {
                    assert(entries.remove(generation).contains_key(g));
                }
            }
        }
    }
}

/// The newest proxy of a workload is one that is listed, and none of the
/// workload has a greater generation; there is none just where none is listed.
pub proof fn law_newest_proxy_is_found<T>(
    manager: SidecarProxyManager<T>,
    environment: u128,
    workload: u128,
    r: Option<u64>,
    g: u64,
)
    requires
        call_ensures(
            SidecarProxyManager::<T>::latest_client,
            (&manager, environment, workload),
            r,
        ),
    ensures
        is_listed(manager.proxy_map(), environment, workload, g) ==> (r matches Some(n) && n >= g),
        r matches Some(n) ==> is_listed(manager.proxy_map(), environment, workload, n),
{
    let entries = entries_of(workloads_of(manager.proxy_map(), environment), workload);
    if is_listed(manager.proxy_map(), environment, workload, g) {
        assert(entries.contains_key(g));
    }
}

/// When the routes of an environment are set, the newest proxy of each of its
/// workloads is told: its own route, where it has one, and else to stop. The
/// routes are kept for proxies that connect later.
pub proof fn law_every_proxy_is_told<T>(
    manager: &mut SidecarProxyManager<T>,
    environment: u128,
    routes: HashMap<u128, DevboxRouteConfig>,
    r: Vec<(u128, u64, DevboxCall)>,
    w: u128,
    g: u64,
)
    requires
        old(manager).well_formed(),
        call_ensures(
            SidecarProxyManager::<T>::set_devbox_routes,
            (manager, environment, routes),
            r,
        ),
    ensures
        is_listed(old(manager).proxy_map(), environment, w, g) ==> exists|i: int|
            0 <= i < r@.len() && (#[trigger] r@[i]).0 == w && r@[i].1 >= g,
        forall|i: int|
            0 <= i < r@.len() ==> is_listed(
                old(manager).proxy_map(),
                environment,
                (#[trigger] r@[i]).0,
                r@[i].1,
            ),
        forall|i: int|
            0 <= i < r@.len() ==> if routes@.contains_key((#[trigger] r@[i]).0) {
                r@[i].2 matches DevboxCall::Route(told) && told@ == routes@[r@[i].0]@
            } else {
                r@[i].2 is Stop
            },
        final(manager).snapshot_map().contains_key(environment),
        final(manager).snapshot_map()[environment].contains_key(w) == routes@.contains_key(w),
        routes@.contains_key(w) ==> final(manager).snapshot_map()[environment][w] == routes@[w]@,
        final(manager).proxy_map() == old(manager).proxy_map(),
{
    let workloads = workloads_of(old(manager).proxy_map(), environment);
    let list = r@.map_values(|c: (u128, u64, DevboxCall)| (c.0, c.1));
    assert(list.len() == r@.len());
    assert forall|i: int| 0 <= i < r@.len() implies #[trigger] list[i] == (r@[i].0, r@[i].1) by {}
    if is_listed(old(manager).proxy_map(), environment, w, g) {
        assert(workloads.contains_key(w));
        let i = choose|i: int| 0 <= i < list.len() && (#[trigger] list[i]).0 == w;
        assert(r@[i].0 == w);
        assert(is_newest(workloads[w], list[i].1));
        assert(workloads[w].contains_key(g));
    }
    assert forall|i: int| 0 <= i < r@.len() implies is_listed(
        old(manager).proxy_map(),
        environment,
        (#[trigger] r@[i]).0,
        r@[i].1,
    ) by {
        assert(workloads.contains_key(list[i].0));
        assert(is_newest(workloads[list[i].0], list[i].1));
    }
    assert forall|i: int| 0 <= i < r@.len() implies (if routes@.contains_key(
        (#[trigger] r@[i]).0,
    ) {
        r@[i].2 matches DevboxCall::Route(told) && told@ == routes@[r@[i].0]@
    } else {
        r@[i].2 is Stop
    }) by {
        assert(is_route_call(r@[i].2, route_views(routes@), r@[i].0));
        assert(route_views(routes@).contains_key(r@[i].0) == routes@.contains_key(r@[i].0));
    }
    assert(route_views(routes@).contains_key(w) == routes@.contains_key(w));
}

/// Clearing the routes of a branch, or of no branch, takes away just these, and
/// tells the newest proxy of each workload.
pub proof fn law_routes_of_a_branch_are_cleared<T>(
    manager: &mut SidecarProxyManager<T>,
    environment: u128,
    branch: Option<u128>,
    r: Vec<(u128, u64)>,
    e: u128,
    w: u128,
    g: u64,
)
    requires
        old(manager).well_formed(),
        call_ensures(
            SidecarProxyManager::<T>::clear_devbox_routes,
            (manager, environment, branch),
            r,
        ),
    ensures
        ({
            let before = routes_of(old(manager).snapshot_map(), e);
            let after = routes_of(final(manager).snapshot_map(), e);
            &&& after.contains_key(w) == (before.contains_key(w) && !(e == environment
                && before[w].branch_environment_id == branch))
            &&& after.contains_key(w) ==> after[w] == before[w]
        }),
        is_listed(old(manager).proxy_map(), environment, w, g) ==> exists|i: int|
            0 <= i < r@.len() && (#[trigger] r@[i]).0 == w && r@[i].1 >= g,
        final(manager).proxy_map() == old(manager).proxy_map(),
{
    let workloads = workloads_of(old(manager).proxy_map(), environment);
    if is_listed(old(manager).proxy_map(), environment, w, g) {
        assert(workloads.contains_key(w));
        let i = choose|i: int| 0 <= i < r@.len() && (#[trigger] r@[i]).0 == w;
        assert(is_newest(workloads[w], r@[i].1));
        assert(workloads[w].contains_key(g));
    }
    let before = routes_of(old(manager).snapshot_map(), environment);
    let left = pruned(before, branch);
    if left =~= Map::<u128, DevboxRouteView>::empty() {
        if e == environment && before.contains_key(w) && before[w].branch_environment_id != branch {
            assert(left.contains_key(w));
        }
    }
}

/// A proxy that connects again is told the route of its workload, where there
/// is one, and it is the newest that is told.
pub proof fn law_route_is_replayed<T>(
    manager: SidecarProxyManager<T>,
    environment: u128,
    workload: u128,
    r: Option<(DevboxRouteConfig, u64)>,
    g: u64,
)
    requires
        call_ensures(
            SidecarProxyManager::<T>::replay_devbox_route,
            (&manager, environment, workload),
            r,
        ),
        is_listed(manager.proxy_map(), environment, workload, g),
    ensures
        ({
            let routes = routes_of(manager.snapshot_map(), environment);
            match r {
                Some((route, n)) => routes.contains_key(workload) && route@ == routes[workload] && n
                    >= g,
                None => !routes.contains_key(workload),
            }
        }),
{
    let entries = entries_of(workloads_of(manager.proxy_map(), environment), workload);
    assert(entries.contains_key(g));
}

/// A route that is set is kept for its workload, and the newest proxy of the
/// workload is told. No other route is touched.
pub proof fn law_route_is_kept_for_its_workload<T>(
    manager: &mut SidecarProxyManager<T>,
    environment: u128,
    route: DevboxRouteConfig,
    r: Option<u64>,
    e: u128,
    w: u128,
    g: u64,
)
    requires
        old(manager).well_formed(),
        call_ensures(
            SidecarProxyManager::<T>::set_devbox_route,
            (manager, environment, route),
            r,
        ),
    ensures
        ({
            let before = routes_of(old(manager).snapshot_map(), e);
            let after = routes_of(final(manager).snapshot_map(), e);
            let own = e == environment && w == route.workload_id;
            &&& own ==> after.contains_key(w) && after[w] == route@
            &&& !own ==> after.contains_key(w) == before.contains_key(w)
            &&& !own && before.contains_key(w) ==> after[w] == before[w]
        }),
        is_listed(old(manager).proxy_map(), environment, route.workload_id, g) ==> (r matches Some(
            n,
        ) && n >= g),
        r matches Some(n) ==> is_listed(
            old(manager).proxy_map(),
            environment,
            route.workload_id,
            n,
        ),
        final(manager).proxy_map() == old(manager).proxy_map(),
{
    let entries = entries_of(
        workloads_of(old(manager).proxy_map(), environment),
        route.workload_id,
    );
    if is_listed(old(manager).proxy_map(), environment, route.workload_id, g) {
        assert(entries.contains_key(g));
    }
}

/// A route is taken away just where it is of the branch that was named. The
/// newest proxy of the workload is then told, and no other route is touched.
pub proof fn law_route_of_a_branch_is_removed<T>(
    manager: &mut SidecarProxyManager<T>,
    environment: u128,
    workload: u128,
    branch: Option<u128>,
    r: Option<u64>,
    e: u128,
    w: u128,
    g: u64,
)
    requires
        old(manager).well_formed(),
        call_ensures(
            SidecarProxyManager::<T>::remove_devbox_route,
            (manager, environment, workload, branch),
            r,
        ),
    ensures
        ({
            let before = routes_of(old(manager).snapshot_map(), e);
            let after = routes_of(final(manager).snapshot_map(), e);
            let routes = routes_of(old(manager).snapshot_map(), environment);
            let listed = routes.contains_key(workload) && routes[workload].branch_environment_id
                == branch;
            &&& after.contains_key(w) <==> before.contains_key(w) && !(listed && e == environment
                && w == workload)
            &&& after.contains_key(w) ==> after[w] == before[w]
            &&& r is Some ==> listed
            &&& listed && is_listed(old(manager).proxy_map(), environment, workload, g) ==> (
            r matches Some(n) && n >= g)
        }),
        final(manager).proxy_map() == old(manager).proxy_map(),
{
    let routes = routes_of(old(manager).snapshot_map(), environment);
    let listed = routes.contains_key(workload) && routes[workload].branch_environment_id == branch;
    let left = if listed {
        routes.remove(workload)
    } else {
        routes
    };
    if e == environment {
        assert(left.contains_key(w) <==> routes.contains_key(w) && !(listed && w == workload));
    }
    let entries = entries_of(workloads_of(old(manager).proxy_map(), environment), workload);
    if is_listed(old(manager).proxy_map(), environment, workload, g) {
        assert(entries.contains_key(g));
    }
}

/// A workload is heard of just while one of its proxies is listed.
pub proof fn law_listed_workloads_are_heard<T>(
    manager: SidecarProxyManager<T>,
    workload: u128,
    environment: u128,
    r: Result<(), String>,
    g: u64,
)
    requires
        call_ensures(
            SidecarProxyManager::<T>::heartbeat,
            (&manager, workload, environment),
            r,
        ),
    ensures
        is_listed(manager.proxy_map(), environment, workload, g) ==> r is Ok,
        r is Ok ==> exists|h: u64| #[trigger]
            is_listed(manager.proxy_map(), environment, workload, h),
{
    let entries = entries_of(workloads_of(manager.proxy_map(), environment), workload);
    if is_listed(manager.proxy_map(), environment, workload, g) {
        assert(entries.contains_key(g));
    }
    if r is Ok {
        if forall|h: u64| !#[trigger] is_listed(manager.proxy_map(), environment, workload, h) {
            assert forall|h: u64| !#[trigger] entries.contains_key(h) by {
                assert(!is_listed(manager.proxy_map(), environment, workload, h));
            }
            assert(entries =~= Map::<u64, T>::empty());
        }
    }
}

} // verus!
