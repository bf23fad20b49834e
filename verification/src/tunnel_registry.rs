//! The tunnels of clusters, newest first, and what went through them.
use std::collections::{BTreeMap, HashMap};
use vstd::prelude::*;
use vstd::std_specs::btree::spec_keys_iter;
use vstd::std_specs::iter::IteratorSpec;

verus! {

broadcast use {
    vstd::std_specs::hash::group_hash_axioms,
    vstd::std_specs::btree::group_btree_axioms,
};

/// What went through the tunnels of a cluster.
#[derive(Debug, Clone, Copy, PartialEq, Eq, Structural)]
pub struct TunnelMetrics {
    pub active_connections: u32,
    pub total_connections: u64,
    pub bytes_transferred: u64,
    pub connection_errors: u64,
}

/// Nothing has gone through yet.
pub open spec fn no_traffic() -> TunnelMetrics {
    TunnelMetrics {
        active_connections: 0,
        total_connections: 0,
        bytes_transferred: 0,
        connection_errors: 0,
    }
}

impl Default for TunnelMetrics {
    fn default() -> (r: Self)
        ensures
            r == no_traffic(),
    {
        TunnelMetrics {
            active_connections: 0,
            total_connections: 0,
            bytes_transferred: 0,
            connection_errors: 0,
        }
    }
}

/// A sum that stays at the greatest number where it would go beyond.
pub open spec fn capped_sum(a: u64, b: u64) -> u64 {
    if a + b > u64::MAX {
        u64::MAX
    } else {
        (a + b) as u64
    }
}

/// The clients of each cluster by generation, and the metrics of each
/// cluster.
pub struct TunnelRegistry<T> {
    metrics: HashMap<u128, TunnelMetrics>,
    clients: HashMap<u128, BTreeMap<u64, T>>,
    next: u64,
}

/// The generation is that of the newest client that is not closed, if there is
/// one.
pub open spec fn is_newest_open<T>(
    clients: Map<u64, T>,
    closed: Seq<u64>,
    newest: Option<u64>,
) -> bool {
    match newest {
        Some(g) => {
            &&& clients.contains_key(g)
            &&& !closed.contains(g)
            &&& forall|h: u64| #[trigger]
                clients.contains_key(h) && !closed.contains(h) ==> h <= g
        },
        None => forall|h: u64| #[trigger] clients.contains_key(h) ==> closed.contains(h),
    }
}

impl<T> TunnelRegistry<T> {
    /// The metrics of each cluster.
    pub closed spec fn metrics_map(&self) -> Map<u128, TunnelMetrics> {
        self.metrics@
    }

    /// The clients of each cluster by generation.
    pub closed spec fn client_map(&self) -> Map<u128, Map<u64, T>> {
        self.clients@.map_values(|m: BTreeMap<u64, T>| m@)
    }

    /// The clients of a cluster by generation.
    pub open spec fn clients_of(&self, cluster_id: u128) -> Map<u64, T> {
        if self.client_map().contains_key(cluster_id) {
            self.client_map()[cluster_id]
        } else {
            Map::empty()
        }
    }

    /// The metrics of a cluster, or none yet.
    pub open spec fn metrics_of(&self, cluster_id: u128) -> TunnelMetrics {
        if self.metrics_map().contains_key(cluster_id) {
            self.metrics_map()[cluster_id]
        } else {
            no_traffic()
        }
    }

    /// The generation that the next client gets.
    pub closed spec fn next_generation(&self) -> u64 {
        self.next
    }

    /// A cluster that is listed has a client, and one with a client has
    /// metrics.
    pub open spec fn well_formed(&self) -> bool {
        forall|c: u128| #[trigger]
            self.client_map().contains_key(c) ==> self.client_map()[c].len() > 0
                && self.client_map()[c].dom().finite() && self.metrics_map().contains_key(c)
    }

    pub fn new() -> (r: Self)
        ensures
            r.well_formed(),
            r.metrics_map() == Map::<u128, TunnelMetrics>::empty(),
            r.client_map() == Map::<u128, Map<u64, T>>::empty(),
            r.next_generation() == 1,
    {
        let r: Self = TunnelRegistry {
            metrics: HashMap::new(),
            clients: HashMap::new(),
            next: 1,
        };
        proof {
            assert(r.client_map() =~= Map::<u128, Map<u64, T>>::empty());
        }
        r
    }

    /// Adds to the metrics of a cluster. The number of open connections is
    /// replaced.
    pub fn update_metrics(
        &mut self,
        cluster_id: u128,
        active_connections: u32,
        bytes_transferred: u64,
        connection_count: u64,
        connection_errors: u64,
    )
        requires
            old(self).well_formed(),
        ensures
            final(self).well_formed(),
            final(self).client_map() == old(self).client_map(),
            final(self).next_generation() == old(self).next_generation(),
            final(self).metrics_map() == old(self).metrics_map().insert(
                cluster_id,
                TunnelMetrics {
                    active_connections,
                    total_connections: capped_sum(
                        old(self).metrics_of(cluster_id).total_connections,
                        connection_count,
                    ),
                    bytes_transferred: capped_sum(
                        old(self).metrics_of(cluster_id).bytes_transferred,
                        bytes_transferred,
                    ),
                    connection_errors: capped_sum(
                        old(self).metrics_of(cluster_id).connection_errors,
                        connection_errors,
                    ),
                },
            ),
    {
        let known: TunnelMetrics = match self.metrics.get(&cluster_id) {
            Some(m) => *m,
            None => TunnelMetrics::default(),
        };
        self.metrics.insert(
            cluster_id,
            TunnelMetrics {
                active_connections,
                total_connections: known.total_connections.saturating_add(connection_count),
                bytes_transferred: known.bytes_transferred.saturating_add(bytes_transferred),
                connection_errors: known.connection_errors.saturating_add(connection_errors),
            },
        );
        proof {
            assert forall|c: u128| #[trigger] self.client_map().contains_key(c) implies
                self.client_map()[c].len() > 0 && self.client_map()[c].dom().finite()
                && self.metrics_map().contains_key(c) by {
                assert(old(self).client_map().contains_key(c));
            }
        }
    }

    /// The metrics of a cluster.
    pub fn metrics(&self, cluster_id: u128) -> (r: Option<TunnelMetrics>)
        ensures
            match r {
                Some(m) => self.metrics_map().contains_key(cluster_id) && m
                    == self.metrics_map()[cluster_id],
                None => !self.metrics_map().contains_key(cluster_id),
            },
    {
        match self.metrics.get(&cluster_id) {
            Some(m) => Some(*m),
            None => None,
        }
    }

    /// Registers a client of a cluster under a new generation.
    pub fn register_client(&mut self, cluster_id: u128, client: T) -> (r: u64)
        requires
            old(self).well_formed(),
        ensures
            final(self).well_formed(),
            r == old(self).next_generation(),
            final(self).next_generation() == (if r == u64::MAX {
                0u64
            } else {
                (r + 1) as u64
            }),
            final(self).client_map() == old(self).client_map().insert(
                cluster_id,
                old(self).clients_of(cluster_id).insert(r, client),
            ),
            final(self).metrics_map() == old(self).metrics_map().insert(
                cluster_id,
                old(self).metrics_of(cluster_id),
            ),
    {
        let ghost before = self.client_map();
        let generation: u64 = self.next;
        self.next = self.next.wrapping_add(1);
        if !self.metrics.contains_key(&cluster_id) {
            self.metrics.insert(cluster_id, TunnelMetrics::default());
        }
        proof {
            assert(self.metrics@ =~= old(self).metrics_map().insert(
                cluster_id,
                old(self).metrics_of(cluster_id),
            ));
        }
        let mut list: BTreeMap<u64, T> = match self.clients.remove(&cluster_id) {
            Some(list) => list,
            None => BTreeMap::new(),
        };
        proof {
            assert(list@ =~= old(self).clients_of(cluster_id));
        }
        let ghost kept = list@;
        list.insert(generation, client);
        let ghost filled = list@;
        self.clients.insert(cluster_id, list);
        proof {
            assert(self.client_map() =~= before.insert(cluster_id, filled));
            assert forall|c: u128| #[trigger] self.client_map().contains_key(c) implies
                self.client_map()[c].len() > 0 && self.client_map()[c].dom().finite()
                && self.metrics_map().contains_key(c) by {
                if c != cluster_id {
                    assert(before.contains_key(c));
                } else {
                    assert(filled.dom().contains(generation));
                    assert(filled.dom().finite());
                    assert(filled.len() > 0) by {
                        if filled.len() == 0 {
                            assert(filled.dom() =~= Set::<u64>::empty());
                        }
                    }
                }
            }
        }
        generation
    }

    /// Forgets a client of a cluster; with its last client the cluster loses
    /// its metrics. Tells whether there was such a client.
    pub fn remove_client(&mut self, cluster_id: u128, generation: u64) -> (r: bool)
        requires
            old(self).well_formed(),
        ensures
            final(self).well_formed(),
            final(self).next_generation() == old(self).next_generation(),
            r == old(self).clients_of(cluster_id).contains_key(generation),
            ({
                let left = old(self).clients_of(cluster_id).remove(generation);
                if !r {
                    &&& final(self).client_map() == old(self).client_map()
                    &&& final(self).metrics_map() == old(self).metrics_map()
                } else if left =~= Map::<u64, T>::empty() {
                    &&& final(self).client_map() == old(self).client_map().remove(cluster_id)
                    &&& final(self).metrics_map() == old(self).metrics_map().remove(cluster_id)
                } else {
                    &&& final(self).client_map() == old(self).client_map().insert(cluster_id, left)
                    &&& final(self).metrics_map() == old(self).metrics_map()
                }
            }),
    {
        let ghost before = self.client_map();
        match self.clients.remove(&cluster_id) {
            None => {
                proof {
                    assert(self.client_map() =~= before);
                }
                false
            },
            Some(list) => {
                let mut list: BTreeMap<u64, T> = list;
                proof {
                    assert(before.contains_key(cluster_id));
                    assert(list@ =~= before[cluster_id]);
                }
                let removed: bool = list.remove(&generation).is_some();
                let ghost left = list@;
                proof {
                    assert(left =~= before[cluster_id].remove(generation));
                    assert(left.dom().finite());
                }
                if list.is_empty() {
                    if removed {
                        self.metrics.remove(&cluster_id);
                    }
                    proof {
                        assert(left =~= Map::<u64, T>::empty());
                        if !removed {
                            assert(before[cluster_id] =~= Map::<u64, T>::empty());
                            assert(before[cluster_id].dom() =~= Set::<u64>::empty());
                            assert(false);
                        }
                        assert(self.client_map() =~= before.remove(cluster_id));
                        assert forall|c: u128| #[trigger]
                            self.client_map().contains_key(c) implies self.client_map()[c].len() > 0
                            && self.client_map()[c].dom().finite()
                            && self.metrics_map().contains_key(c) by {
                            assert(before.contains_key(c));
                        }
                    }
                } else {
                    self.clients.insert(cluster_id, list);
                    proof {
                        assert(self.client_map() =~= before.insert(cluster_id, left));
                        if !removed {
                            assert(left =~= before[cluster_id]);
                            assert(before.insert(cluster_id, left) =~= before);
                        }
                        assert(left.len() > 0) by {
                            if left.len() == 0 {
                                assert(left.dom() =~= Set::<u64>::empty());
                                assert(left =~= Map::<u64, T>::empty());
                            }
                        }
                        assert forall|c: u128| #[trigger]
                            self.client_map().contains_key(c) implies self.client_map()[c].len() > 0
                            && self.client_map()[c].dom().finite()
                            && self.metrics_map().contains_key(c) by {
                            assert(before.contains_key(c));
                        }
                    }
                }
                removed
            },
        }
    }

    /// The generations of a cluster.
    pub fn generations(&self, cluster_id: u128) -> (r: Vec<u64>)
        ensures
            r@.no_duplicates(),
            forall|g: u64| r@.contains(g) <==> self.clients_of(cluster_id).contains_key(g),
    {
        match self.clients.get(&cluster_id) {
            None => Vec::new(),
            Some(list) => {
                let mut out: Vec<u64> = Vec::new();
                let ghost all = spec_keys_iter(list).remaining();
                for g in it: list.keys()
                    invariant
                        it.seq() == all,
                        all.no_duplicates(),
                        all.unref().to_set() == list@.dom(),
                        out@ == all.unref().take(it.index() as int),
                {
                    let ghost i = it.index() as int;
                    proof {
                        assert(all.unref().take(i + 1) =~= all.unref().take(i).push(*g));
                    }
                    out.push(*g);
                }
                proof {
                    assert(all.unref().take(all.len() as int) =~= all.unref());
                    assert forall|g: u64| out@.contains(g) <==> list@.contains_key(g) by {
                        assert(out@.to_set().contains(g) <==> out@.contains(g));
                    }
                }
                out
            },
        }
    }

    /// A client of a cluster.
    pub fn client(&self, cluster_id: u128, generation: u64) -> (r: Option<&T>)
        ensures
            match r {
                Some(c) => self.clients_of(cluster_id).contains_key(generation) && *c
                    == self.clients_of(cluster_id)[generation],
                None => !self.clients_of(cluster_id).contains_key(generation),
            },
    {
        match self.clients.get(&cluster_id) {
            Some(list) => list.get(&generation),
            None => None,
        }
    }

    /// The newest client of a cluster that is not closed, by its generation.
    pub fn get_client(&self, cluster_id: u128, closed: &Vec<u64>) -> (r: Option<u64>)
        ensures
            is_newest_open(self.clients_of(cluster_id), closed@, r),
    {
        let all: Vec<u64> = self.generations(cluster_id);
        let mut best: Option<u64> = None;
        let mut i: usize = 0;
        while i < all.len()
            invariant
                i <= all@.len(),
                forall|g: u64| all@.contains(g) <==> self.clients_of(cluster_id).contains_key(g),
                match best {
                    Some(g) => {
                        &&& all@.contains(g)
                        &&& !closed@.contains(g)
                        &&& forall|k: int|
                            0 <= k < i && !closed@.contains(#[trigger] all@[k]) ==> all@[k] <= g
                    },
                    None => forall|k: int| 0 <= k < i ==> closed@.contains(#[trigger] all@[k]),
                },
            decreases all@.len() - i,
        {
            let g: u64 = all[i];
            let newer: bool = match best {
                Some(b) => g > b,
                None => true,
            };
            if !holds(closed, g) && newer {
                proof {
                    assert(all@.contains(g));
                }
                best = Some(g);
            }
            i = i + 1;
        }
        proof {
            assert forall|h: u64| #[trigger] self.clients_of(cluster_id).contains_key(h) implies (
            match best {
                Some(g) => closed@.contains(h) || h <= g,
                None => closed@.contains(h),
            }) by {
                assert(all@.contains(h));
                let k = choose|k: int| 0 <= k < all@.len() && all@[k] == h;
                assert(all@[k] == h);
            }
        }
        best
    }
}

fn holds(list: &Vec<u64>, x: u64) -> (r: bool)
    ensures
        r == list@.contains(x),
{
    let mut i: usize = 0;
    while i < list.len()
        invariant
            i <= list@.len(),
            forall|k: int| 0 <= k < i ==> list@[k] != x,
        decreases list@.len() - i,
    {
        if list[i] == x {
            return true;
        }
        i = i + 1;
    }
    false
}

// ---------------------------------------------------------------------------
// Laws
// ---------------------------------------------------------------------------

/// Counts add up, as long as they stay in range: what is reported comes on top
/// of what was counted for the cluster. The number of open connections is the
/// last that was reported, and no other cluster is touched.
pub proof fn law_reports_add_up<T>(
    registry: &mut TunnelRegistry<T>,
    cluster: u128,
    active: u32,
    bytes: u64,
    connections: u64,
    errors: u64,
    other: u128,
)
    requires
        old(registry).well_formed(),
        call_ensures(
            TunnelRegistry::<T>::update_metrics,
            (registry, cluster, active, bytes, connections, errors),
            (),
        ),
    ensures
        ({
            let before = old(registry).metrics_of(cluster);
            let after = final(registry).metrics_of(cluster);
            &&& after.active_connections == active
            &&& before.bytes_transferred + bytes <= u64::MAX ==> after.bytes_transferred
                == before.bytes_transferred + bytes
            &&& before.total_connections + connections <= u64::MAX ==> after.total_connections
                == before.total_connections + connections
            &&& before.connection_errors + errors <= u64::MAX ==> after.connection_errors
                == before.connection_errors + errors
            &&& after.bytes_transferred >= before.bytes_transferred
            &&& after.total_connections >= before.total_connections
            &&& after.connection_errors >= before.connection_errors
        }),
        final(registry).metrics_map().contains_key(cluster),
        other != cluster ==> final(registry).metrics_of(other) == old(registry).metrics_of(other),
        final(registry).client_map() == old(registry).client_map(),
{
}

/// A cluster of which nothing was reported has counted nothing.
pub proof fn law_counts_start_at_nothing<T>(registry: TunnelRegistry<T>, cluster: u128)
    requires
        call_ensures(TunnelRegistry::<T>::new, (), registry),
    ensures
        registry.metrics_of(cluster).active_connections == 0,
        registry.metrics_of(cluster).total_connections == 0,
        registry.metrics_of(cluster).bytes_transferred == 0,
        registry.metrics_of(cluster).connection_errors == 0,
        registry.clients_of(cluster).len() == 0,
{
}

/// A client that registers is found under its generation, and the others stay.
/// The cluster has metrics from then on, and what was counted is kept.
pub proof fn law_registered_client_is_found<T>(
    registry: &mut TunnelRegistry<T>,
    cluster: u128,
    client: T,
    r: u64,
    after: TunnelRegistry<T>,
    c: u128,
    g: u64,
    found: Option<&T>,
    counted: Option<TunnelMetrics>,
)
    requires
        old(registry).well_formed(),
        call_ensures(TunnelRegistry::<T>::register_client, (registry, cluster, client), r),
        after == *final(registry),
        call_ensures(TunnelRegistry::<T>::client, (&after, c, g), found),
        call_ensures(TunnelRegistry::<T>::metrics, (&after, cluster), counted),
    ensures
        (c, g) == (cluster, r) ==> found == Some(&client),
        (c, g) != (cluster, r) ==> (found is Some <==> old(registry).clients_of(c).contains_key(g)),
        (c, g) != (cluster, r) ==> (found matches Some(x) ==> *x == old(registry).clients_of(c)[g]),
        counted == Some(old(registry).metrics_of(cluster)),
        r < u64::MAX ==> final(registry).next_generation() > r,
{
}

/// A client that is removed is no longer found, and the others stay. With its
/// last client a cluster loses its metrics, and with no other.
pub proof fn law_removed_client_is_gone<T>(
    registry: &mut TunnelRegistry<T>,
    cluster: u128,
    generation: u64,
    r: bool,
    c: u128,
    g: u64,
)
    requires
        old(registry).well_formed(),
        call_ensures(TunnelRegistry::<T>::remove_client, (registry, cluster, generation), r),
    ensures
        r <==> old(registry).clients_of(cluster).contains_key(generation),
        final(registry).clients_of(c).contains_key(g) <==> old(registry).clients_of(c).contains_key(
            g,
        ) && (c, g) != (cluster, generation),
        g != generation && old(registry).clients_of(cluster).contains_key(g) ==> final(registry).metrics_map() == old(registry).metrics_map(),
        c != cluster ==> final(registry).metrics_of(c) == old(registry).metrics_of(c),
        r && (forall|h: u64| #[trigger]
            old(registry).clients_of(cluster).contains_key(h) ==> h == generation) ==> !final(registry).metrics_map().contains_key(cluster),
{
    let entries = old(registry).clients_of(cluster);
    let left = entries.remove(generation);
    if left =~= Map::<u64, T>::empty() {
        assert(left.contains_key(g) == (entries.contains_key(g) && g != generation));
    } else if r && forall|h: u64| #[trigger]
        old(registry).clients_of(cluster).contains_key(h) ==> h == generation {
        assert forall|h: u64| !#[trigger] left.contains_key(h) by {
            assert(left.contains_key(h) ==> entries.contains_key(h) && h != generation);
        }
        assert(left =~= Map::<u64, T>::empty());
    }
}

/// The client that is used is one that is not closed, and no newer one is open;
/// there is none just where all are closed.
pub proof fn law_newest_open_client_is_used<T>(
    registry: TunnelRegistry<T>,
    cluster: u128,
    closed: Vec<u64>,
    r: Option<u64>,
    g: u64,
)
    requires
        call_ensures(TunnelRegistry::<T>::get_client, (&registry, cluster, &closed), r),
    ensures
        r matches Some(n) ==> registry.clients_of(cluster).contains_key(n) && !closed@.contains(n),
        registry.clients_of(cluster).contains_key(g) && !closed@.contains(g) ==> (r matches Some(n)
            && n >= g),
{
}

/// The generations that are listed are those of the clients, each once.
pub proof fn law_generations_are_listed_once<T>(
    registry: TunnelRegistry<T>,
    cluster: u128,
    r: Vec<u64>,
    g: u64,
)
    requires
        call_ensures(TunnelRegistry::<T>::generations, (&registry, cluster), r),
    ensures
        (exists|i: int| 0 <= i < r@.len() && #[trigger] r@[i] == g) <==> registry.clients_of(
            cluster,
        ).contains_key(g),
        forall|i: int, j: int| 0 <= i < j < r@.len() ==> #[trigger] r@[i] != #[trigger] r@[j],
{
    assert(r@.contains(g) <==> registry.clients_of(cluster).contains_key(g));
    if exists|i: int| 0 <= i < r@.len() && #[trigger] r@[i] == g {
        let i = choose|i: int| 0 <= i < r@.len() && #[trigger] r@[i] == g;
        assert(r@.contains(r@[i]));
    }
}

} // verus!
