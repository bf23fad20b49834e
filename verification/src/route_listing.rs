//! The listing of the routes to the branches of a workload, from what was
//! looked up of them.
use crate::catalog::{service_views, CachedClusterService};
use crate::cluster_events::{
    are_branch_routes, branch_service_routes, check_environment, environment_failure, has_port,
    lemma_routes_go_to, routes_go_to, EnvironmentError, EnvironmentRecord,
};
use crate::ids::{id_text, id_to_string};
use crate::kube_rpc::ProxyBranchRouteConfig;
use crate::text::{concat, concat3};
use vstd::prelude::*;

verus! {

/// The environment of a branch, as it was looked up.
#[derive(Debug)]
pub struct BranchLookup {
    pub environment_id: u128,
    pub environment: Result<Option<EnvironmentRecord>, String>,
}

/// What was looked up for a listing. What stands behind a failure was not
/// looked up, and does not matter.
#[derive(Debug)]
pub struct RouteLookups {
    pub environment: Result<Option<EnvironmentRecord>, String>,
    /// The namespace of the environment.
    pub namespace: String,
    /// Whether the workload is known.
    pub workload: Result<bool, String>,
    pub labels: Result<(), String>,
    /// The services that the workload shares with its branches.
    pub services: Result<Vec<CachedClusterService>, String>,
    pub branches: Result<Vec<BranchLookup>, String>,
}

/// Why routes cannot be listed.
#[derive(Debug)]
pub enum RouteListingError {
    Environment(EnvironmentError),
    WorkloadNotFetched { workload_id: u128, error: String },
    WorkloadNotFound(u128),
    LabelsNotFetched { workload_id: u128, error: String },
    ServicesNotResolved { workload_id: u128, namespace: String, error: String },
    BranchesNotFetched { workload_id: u128, error: String },
}

impl RouteListingError {
    /// The text of the error.
    pub open spec fn text(&self) -> Seq<char> {
        match self {
            RouteListingError::Environment(e) => e.text(),
            RouteListingError::WorkloadNotFetched { workload_id, error } =>
            "Failed to fetch workload "@ + id_text(*workload_id) + ": "@ + error@,
            RouteListingError::WorkloadNotFound(id) => "Workload "@ + id_text(*id) + " not found"@,
            RouteListingError::LabelsNotFetched { workload_id, error } =>
            "Failed to fetch labels for workload "@ + id_text(*workload_id) + ": "@ + error@,
            RouteListingError::ServicesNotResolved { workload_id, namespace, error } =>
            "Failed to resolve services for workload "@ + id_text(*workload_id) + " in namespace "@
                + namespace@ + ": "@ + error@,
            RouteListingError::BranchesNotFetched { workload_id, error } =>
            "Failed to fetch workloads for base workload "@ + id_text(*workload_id) + ": "@
                + error@,
        }
    }

    pub fn message(&self) -> (r: String)
        ensures
            r@ == self.text(),
    {
        match self {
            RouteListingError::Environment(e) => e.message(),
            RouteListingError::WorkloadNotFetched { workload_id, error } => of_workload(
                "Failed to fetch workload ",
                *workload_id,
                error.as_str(),
            ),
            RouteListingError::WorkloadNotFound(id) => {
                let id: String = id_to_string(*id);
                concat3("Workload ", id.as_str(), " not found")
            },
            RouteListingError::LabelsNotFetched { workload_id, error } => of_workload(
                "Failed to fetch labels for workload ",
                *workload_id,
                error.as_str(),
            ),
            RouteListingError::ServicesNotResolved { workload_id, namespace, error } => {
                let id: String = id_to_string(*workload_id);
                let head: String = concat3(
                    "Failed to resolve services for workload ",
                    id.as_str(),
                    " in namespace ",
                );
                let head: String = concat3(head.as_str(), namespace.as_str(), ": ");
                concat(head.as_str(), error.as_str())
            },
            RouteListingError::BranchesNotFetched { workload_id, error } => of_workload(
                "Failed to fetch workloads for base workload ",
                *workload_id,
                error.as_str(),
            ),
        }
    }
}

fn of_workload(head: &str, workload_id: u128, error: &str) -> (r: String)
    ensures
        r@ == head@ + id_text(workload_id) + ": "@ + error@,
{
    let id: String = id_to_string(workload_id);
    let head: String = concat3(head, id.as_str(), ": ");
    concat(head.as_str(), error)
}

/// The index of the first branch whose environment could not be looked up.
/// The environment itself is no branch of its own, and is passed over.
pub open spec fn failed_branch(environment_id: u128, branches: Seq<BranchLookup>) -> nat
    decreases branches.len(),
{
    if branches.len() == 0 || (branches[0].environment_id != environment_id
        && branches[0].environment is Err) {
        0
    } else {
        1 + failed_branch(environment_id, branches.drop_first())
    }
}

/// The branches with their environments, where these are known.
pub open spec fn known_branches(branches: Seq<BranchLookup>) -> Seq<
    (u128, Option<EnvironmentRecord>),
> {
    Seq::new(
        branches.len(),
        |i: int|
            (
                branches[i].environment_id,
                match branches[i].environment {
                    Ok(env) => env,
                    Err(_) => None,
                },
            ),
    )
}

/// The first thing that keeps the routes from being listed. Without services
/// there is nothing to list, and the branches do not matter.
pub open spec fn listing_failure(
    environment_id: u128,
    workload_id: u128,
    cluster_id: u128,
    lookups: RouteLookups,
) -> Option<RouteListingError> {
    match environment_failure(environment_id, cluster_id, lookups.environment) {
        Some(e) => Some(RouteListingError::Environment(e)),
        None => match lookups.workload {
            Err(error) => Some(RouteListingError::WorkloadNotFetched { workload_id, error }),
            Ok(known) => if !known {
                Some(RouteListingError::WorkloadNotFound(workload_id))
            } else {
                resources_failure(environment_id, workload_id, lookups)
            },
        },
    }
}

/// The first thing that went wrong behind the look-up of the workload.
pub open spec fn resources_failure(
    environment_id: u128,
    workload_id: u128,
    lookups: RouteLookups,
) -> Option<RouteListingError> {
    match (lookups.labels, lookups.services) {
        (Err(error), _) => Some(RouteListingError::LabelsNotFetched { workload_id, error }),
        (_, Err(error)) => Some(
            RouteListingError::ServicesNotResolved {
                workload_id,
                namespace: lookups.namespace,
                error,
            },
        ),
        (_, Ok(services)) => if services@.len() == 0 {
            None
        } else {
            match lookups.branches {
                Err(error) => Some(RouteListingError::BranchesNotFetched { workload_id, error }),
                Ok(branches) => {
                    let i = failed_branch(environment_id, branches@) as int;
                    if i < branches@.len() {
                        Some(
                            RouteListingError::Environment(
                                EnvironmentError::FetchFailed {
                                    environment_id: branches@[i].environment_id,
                                    error: branches@[i].environment->Err_0,
                                },
                            ),
                        )
                    } else {
                        None
                    }
                },
            }
        },
    }
}

/// Lists the routes to the branches of a workload.
pub fn list_branch_service_routes(
    environment_id: u128,
    workload_id: u128,
    cluster_id: u128,
    lookups: RouteLookups,
) -> (r: Result<Vec<ProxyBranchRouteConfig>, RouteListingError>)
    ensures
        match listing_failure(environment_id, workload_id, cluster_id, lookups) {
            Some(e) => r == Err::<Vec<ProxyBranchRouteConfig>, RouteListingError>(e),
            None => {
                let services = lookups.services->Ok_0@;
                r matches Ok(routes) && if services.len() == 0 {
                    routes@.len() == 0
                } else {
                    are_branch_routes(
                        environment_id,
                        cluster_id,
                        service_views(services),
                        known_branches(lookups.branches->Ok_0@),
                        routes@,
                    )
                }
            },
        },
{
    if let Err(e) = check_environment(environment_id, cluster_id, lookups.environment) {
        return Err(RouteListingError::Environment(e));
    }
    match lookups.workload {
        Err(error) => {
            return Err(RouteListingError::WorkloadNotFetched { workload_id, error });
        },
        Ok(known) => {
            if !known {
                return Err(RouteListingError::WorkloadNotFound(workload_id));
            }
        },
    }
    if let Err(error) = lookups.labels {
        return Err(RouteListingError::LabelsNotFetched { workload_id, error });
    }
    let services: Vec<CachedClusterService> = match lookups.services {
        Err(error) => {
            return Err(
                RouteListingError::ServicesNotResolved {
                    workload_id,
                    namespace: lookups.namespace,
                    error,
                },
            );
        },
        Ok(services) => services,
    };
    if services.len() == 0 {
        return Ok(Vec::new());
    }
    match lookups.branches {
        Err(error) => Err(RouteListingError::BranchesNotFetched { workload_id, error }),
        Ok(branches) => match known_environments(environment_id, branches) {
            Err(e) => Err(RouteListingError::Environment(e)),
            Ok(known) => Ok(
                branch_service_routes(environment_id, cluster_id, &services, &known),
            ),
        },
    }
}

/// Reads the look-ups of the branches up to the first that failed.
fn known_environments(environment_id: u128, branches: Vec<BranchLookup>) -> (r: Result<
    Vec<(u128, Option<EnvironmentRecord>)>,
    EnvironmentError,
>)
    ensures
        ({
            let i = failed_branch(environment_id, branches@) as int;
            match r {
                Ok(known) => i >= branches@.len() && known@ == known_branches(branches@),
                Err(e) => i < branches@.len() && e == (EnvironmentError::FetchFailed {
                    environment_id: branches@[i].environment_id,
                    error: branches@[i].environment->Err_0,
                }),
            }
        }),
{
    let ghost all = branches@;
    let mut known: Vec<(u128, Option<EnvironmentRecord>)> = Vec::new();
    proof {
        assert(all.skip(0) =~= all);
    }
    for lookup in it: branches
        invariant
            it.seq() == all,
            known@ == known_branches(all).take(it.index() as int),
            failed_branch(environment_id, all) == it.index() + failed_branch(
                environment_id,
                all.skip(it.index() as int),
            ),
    {
        let ghost i = it.index() as int;
        proof {
            assert(all.skip(i)[0] == all[i]);
            assert(all.skip(i).drop_first() =~= all.skip(i + 1));
            assert(known_branches(all).take(i + 1) =~= known_branches(all).take(i).push(
                known_branches(all)[i],
            ));
        }
        let id: u128 = lookup.environment_id;
        match lookup.environment {
            Ok(environment) => {
                known.push((id, environment));
            },
            Err(error) => {
                if id != environment_id {
                    return Err(EnvironmentError::FetchFailed { environment_id: id, error });
                }
                known.push((id, None));
            },
        }
    }
    proof {
        assert(known_branches(all).take(all.len() as int) =~= known_branches(all));
    }
    Ok(known)
}

/// A look-up behind a failed one does not matter: as long as the environment
/// cannot be used, what else was looked up changes nothing.
pub proof fn law_environment_comes_first(
    environment_id: u128,
    workload_id: u128,
    cluster_id: u128,
    a: RouteLookups,
    b: RouteLookups,
)
    requires
        a.environment == b.environment,
        environment_failure(environment_id, cluster_id, a.environment) is Some,
    ensures
        listing_failure(environment_id, workload_id, cluster_id, a) == listing_failure(
            environment_id,
            workload_id,
            cluster_id,
            b,
        ),
{
}

/// The branches of a workload without services do not matter.
pub proof fn law_no_services_no_branches(
    environment_id: u128,
    workload_id: u128,
    cluster_id: u128,
    a: RouteLookups,
    b: RouteLookups,
)
    requires
        a.environment == b.environment,
        a.workload == b.workload,
        a.labels == b.labels,
        a.services == b.services,
        a.services matches Ok(services) && services@.len() == 0,
    ensures
        listing_failure(environment_id, workload_id, cluster_id, a) == listing_failure(
            environment_id,
            workload_id,
            cluster_id,
            b,
        ),
{
}

/// The look-up of the branch failed, and the branch is not the environment
/// itself.
pub open spec fn is_lost(environment_id: u128, branch: BranchLookup) -> bool {
    branch.environment_id != environment_id && branch.environment is Err
}

proof fn lemma_failed_branch(environment_id: u128, branches: Seq<BranchLookup>)
    ensures
        ({
            let i = failed_branch(environment_id, branches) as int;
            &&& 0 <= i <= branches.len()
            &&& i < branches.len() ==> is_lost(environment_id, branches[i])
            &&& forall|k: int| 0 <= k < i ==> !is_lost(environment_id, #[trigger] branches[k])
        }),
    decreases branches.len(),
{
    if branches.len() > 0 && !is_lost(environment_id, branches[0]) {
        let rest = branches.drop_first();
        lemma_failed_branch(environment_id, rest);
        let i = failed_branch(environment_id, branches) as int;
        assert(i == 1 + failed_branch(environment_id, rest));
        if i < branches.len() {
            assert(rest[i - 1] == branches[i]);
        }
        assert forall|k: int| 0 <= k < i implies !is_lost(
            environment_id,
            #[trigger] branches[k],
        ) by {
            if k > 0 {
                assert(rest[k - 1] == branches[k]);
            }
        }
    }
}

/// The routes of a workload are listed just where everything was looked up: the
/// environment, which has to be of the cluster, the workload, its labels and
/// its services, and, where there are services, the branches.
pub proof fn law_routes_are_listed(
    environment_id: u128,
    workload_id: u128,
    cluster_id: u128,
    lookups: RouteLookups,
    r: Result<Vec<ProxyBranchRouteConfig>, RouteListingError>,
)
    requires
        call_ensures(
            list_branch_service_routes,
            (environment_id, workload_id, cluster_id, lookups),
            r,
        ),
    ensures
        r is Ok <==> {
            &&& lookups.environment matches Ok(Some(env)) && env.cluster_id == cluster_id
            &&& lookups.workload == Ok::<bool, String>(true)
            &&& lookups.labels is Ok
            &&& lookups.services matches Ok(services) && (services@.len() == 0 || (
            lookups.branches matches Ok(branches) && forall|k: int|
                0 <= k < branches@.len() ==> !is_lost(environment_id, #[trigger] branches@[k])))
        },
{
    if lookups.branches is Ok {
        lemma_failed_branch(environment_id, lookups.branches->Ok_0@);
    }
}

/// The refusal of a listing names what could not be looked up, and what was
/// looked up before it was good.
pub proof fn law_refused_listing_says_why(
    environment_id: u128,
    workload_id: u128,
    cluster_id: u128,
    lookups: RouteLookups,
    e: RouteListingError,
)
    requires
        call_ensures(
            list_branch_service_routes,
            (environment_id, workload_id, cluster_id, lookups),
            Err::<Vec<ProxyBranchRouteConfig>, RouteListingError>(e),
        ),
    ensures
        match e {
            RouteListingError::Environment(EnvironmentError::NotFound(id)) => id == environment_id
                && lookups.environment == Ok::<Option<EnvironmentRecord>, String>(None),
            RouteListingError::Environment(EnvironmentError::OtherCluster {
                environment_id: id,
                cluster_id: cluster,
            }) => id == environment_id && cluster == cluster_id && (lookups.environment matches Ok(
                Some(env),
            ) && env.cluster_id != cluster_id),
            RouteListingError::Environment(EnvironmentError::FetchFailed {
                environment_id: id,
                error,
            }) => {
                ||| id == environment_id && lookups.environment == Err::<
                    Option<EnvironmentRecord>,
                    String,
                >(error)
                ||| lookups.branches matches Ok(branches) && exists|i: int|
                    0 <= i < branches@.len() && (#[trigger] branches@[i]).environment_id == id
                        && branches@[i].environment == Err::<Option<EnvironmentRecord>, String>(
                        error,
                    ) && (forall|k: int|
                        0 <= k < i ==> !is_lost(environment_id, #[trigger] branches@[k]))
            },
            RouteListingError::WorkloadNotFetched { workload_id: id, error } => id == workload_id
                && lookups.workload == Err::<bool, String>(error),
            RouteListingError::WorkloadNotFound(id) => id == workload_id && lookups.workload == Ok::<
                bool,
                String,
            >(false),
            RouteListingError::LabelsNotFetched { workload_id: id, error } => id == workload_id
                && lookups.labels == Err::<(), String>(error) && lookups.workload is Ok,
            RouteListingError::ServicesNotResolved { workload_id: id, namespace, error } => id
                == workload_id && namespace == lookups.namespace && lookups.services == Err::<
                Vec<CachedClusterService>,
                String,
            >(error) && lookups.labels is Ok,
            RouteListingError::BranchesNotFetched { workload_id: id, error } => id == workload_id
                && lookups.branches == Err::<Vec<BranchLookup>, String>(error) && lookups.services
                is Ok,
        },
{
    if lookups.branches is Ok {
        lemma_failed_branch(environment_id, lookups.branches->Ok_0@);
    }
}

/// Where the services of a workload have a port that can be served, the listing
/// has a route to each branch whose environment was found in the cluster, in
/// their order. Without services it is empty.
pub proof fn law_listing_has_every_branch(
    environment_id: u128,
    workload_id: u128,
    cluster_id: u128,
    lookups: RouteLookups,
    r: Vec<ProxyBranchRouteConfig>,
    port: u16,
)
    requires
        call_ensures(
            list_branch_service_routes,
            (environment_id, workload_id, cluster_id, lookups),
            Ok::<Vec<ProxyBranchRouteConfig>, RouteListingError>(r),
        ),
    ensures
        lookups.services matches Ok(services) ==> {
            &&& services@.len() == 0 ==> r@.len() == 0
            &&& (exists|i: int| 0 <= i < services@.len() && has_port(#[trigger] services@[i], port))
                ==> (lookups.branches matches Ok(branches) && routes_go_to(
                r@,
                environment_id,
                cluster_id,
                branches@.map_values(
                    |b: BranchLookup|
                        (
                            b.environment_id,
                            if b.environment is Ok {
                                b.environment->Ok_0
                            } else {
                                None
                            },
                        ),
                ),
                port,
            ))
        },
{
    law_routes_are_listed(
        environment_id,
        workload_id,
        cluster_id,
        lookups,
        Ok::<Vec<ProxyBranchRouteConfig>, RouteListingError>(r),
    );
    let services = lookups.services->Ok_0@;
    if exists|i: int| 0 <= i < services.len() && has_port(#[trigger] services[i], port) {
        let branches = lookups.branches->Ok_0@;
        let plain = branches.map_values(
            |b: BranchLookup|
                (
                    b.environment_id,
                    if b.environment is Ok {
                        b.environment->Ok_0
                    } else {
                        None
                    },
                ),
        );
        assert(plain =~= known_branches(branches));
        lemma_routes_go_to(environment_id, cluster_id, services, plain, r@, port);
    }
}

} // verus!
