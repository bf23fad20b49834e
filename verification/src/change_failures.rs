//! What is answered to a change that could not be taken in.
use crate::cluster_events::{ServiceChange, WorkloadChange};
use crate::ids::{id_text, id_to_string};
use crate::kube_rpc::{ResourceChangeEvent, ResourceType};
use crate::text::{concat, concat3};
use vstd::prelude::*;

verus! {

/// The name of a type of resources.
pub open spec fn kind_name(t: ResourceType) -> Seq<char> {
    match t {
        ResourceType::Deployment => "Deployment"@,
        ResourceType::StatefulSet => "StatefulSet"@,
        ResourceType::DaemonSet => "DaemonSet"@,
        ResourceType::ReplicaSet => "ReplicaSet"@,
        ResourceType::Job => "Job"@,
        ResourceType::CronJob => "CronJob"@,
        ResourceType::ConfigMap => "ConfigMap"@,
        ResourceType::Secret => "Secret"@,
        ResourceType::Service => "Service"@,
    }
}

pub fn resource_type_name(t: ResourceType) -> (r: &'static str)
    ensures
        r@ == kind_name(t),
{
    match t {
        ResourceType::Deployment => "Deployment",
        ResourceType::StatefulSet => "StatefulSet",
        ResourceType::DaemonSet => "DaemonSet",
        ResourceType::ReplicaSet => "ReplicaSet",
        ResourceType::Job => "Job",
        ResourceType::CronJob => "CronJob",
        ResourceType::ConfigMap => "ConfigMap",
        ResourceType::Secret => "Secret",
        ResourceType::Service => "Service",
    }
}

/// The change after which the version of a catalog was to go up.
#[derive(Debug, Clone, Copy, PartialEq, Eq, Structural)]
pub enum BumpCause {
    Workload,
    Service,
    ConfigMap,
    Secret,
}

/// What a cause is called.
pub open spec fn cause_text(cause: BumpCause) -> Seq<char> {
    match cause {
        BumpCause::Workload => "workload update"@,
        BumpCause::Service => "service update"@,
        BumpCause::ConfigMap => "configmap change"@,
        BumpCause::Secret => "secret change"@,
    }
}

/// The step that failed.
#[derive(Debug, Clone, Copy, PartialEq, Eq, Structural)]
pub enum ChangeFailure {
    WorkloadYamlMissing,
    WorkloadYamlUnusable,
    ServiceYamlMissing,
    CatalogNotQueried,
    WorkloadNotUpdated(u128),
    LabelsNotUpdated(u128),
    DependenciesNotUpdated(u128),
    PortsNotUpdated(u128),
    SelectorNotResolved,
    SelectorNotQueried,
    VersionNotBumped { catalog_id: u128, cause: BumpCause },
    VersionsNotUpdated(u128),
    ReplicasNotUpdated,
    ReplicasNotCleared,
}

/// The place of the resource that an event is about.
pub open spec fn place(event: ResourceChangeEvent) -> Seq<char> {
    event.namespace@ + "/"@ + event.resource_name@
}

impl ChangeFailure {
    /// What is answered to an event.
    pub open spec fn text(&self, event: ResourceChangeEvent) -> Seq<char> {
        match self {
            ChangeFailure::WorkloadYamlMissing => "workload event missing resource YAML"@,
            ChangeFailure::WorkloadYamlUnusable => "failed to parse workload YAML for "@ + place(
                event,
            ) + " ("@ + kind_name(event.resource_type) + ")"@,
            ChangeFailure::ServiceYamlMissing => "service event missing resource YAML"@,
            ChangeFailure::CatalogNotQueried => "failed querying catalog workloads for "@ + place(
                event,
            ),
            ChangeFailure::WorkloadNotUpdated(id) => "failed to update workload "@ + id_text(*id),
            ChangeFailure::LabelsNotUpdated(id) => "failed to update workload label mapping for "@
                + id_text(*id),
            ChangeFailure::DependenciesNotUpdated(id) =>
            "failed to update workload dependency mapping for "@ + id_text(*id),
            ChangeFailure::PortsNotUpdated(id) => "failed to update workload ports for "@ + id_text(
                *id,
            ),
            ChangeFailure::SelectorNotResolved =>
            "failed to resolve workloads matching service selector for "@ + event.resource_name@,
            ChangeFailure::SelectorNotQueried =>
            "failed querying catalog workloads for service selector "@ + place(event),
            ChangeFailure::VersionNotBumped { catalog_id, cause } =>
            "failed to bump sync version for catalog "@ + id_text(*catalog_id) + " after "@
                + cause_text(*cause),
            ChangeFailure::VersionsNotUpdated(id) =>
            "failed to update workload sync version for catalog "@ + id_text(*id),
            ChangeFailure::ReplicasNotUpdated =>
            "failed to update environment ready replicas for "@ + place(event),
            ChangeFailure::ReplicasNotCleared =>
            "failed to clear environment ready replicas for deleted workload "@ + place(event),
        }
    }

    pub fn message(&self, event: &ResourceChangeEvent) -> (r: String)
        ensures
            r@ == self.text(*event),
    {
        match self {
            ChangeFailure::WorkloadYamlMissing => "workload event missing resource YAML".to_owned(),
            ChangeFailure::WorkloadYamlUnusable => {
                let head: String = of_place("failed to parse workload YAML for ", event);
                let head: String = concat3(
                    head.as_str(),
                    " (",
                    resource_type_name(event.resource_type),
                );
                concat(head.as_str(), ")")
            },
            ChangeFailure::ServiceYamlMissing => "service event missing resource YAML".to_owned(),
            ChangeFailure::CatalogNotQueried => of_place(
                "failed querying catalog workloads for ",
                event,
            ),
            ChangeFailure::WorkloadNotUpdated(id) => of_id("failed to update workload ", *id),
            ChangeFailure::LabelsNotUpdated(id) => of_id(
                "failed to update workload label mapping for ",
                *id,
            ),
            ChangeFailure::DependenciesNotUpdated(id) => of_id(
                "failed to update workload dependency mapping for ",
                *id,
            ),
            ChangeFailure::PortsNotUpdated(id) => of_id(
                "failed to update workload ports for ",
                *id,
            ),
            ChangeFailure::SelectorNotResolved => concat(
                "failed to resolve workloads matching service selector for ",
                event.resource_name.as_str(),
            ),
            ChangeFailure::SelectorNotQueried => of_place(
                "failed querying catalog workloads for service selector ",
                event,
            ),
            ChangeFailure::VersionNotBumped { catalog_id, cause } => {
                let head: String = of_id("failed to bump sync version for catalog ", *catalog_id);
                let cause: &str = match cause {
                    BumpCause::Workload => "workload update",
                    BumpCause::Service => "service update",
                    BumpCause::ConfigMap => "configmap change",
                    BumpCause::Secret => "secret change",
                };
                concat3(head.as_str(), " after ", cause)
            },
            ChangeFailure::VersionsNotUpdated(id) => of_id(
                "failed to update workload sync version for catalog ",
                *id,
            ),
            ChangeFailure::ReplicasNotUpdated => of_place(
                "failed to update environment ready replicas for ",
                event,
            ),
            ChangeFailure::ReplicasNotCleared => of_place(
                "failed to clear environment ready replicas for deleted workload ",
                event,
            ),
        }
    }
}

fn of_place(head: &str, event: &ResourceChangeEvent) -> (r: String)
    ensures
        r@ == head@ + place(*event),
{
    let head: String = concat(head, event.namespace.as_str());
    let out: String = concat3(head.as_str(), "/", event.resource_name.as_str());
    proof {
        assert(out@ =~= head@ + "/"@ + event.resource_name@);
    }
    out
}

fn of_id(head: &str, id: u128) -> (r: String)
    ensures
        r@ == head@ + id_text(id),
{
    let id: String = id_to_string(id);
    concat(head, id.as_str())
}

/// The answer to a change of a workload that cannot be used.
pub fn workload_answer(event: &ResourceChangeEvent, change: &WorkloadChange) -> (r: Result<
    (),
    String,
>)
    ensures
        match change {
            WorkloadChange::MissingYaml => r matches Err(m) && m@
                == ChangeFailure::WorkloadYamlMissing.text(*event),
            WorkloadChange::Unusable(_) => r matches Err(m) && m@
                == ChangeFailure::WorkloadYamlUnusable.text(*event),
            _ => r is Ok,
        },
{
    match change {
        WorkloadChange::MissingYaml => Err(ChangeFailure::WorkloadYamlMissing.message(event)),
        WorkloadChange::Unusable(_) => Err(ChangeFailure::WorkloadYamlUnusable.message(event)),
        _ => Ok(()),
    }
}

/// The answer to a change of a service that cannot be used: what is wrong with
/// the manifest, as it was found.
pub fn service_answer(event: &ResourceChangeEvent, change: &ServiceChange) -> (r: Result<
    (),
    String,
>)
    ensures
        match change {
            ServiceChange::MissingYaml => r matches Err(m) && m@
                == ChangeFailure::ServiceYamlMissing.text(*event),
            ServiceChange::Unusable(text) => r matches Err(m) && m@ == text@,
            _ => r is Ok,
        },
{
    match change {
        ServiceChange::MissingYaml => Err(ChangeFailure::ServiceYamlMissing.message(event)),
        ServiceChange::Unusable(text) => Err(text.clone()),
        _ => Ok(()),
    }
}

/// A change of a workload is answered with an error just where its manifest is
/// missing or cannot be used.
pub proof fn law_unusable_workloads_are_refused(
    event: ResourceChangeEvent,
    change: WorkloadChange,
    r: Result<(), String>,
)
    requires
        call_ensures(workload_answer, (&event, &change), r),
    ensures
        r is Err <==> change is MissingYaml || change is Unusable,
{
}

/// A change of a service is answered with an error just where its manifest is
/// missing or cannot be used, and then with what is wrong with it.
pub proof fn law_unusable_services_are_refused(
    event: ResourceChangeEvent,
    change: ServiceChange,
    r: Result<(), String>,
)
    requires
        call_ensures(service_answer, (&event, &change), r),
    ensures
        r is Err <==> change is MissingYaml || change is Unusable,
        change matches ServiceChange::Unusable(text) ==> (r matches Err(m) && m@ == text@),
{
}

} // verus!
