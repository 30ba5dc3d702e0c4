//! What the two reconcilers have in common.

use vstd::prelude::*;

verus! {

/// The number of seconds after which an object is looked at again when no
/// change of it has been seen: five minutes.
pub const RECONCILIATION_INTERVAL_SECS: u64 = 300;

/// What the scheduler is to do with an object once a reconciliation of it
/// has ended.
#[derive(Debug, Clone, Copy, PartialEq, Eq, Structural)]
pub struct Action {
    /// The number of seconds after which the object is reconciled again.
    pub requeue_after_secs: u64,
}

impl Action {
    /// Reconcile the object again after the given number of seconds.
    pub fn requeue(seconds: u64) -> (action: Action)
        ensures
            action == (Action { requeue_after_secs: seconds }),
    {
        Action { requeue_after_secs: seconds }
    }
}

/// Reconcile the object again after the usual interval.
pub open spec fn requeue_after_interval() -> Action {
    Action { requeue_after_secs: RECONCILIATION_INTERVAL_SECS }
}

/// The text of the failure that is reported when a reconciler is handed a
/// reply that answers none of its requests.
pub const UNEXPECTED_REPLY: &'static str = "the reply does not answer the request";

/// The settings of the upstream cluster, where both are given: the path of
/// its kubeconfig and the identifier of this cluster. `None` where neither is
/// given, in which case the controller runs in the cluster that hosts the
/// Projects.
///
/// The two settings come together or not at all.
pub fn upstream_settings(
    kubeconfig_upstream: Option<String>,
    cluster_id: Option<String>,
) -> (settings: Option<(String, String)>)
    requires
        kubeconfig_upstream is Some <==> cluster_id is Some,
    ensures
        match settings {
            Some((path, id)) => kubeconfig_upstream == Some(path) && cluster_id == Some(id),
            None => kubeconfig_upstream is None && cluster_id is None,
        },
{
    match kubeconfig_upstream {
        None => None,
        Some(path) => match cluster_id {
            Some(id) => Some((path, id)),
            None => None,
        },
    }
}

} // verus!
