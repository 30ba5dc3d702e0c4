//! The reconciler of Namespaces: it finds the Project that owns a Namespace
//! and brings that Project's labels onto the Namespace.
//!
//! When the controller runs in a downstream cluster and the upstream cluster
//! cannot be reached, the labels are taken from the cache: the Namespace is
//! given the last labels that are known, and the reconciliation does not
//! fail.
//!
//! The reconciler does not talk to the cluster or to the cache itself. It
//! says what to ask next, is handed the reply, and says what to ask after
//! that, until it ends.

use vstd::prelude::*;
use crate::context::{Context, ContextView, ProjectsApi, ProjectsApiView, UPSTREAM_PROBE_PATH};
use crate::controller::{
    requeue_after_interval, Action, RECONCILIATION_INTERVAL_SECS, UNEXPECTED_REPLY,
};
use crate::errors::{Error, ErrorView};
use crate::labels::Labels;
use crate::namespace::{
    lemma_merge_idempotent, propagate_labels, Namespace, NamespacePatch, NamespacePatchView,
    NamespaceView,
};
use crate::project::{relevant_labels_of, Project, ProjectRef, ProjectRefView};
use crate::projects_cache::{CacheRequest, CacheRequestView};

verus! {

/// How far the reconciliation of a Namespace has come.
#[derive(Debug, Clone, Copy, PartialEq, Eq, Structural)]
pub enum NamespaceState {
    /// Nothing has been asked yet.
    Start,
    /// The upstream cluster is being probed.
    Probing,
    /// The Project that owns the Namespace is being fetched.
    Fetching,
    /// The cache has been asked for the labels of the Project that owns the
    /// Namespace.
    ReadingCache,
    /// The cluster has been asked to change the labels of the Namespace.
    Patching,
    /// The reconciliation has ended.
    Done,
}

impl NamespaceState {
    /// A bound on the number of requests that a reconciliation in this state
    /// still makes.
    pub open spec fn requests_left(self) -> nat {
        match self {
            NamespaceState::Start => 3,
            NamespaceState::Probing => 2,
            NamespaceState::Fetching => 1,
            NamespaceState::ReadingCache => 1,
            NamespaceState::Patching => 0,
            NamespaceState::Done => 0,
        }
    }
}

/// What the reconciler of Namespaces asks for.
#[derive(Debug)]
pub enum NamespaceRequest {
    /// Fetch the path from the upstream cluster, to see whether it can be
    /// reached.
    ProbeUpstream { path: String },
    /// Fetch the Project of the given name.
    GetProject { api: ProjectsApi, name: String },
    /// Ask this of the cache.
    Cache(CacheRequest),
    /// Apply the change to the Namespace in the local cluster.
    Patch(NamespacePatch),
}

/// A [`NamespaceRequest`] as a mathematical value.
pub enum NamespaceRequestView {
    ProbeUpstream { path: Seq<char> },
    GetProject { api: ProjectsApiView, name: Seq<char> },
    Cache(CacheRequestView),
    Patch(NamespacePatchView),
}

impl View for NamespaceRequest {
    type V = NamespaceRequestView;

    open spec fn view(&self) -> NamespaceRequestView {
        match self {
            NamespaceRequest::ProbeUpstream { path } => NamespaceRequestView::ProbeUpstream {
                path: path@,
            },
            NamespaceRequest::GetProject { api, name } => NamespaceRequestView::GetProject {
                api: api@,
                name: name@,
            },
            NamespaceRequest::Cache(request) => NamespaceRequestView::Cache(request@),
            NamespaceRequest::Patch(patch) => NamespaceRequestView::Patch(patch@),
        }
    }
}

/// What the reconciler of Namespaces is handed in reply to a request.
#[derive(Debug)]
pub enum NamespaceReply {
    /// Whether the fetch from the upstream cluster succeeded.
    Probed { succeeded: bool },
    /// The Project that was fetched, or why it could not be.
    Project(Result<Project, Error>),
    /// The labels that the cache holds for the Project, `None` where it
    /// knows nothing of the Project; or why the cache could not tell.
    Cached(Result<Option<Labels>, Error>),
    /// How the change of the Namespace ended.
    Patched(Result<(), Error>),
}

/// What the reconciler of Namespaces does next.
#[derive(Debug)]
pub enum NamespaceStep {
    /// It asks for something, and is to be called again with the reply.
    Ask(NamespaceRequest),
    /// It ends, with what the scheduler is to do next or with a failure.
    Finish(Result<Action, Error>),
}

/// A [`NamespaceStep`] as a mathematical value.
pub enum NamespaceStepView {
    Ask(NamespaceRequestView),
    Finish(Result<Action, ErrorView>),
}

impl View for NamespaceStep {
    type V = NamespaceStepView;

    open spec fn view(&self) -> NamespaceStepView {
        match self {
            NamespaceStep::Ask(request) => NamespaceStepView::Ask(request@),
            NamespaceStep::Finish(Ok(action)) => NamespaceStepView::Finish(Ok(*action)),
            NamespaceStep::Finish(Err(error)) => NamespaceStepView::Finish(Err(error@)),
        }
    }
}

/// The end of a reconciliation that went well.
pub open spec fn finished() -> (NamespaceState, NamespaceStepView) {
    (NamespaceState::Done, NamespaceStepView::Finish(Ok(requeue_after_interval())))
}

/// The end of a reconciliation that failed.
pub open spec fn failed(error: ErrorView) -> (NamespaceState, NamespaceStepView) {
    (NamespaceState::Done, NamespaceStepView::Finish(Err(error)))
}

/// The labels that a reply of the cache stands for: those it holds, or none
/// where it knows nothing of the Project.
pub open spec fn cached_labels(found: Option<Labels>) -> Map<Seq<char>, Seq<char>> {
    match found {
        Some(labels) => labels@,
        None => Map::empty(),
    }
}

impl NamespaceView {
    /// The request for the Project of the given name.
    pub open spec fn fetch_project(self, ctx: ContextView, name: Seq<char>) -> (
        NamespaceState,
        NamespaceStepView,
    ) {
        (
            NamespaceState::Fetching,
            NamespaceStepView::Ask(
                NamespaceRequestView::GetProject { api: ctx.projects_api(), name },
            ),
        )
    }

    /// What the reconciler does once it knows the labels to propagate: it
    /// asks for the change that the Namespace is in need of, or ends where
    /// the Namespace is up to date.
    pub open spec fn propagate(self, relevant: Map<Seq<char>, Seq<char>>) -> (
        NamespaceState,
        NamespaceStepView,
    ) {
        match self.patch_for(relevant) {
            Some(patch) => (
                NamespaceState::Patching,
                NamespaceStepView::Ask(NamespaceRequestView::Patch(patch)),
            ),
            None => finished(),
        }
    }

    /// What the reconciler does first.
    pub open spec fn first_step(self, ctx: ContextView) -> (NamespaceState, NamespaceStepView) {
        if self.pending_deletion {
            finished()
        } else {
            match self.owner() {
                None => finished(),
                Some(owner) => if ctx.is_downstream() {
                    (
                        NamespaceState::Probing,
                        NamespaceStepView::Ask(
                            NamespaceRequestView::ProbeUpstream { path: UPSTREAM_PROBE_PATH@ },
                        ),
                    )
                } else {
                    self.fetch_project(ctx, owner.name)
                },
            }
        }
    }

    /// What the reconciler does once the upstream cluster has been probed:
    /// it fetches the Project where the cluster can be reached, and turns to
    /// the cache where it cannot.
    pub open spec fn after_probe(
        self,
        ctx: ContextView,
        owner: ProjectRefView,
        succeeded: bool,
    ) -> (NamespaceState, NamespaceStepView) {
        if ctx.is_downstream() && succeeded {
            self.fetch_project(ctx, owner.name)
        } else {
            match ctx.cache_request(CacheRequestView::Lookup { project_name: owner.name }) {
                Some(request) => (
                    NamespaceState::ReadingCache,
                    NamespaceStepView::Ask(NamespaceRequestView::Cache(request)),
                ),
                None => self.propagate(Map::empty()),
            }
        }
    }

    /// What the reconciler does in the given state when it is handed the
    /// given reply, and the state it is in after that.
    ///
    /// * A Namespace that is marked for deletion, or that names no owner, is
    ///   left alone.
    /// * In a downstream cluster the upstream cluster is probed first. Where
    ///   it can be reached, and always in a single cluster, the Project is
    ///   fetched, and a failure to fetch it ends the reconciliation with that
    ///   failure.
    /// * Where the upstream cluster cannot be reached, the labels are taken
    ///   from the cache, and a Project that the cache does not know has no
    ///   labels. Only a failure of the cache ends the reconciliation with a
    ///   failure.
    /// * The labels are then brought onto the Namespace, where it is not up
    ///   to date; a failure to change it ends the reconciliation with that
    ///   failure.
    ///
    /// A reconciliation that ends without a failure asks to be run again
    /// after the usual interval.
    pub open spec fn step(
        self,
        ctx: ContextView,
        state: NamespaceState,
        reply: Option<NamespaceReply>,
    ) -> (NamespaceState, NamespaceStepView) {
        match state {
            NamespaceState::Start => self.first_step(ctx),
            NamespaceState::Probing => match (self.owner(), reply) {
                (Some(owner), Some(NamespaceReply::Probed { succeeded })) => self.after_probe(
                    ctx,
                    owner,
                    succeeded,
                ),
                _ => failed(ErrorView::Internal(UNEXPECTED_REPLY@)),
            },
            NamespaceState::Fetching => match reply {
                Some(NamespaceReply::Project(Ok(project))) => self.propagate(
                    relevant_labels_of(project@.labels),
                ),
                Some(NamespaceReply::Project(Err(error))) => failed(error@),
                _ => failed(ErrorView::Internal(UNEXPECTED_REPLY@)),
            },
            NamespaceState::ReadingCache => match reply {
                Some(NamespaceReply::Cached(Ok(found))) => self.propagate(cached_labels(found)),
                Some(NamespaceReply::Cached(Err(error))) => failed(error@),
                _ => failed(ErrorView::Internal(UNEXPECTED_REPLY@)),
            },
            NamespaceState::Patching => match reply {
                Some(NamespaceReply::Patched(Ok(_))) => finished(),
                Some(NamespaceReply::Patched(Err(error))) => failed(error@),
                _ => failed(ErrorView::Internal(UNEXPECTED_REPLY@)),
            },
            NamespaceState::Done => failed(ErrorView::Internal(UNEXPECTED_REPLY@)),
        }
    }
}

/// One step of the reconciliation of a Namespace: what to ask next, or how
/// the reconciliation ends.
///
/// The first call is made in the state [`NamespaceState::Start`], without a
/// reply. Each later call is made in the state that the call before it
/// returned, with the reply to the request that it asked for.
pub fn reconcile(
    namespace: &Namespace,
    ctx: &Context,
    state: NamespaceState,
    reply: Option<NamespaceReply>,
) -> (next: (NamespaceState, NamespaceStep))
    ensures
        (next.0, next.1@) == namespace@.step(ctx@, state, reply),
{
    match state {
        NamespaceState::Start => {
            if namespace.pending_deletion {
                return finish();
            }
            match namespace.owner() {
                None => finish(),
                Some(project_ref) => match ctx.upstream_probe() {
                    Some(path) => (
                        NamespaceState::Probing,
                        NamespaceStep::Ask(NamespaceRequest::ProbeUpstream { path }),
                    ),
                    None => fetch_project(namespace, ctx, project_ref),
                },
            }
        },
        NamespaceState::Probing => match (namespace.owner(), reply) {
            (Some(project_ref), Some(NamespaceReply::Probed { succeeded })) => {
                if ctx.is_upstream_cluster_reachable(succeeded) {
                    fetch_project(namespace, ctx, project_ref)
                } else {
                    match ctx.cache_labels_to_propagate(project_ref.name.as_str()) {
                        Some(request) => (
                            NamespaceState::ReadingCache,
                            NamespaceStep::Ask(NamespaceRequest::Cache(request)),
                        ),
                        None => propagate(&Labels::new(), namespace),
                    }
                }
            },
            _ => unexpected_reply(),
        },
        NamespaceState::Fetching => match reply {
            Some(NamespaceReply::Project(Ok(project))) => propagate(
                &project.relevant_labels(),
                namespace,
            ),
            Some(NamespaceReply::Project(Err(error))) => fail(error),
            _ => unexpected_reply(),
        },
        NamespaceState::ReadingCache => match reply {
            Some(NamespaceReply::Cached(Ok(found))) => {
                let relevant_labels = match found {
                    Some(labels) => labels,
                    None => Labels::new(),
                };
                propagate(&relevant_labels, namespace)
            },
            Some(NamespaceReply::Cached(Err(error))) => fail(error),
            _ => unexpected_reply(),
        },
        NamespaceState::Patching => match reply {
            Some(NamespaceReply::Patched(Ok(_))) => finish(),
            Some(NamespaceReply::Patched(Err(error))) => fail(error),
            _ => unexpected_reply(),
        },
        NamespaceState::Done => unexpected_reply(),
    }
}

/// The request for the Project that the reference names.
fn fetch_project(namespace: &Namespace, ctx: &Context, project_ref: ProjectRef) -> (next: (
    NamespaceState,
    NamespaceStep,
))
    ensures
        (next.0, next.1@) == namespace@.fetch_project(ctx@, project_ref@.name),
{
    (
        NamespaceState::Fetching,
        NamespaceStep::Ask(
            NamespaceRequest::GetProject { api: ctx.projects_api(), name: project_ref.name },
        ),
    )
}

/// The request for the change that brings the labels onto the Namespace, or
/// the end of the reconciliation where the Namespace is up to date.
fn propagate(relevant_labels: &Labels, namespace: &Namespace) -> (next: (
    NamespaceState,
    NamespaceStep,
))
    ensures
        (next.0, next.1@) == namespace@.propagate(relevant_labels@),
{
    match propagate_labels(relevant_labels, namespace) {
        Ok(Some(patch)) => (
            NamespaceState::Patching,
            NamespaceStep::Ask(NamespaceRequest::Patch(patch)),
        ),
        Ok(None) => finish(),
        Err(error) => fail(error),
    }
}

/// The end of a reconciliation that went well.
fn finish() -> (next: (NamespaceState, NamespaceStep))
    ensures
        (next.0, next.1@) == finished(),
{
    (NamespaceState::Done, NamespaceStep::Finish(Ok(Action::requeue(RECONCILIATION_INTERVAL_SECS))))
}

/// The end of a reconciliation that failed.
fn fail(error: Error) -> (next: (NamespaceState, NamespaceStep))
    ensures
        (next.0, next.1@) == failed(error@),
{
    (NamespaceState::Done, NamespaceStep::Finish(Err(error)))
}

/// The end of a reconciliation that was handed a reply it did not ask for.
fn unexpected_reply() -> (next: (NamespaceState, NamespaceStep))
    ensures
        (next.0, next.1@) == failed(ErrorView::Internal(UNEXPECTED_REPLY@)),
{
    fail(Error::Internal(UNEXPECTED_REPLY.to_owned()))
}

/// What the scheduler is to do with a Namespace whose reconciliation failed:
/// try again after the usual interval, whatever the failure.
pub fn error_policy(error: &Error, ctx: &Context) -> (action: Action)
    ensures
        action == requeue_after_interval(),
{
    Action::requeue(RECONCILIATION_INTERVAL_SECS)
}

/// When the upstream cluster cannot be reached, the reconciliation of a
/// Namespace goes by the cache and does not fail for want of the upstream
/// cluster: it asks the cache for the labels of the owning Project, and with
/// the labels that the cache holds, or with none where the cache does not
/// know the Project, it asks for the change that the Namespace is in need of,
/// or ends well where the Namespace is up to date.
pub proof fn lemma_degraded_read_uses_cache(
    namespace: NamespaceView,
    cluster_id: Seq<char>,
    owner: ProjectRefView,
    found: Option<Labels>,
)
    requires
        namespace.owner() == Some(owner),
    ensures
        namespace.step(
            ContextView::DualCluster { cluster_id },
            NamespaceState::Probing,
            Some(NamespaceReply::Probed { succeeded: false }),
        ) == (
            NamespaceState::ReadingCache,
            NamespaceStepView::Ask(
                NamespaceRequestView::Cache(CacheRequestView::Lookup { project_name: owner.name }),
            ),
        ),
        namespace.step(
            ContextView::DualCluster { cluster_id },
            NamespaceState::ReadingCache,
            Some(NamespaceReply::Cached(Ok(found))),
        ) == namespace.propagate(cached_labels(found)),
        !(namespace.propagate(cached_labels(found)).1 matches NamespaceStepView::Finish(Err(_))),
{
}

/// A reconciliation of a Namespace ends: it is over exactly when the
/// reconciler says how it ends, and each request that it makes leaves fewer
/// requests to make. A reconciliation that starts afresh makes three requests
/// at most.
pub proof fn lemma_namespace_reconciliation_ends(
    namespace: NamespaceView,
    ctx: ContextView,
    state: NamespaceState,
    reply: Option<NamespaceReply>,
)
    ensures
        namespace.step(ctx, state, reply).1 is Finish <==> namespace.step(ctx, state, reply).0
            == NamespaceState::Done,
        namespace.step(ctx, state, reply).1 is Ask ==> namespace.step(
            ctx,
            state,
            reply,
        ).0.requests_left() < state.requests_left(),
{
}

/// Once the change that the reconciler asked for is in place, the Namespace
/// is up to date: with the same labels to propagate the reconciler asks for
/// no further change.
pub proof fn lemma_patched_namespace_is_up_to_date(
    namespace: NamespaceView,
    relevant: Map<Seq<char>, Seq<char>>,
    patch: NamespacePatchView,
)
    requires
        namespace.patch_for(relevant) == Some(patch),
    ensures
        patch.namespace == namespace.name,
        (NamespaceView { labels: patch.labels, ..namespace }).patch_for(relevant) is None,
        (NamespaceView { labels: patch.labels, ..namespace }).propagate(relevant) == finished(),
{
    lemma_merge_idempotent(relevant, namespace.labels);
}

} // verus!
