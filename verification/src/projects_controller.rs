//! The reconciler of Projects: it keeps the cache up to date and brings the
//! labels of a Project onto every Namespace that the Project owns.
//!
//! The reconciler does not talk to the cluster or to the cache itself. It
//! says what to ask next, is handed the reply, and says what to ask after
//! that, until it ends.

use vstd::prelude::*;
use crate::context::{Context, ContextView};
use crate::controller::{
    requeue_after_interval, Action, RECONCILIATION_INTERVAL_SECS, UNEXPECTED_REPLY,
};
use crate::errors::{Error, ErrorView};
use crate::labels::Labels;
use crate::namespace::{
    namespace_views, propagate_labels, Namespace, NamespacePatch, NamespacePatchView,
    NamespaceView,
};
use crate::project::{lemma_owned_among, relevant_labels_of, Project, ProjectView};
use crate::projects_cache::{CacheRequest, CacheRequestView};

verus! {

/// How far the reconciliation of a Project has come.
#[derive(Debug, Clone, Copy, PartialEq, Eq, Structural)]
pub enum ProjectState {
    /// Nothing has been asked yet.
    Start,
    /// The cache has been asked to forget the Project.
    CacheDeleting,
    /// The cache has been asked to store the Project's labels.
    CacheUpdating,
    /// The cluster has been asked for the Namespaces that may belong to the
    /// Project.
    Listing,
    /// The cluster has been asked to change the labels of Namespaces.
    Patching,
    /// The reconciliation has ended.
    Done,
}

impl ProjectState {
    /// A bound on the number of requests that a reconciliation in this state
    /// still makes.
    pub open spec fn requests_left(self) -> nat {
        match self {
            ProjectState::Start => 3,
            ProjectState::CacheUpdating => 2,
            ProjectState::Listing => 1,
            ProjectState::CacheDeleting => 0,
            ProjectState::Patching => 0,
            ProjectState::Done => 0,
        }
    }
}

/// What the reconciler of Projects asks for.
#[derive(Debug)]
pub enum ProjectRequest {
    /// Ask this of the cache. A failure of the cache is reported to the
    /// reconciler, which goes on all the same.
    Cache(CacheRequest),
    /// List the Namespaces of the local cluster that the selector matches.
    ListNamespaces { selector: String },
    /// Apply each of the changes to its Namespace in the local cluster. One
    /// that fails does not keep the others from being applied.
    Patch(Vec<NamespacePatch>),
}

/// A [`ProjectRequest`] as a mathematical value.
pub enum ProjectRequestView {
    Cache(CacheRequestView),
    ListNamespaces { selector: Seq<char> },
    Patch(Seq<NamespacePatchView>),
}

/// The views of the changes, in the same order.
pub open spec fn patch_views(patches: Seq<NamespacePatch>) -> Seq<NamespacePatchView> {
    patches.map_values(|patch: NamespacePatch| patch@)
}

impl View for ProjectRequest {
    type V = ProjectRequestView;

    open spec fn view(&self) -> ProjectRequestView {
        match self {
            ProjectRequest::Cache(request) => ProjectRequestView::Cache(request@),
            ProjectRequest::ListNamespaces { selector } => ProjectRequestView::ListNamespaces {
                selector: selector@,
            },
            ProjectRequest::Patch(patches) => ProjectRequestView::Patch(patch_views(patches@)),
        }
    }
}

/// What the reconciler of Projects is handed in reply to a request.
#[derive(Debug)]
pub enum ProjectReply {
    /// How the request to the cache ended.
    Cache(Result<(), Error>),
    /// The Namespaces that were listed, or why they could not be.
    Namespaces(Result<Vec<Namespace>, Error>),
    /// The changes have been tried, each of them.
    Patched,
}

/// What the reconciler of Projects does next.
#[derive(Debug)]
pub enum ProjectStep {
    /// It asks for something, and is to be called again with the reply.
    Ask(ProjectRequest),
    /// It ends, with what the scheduler is to do next or with a failure.
    Finish(Result<Action, Error>),
}

/// A [`ProjectStep`] as a mathematical value.
pub enum ProjectStepView {
    Ask(ProjectRequestView),
    Finish(Result<Action, ErrorView>),
}

impl View for ProjectStep {
    type V = ProjectStepView;

    open spec fn view(&self) -> ProjectStepView {
        match self {
            ProjectStep::Ask(request) => ProjectStepView::Ask(request@),
            ProjectStep::Finish(Ok(action)) => ProjectStepView::Finish(Ok(*action)),
            ProjectStep::Finish(Err(error)) => ProjectStepView::Finish(Err(error@)),
        }
    }
}

/// The changes that bring the labels to propagate onto the Namespaces, one
/// for each Namespace that is not up to date, in the order of the Namespaces.
pub open spec fn patches_for(
    relevant: Map<Seq<char>, Seq<char>>,
    namespaces: Seq<NamespaceView>,
) -> Seq<NamespacePatchView> {
    namespaces.filter_map(|namespace: NamespaceView| namespace.patch_for(relevant))
}

impl ProjectView {
    /// The request for the Namespaces that may belong to the Project.
    pub open spec fn list_namespaces(self) -> (ProjectState, ProjectStepView) {
        (
            ProjectState::Listing,
            ProjectStepView::Ask(
                ProjectRequestView::ListNamespaces { selector: self.namespace_selector() },
            ),
        )
    }

    /// What the reconciler does first.
    pub open spec fn first_step(self, ctx: ContextView) -> (ProjectState, ProjectStepView) {
        if self.pending_deletion {
            match ctx.cache_request(CacheRequestView::Delete { project_name: self.name }) {
                Some(request) => (
                    ProjectState::CacheDeleting,
                    ProjectStepView::Ask(ProjectRequestView::Cache(request)),
                ),
                None => (ProjectState::Done, ProjectStepView::Finish(Ok(requeue_after_interval()))),
            }
        } else {
            match ctx.cache_request(
                CacheRequestView::Update {
                    project_name: self.name,
                    labels: relevant_labels_of(self.labels),
                },
            ) {
                Some(request) => (
                    ProjectState::CacheUpdating,
                    ProjectStepView::Ask(ProjectRequestView::Cache(request)),
                ),
                None => self.list_namespaces(),
            }
        }
    }

    /// What the reconciler does once the Namespaces have been listed: it
    /// asks for the changes that the Namespaces it owns are in need of, or
    /// ends where none is.
    pub open spec fn after_listing(self, listed: Seq<NamespaceView>) -> (
        ProjectState,
        ProjectStepView,
    ) {
        let patches = patches_for(relevant_labels_of(self.labels), self.owned_among(listed));
        if patches.len() == 0 {
            (ProjectState::Done, ProjectStepView::Finish(Ok(requeue_after_interval())))
        } else {
            (ProjectState::Patching, ProjectStepView::Ask(ProjectRequestView::Patch(patches)))
        }
    }

    /// What the reconciler does in the given state when it is handed the
    /// given reply, and the state it is in after that.
    ///
    /// * At the start it turns to the cache, where there is one: a Project
    ///   that is marked for deletion is forgotten, the labels to propagate of
    ///   any other are stored.
    /// * However the cache replied, a reconciliation that asked it to forget
    ///   the Project ends, and one that asked it to store the labels goes on
    ///   to list the Namespaces.
    /// * A failure to list the Namespaces ends the reconciliation with that
    ///   failure.
    /// * Once the changes have been tried, the reconciliation ends.
    ///
    /// A reconciliation that ends without a failure asks to be run again
    /// after the usual interval.
    pub open spec fn step(
        self,
        ctx: ContextView,
        state: ProjectState,
        reply: Option<ProjectReply>,
    ) -> (ProjectState, ProjectStepView) {
        match state {
            ProjectState::Start => self.first_step(ctx),
            ProjectState::CacheDeleting => (
                ProjectState::Done,
                ProjectStepView::Finish(Ok(requeue_after_interval())),
            ),
            ProjectState::CacheUpdating => self.list_namespaces(),
            ProjectState::Listing => match reply {
                Some(ProjectReply::Namespaces(Ok(listed))) => self.after_listing(
                    namespace_views(listed@),
                ),
                Some(ProjectReply::Namespaces(Err(error))) => (
                    ProjectState::Done,
                    ProjectStepView::Finish(Err(error@)),
                ),
                _ => (
                    ProjectState::Done,
                    ProjectStepView::Finish(Err(ErrorView::Internal(UNEXPECTED_REPLY@))),
                ),
            },
            ProjectState::Patching => (
                ProjectState::Done,
                ProjectStepView::Finish(Ok(requeue_after_interval())),
            ),
            ProjectState::Done => (
                ProjectState::Done,
                ProjectStepView::Finish(Err(ErrorView::Internal(UNEXPECTED_REPLY@))),
            ),
        }
    }
}

/// The changes that the Namespaces are in need of, so that each carries the
/// labels to propagate.
fn patches(relevant_labels: &Labels, namespaces: &Vec<Namespace>) -> (patches: Vec<NamespacePatch>)
    ensures
        patch_views(patches@) == patches_for(relevant_labels@, namespace_views(namespaces@)),
{
    let mut patches: Vec<NamespacePatch> = Vec::new();
    let ghost patch_of = |namespace: NamespaceView| namespace.patch_for(relevant_labels@);
    let mut i: usize = 0;
    proof {
        assert(namespace_views(namespaces@.take(0)) =~= Seq::<NamespaceView>::empty());
        assert(patch_views(patches@) =~= Seq::<NamespaceView>::empty().filter_map(patch_of));
    }
    while i < namespaces.len()
        invariant
            i <= namespaces@.len(),
            patch_of == |namespace: NamespaceView| namespace.patch_for(relevant_labels@),
            patch_views(patches@) == namespace_views(namespaces@.take(i as int)).filter_map(
                patch_of,
            ),
        decreases namespaces@.len() - i,
    {
        proof {
            let seen = namespace_views(namespaces@.take(i as int));
            let next = namespace_views(namespaces@.take(i as int + 1));
            assert(next =~= seen.push(namespaces@[i as int]@));
            assert(next.drop_last() =~= seen);
        }
        match propagate_labels(relevant_labels, &namespaces[i]) {
            Ok(Some(patch)) => {
                let ghost before = patches@;
                let ghost added = patch@;
                patches.push(patch);
                proof {
                    assert(patch_views(patches@) =~= patch_views(before) + seq![added]);
                }
            },
            _ => {},
        }
        i += 1;
    }
    proof {
        assert(namespaces@.take(i as int) =~= namespaces@);
    }
    patches
}

/// One step of the reconciliation of a Project: what to ask next, or how the
/// reconciliation ends.
///
/// The first call is made in the state [`ProjectState::Start`], without a
/// reply. Each later call is made in the state that the call before it
/// returned, with the reply to the request that it asked for.
pub fn reconcile(
    project: &Project,
    ctx: &Context,
    state: ProjectState,
    reply: Option<ProjectReply>,
) -> (next: (ProjectState, ProjectStep))
    ensures
        (next.0, next.1@) == project@.step(ctx@, state, reply),
{
    match state {
        ProjectState::Start => {
            if project.pending_deletion {
                match ctx.cache_delete_project(project.name.as_str()) {
                    Some(request) => (
                        ProjectState::CacheDeleting,
                        ProjectStep::Ask(ProjectRequest::Cache(request)),
                    ),
                    None => (ProjectState::Done, finish()),
                }
            } else {
                let relevant_labels = project.relevant_labels();
                match ctx.cache_update_project(project.name.as_str(), &relevant_labels) {
                    Some(request) => (
                        ProjectState::CacheUpdating,
                        ProjectStep::Ask(ProjectRequest::Cache(request)),
                    ),
                    None => list_namespaces(project),
                }
            }
        },
        ProjectState::CacheDeleting => (ProjectState::Done, finish()),
        ProjectState::CacheUpdating => list_namespaces(project),
        ProjectState::Listing => match reply {
            Some(ProjectReply::Namespaces(Ok(listed))) => {
                let relevant_labels = project.relevant_labels();
                let owned = project.namespaces(&listed);
                let patches = patches(&relevant_labels, &owned);
                if patches.len() == 0 {
                    (ProjectState::Done, finish())
                } else {
                    (ProjectState::Patching, ProjectStep::Ask(ProjectRequest::Patch(patches)))
                }
            },
            Some(ProjectReply::Namespaces(Err(error))) => (
                ProjectState::Done,
                ProjectStep::Finish(Err(error)),
            ),
            _ => (ProjectState::Done, unexpected_reply()),
        },
        ProjectState::Patching => (ProjectState::Done, finish()),
        ProjectState::Done => (ProjectState::Done, unexpected_reply()),
    }
}

/// The request for the Namespaces that may belong to the Project.
fn list_namespaces(project: &Project) -> (next: (ProjectState, ProjectStep))
    ensures
        (next.0, next.1@) == project@.list_namespaces(),
{
    (
        ProjectState::Listing,
        ProjectStep::Ask(ProjectRequest::ListNamespaces { selector: project.namespace_selector() }),
    )
}

/// The end of a reconciliation that went well.
fn finish() -> (step: ProjectStep)
    ensures
        step@ == ProjectStepView::Finish(Ok(requeue_after_interval())),
{
    ProjectStep::Finish(Ok(Action::requeue(RECONCILIATION_INTERVAL_SECS)))
}

/// The end of a reconciliation that was handed a reply it did not ask for.
fn unexpected_reply() -> (step: ProjectStep)
    ensures
        step@ == ProjectStepView::Finish(Err(ErrorView::Internal(UNEXPECTED_REPLY@))),
{
    ProjectStep::Finish(Err(Error::Internal(UNEXPECTED_REPLY.to_owned())))
}

/// What the scheduler is to do with a Project whose reconciliation failed:
/// try again after the usual interval, whatever the failure.
pub fn error_policy(error: &Error, ctx: &Context) -> (action: Action)
    ensures
        action == requeue_after_interval(),
{
    Action::requeue(RECONCILIATION_INTERVAL_SECS)
}

/// A reconciliation of a Project ends: it is over exactly when the reconciler
/// says how it ends, and each request that it makes leaves fewer requests to
/// make. A reconciliation that starts afresh makes three requests at most.
pub proof fn lemma_project_reconciliation_ends(
    project: ProjectView,
    ctx: ContextView,
    state: ProjectState,
    reply: Option<ProjectReply>,
)
    ensures
        project.step(ctx, state, reply).1 is Finish <==> project.step(ctx, state, reply).0
            == ProjectState::Done,
        project.step(ctx, state, reply).1 is Ask ==> project.step(
            ctx,
            state,
            reply,
        ).0.requests_left() < state.requests_left(),
{
}

/// The two reconcilers agree: for each of the listed Namespaces that a
/// Project owns, the changes that the reconciler of Projects asks for hold
/// the change that the reconciler of Namespaces asks for once it has fetched
/// that Project; and they hold no other change.
pub proof fn lemma_reconcilers_agree(
    project: ProjectView,
    listed: Seq<NamespaceView>,
    patch: NamespacePatchView,
)
    ensures
        patches_for(relevant_labels_of(project.labels), project.owned_among(listed)).contains(patch)
            <==> exists|namespace: NamespaceView|
            listed.contains(namespace) && namespace.owned_by(project.namespace, project.name)
                && #[trigger] namespace.patch_for(relevant_labels_of(project.labels)) == Some(
                patch,
            ),
{
    let relevant = relevant_labels_of(project.labels);
    let owned = project.owned_among(listed);
    lemma_patches_for(relevant, owned, patch);
    if patches_for(relevant, owned).contains(patch) {
        let i = choose|i: int|
            0 <= i < owned.len() && (#[trigger] owned[i]).patch_for(relevant) == Some(patch);
        assert(owned.contains(owned[i]));
        lemma_owned_among(project, listed, owned[i]);
    }
    if exists|namespace: NamespaceView|
        listed.contains(namespace) && namespace.owned_by(project.namespace, project.name)
            && #[trigger] namespace.patch_for(relevant) == Some(patch) {
        let namespace = choose|namespace: NamespaceView|
            listed.contains(namespace) && namespace.owned_by(project.namespace, project.name)
                && #[trigger] namespace.patch_for(relevant) == Some(patch);
        lemma_owned_among(project, listed, namespace);
        let i = choose|i: int| 0 <= i < owned.len() && owned[i] == namespace;
        assert(owned[i].patch_for(relevant) == Some(patch));
    }
}

/// There is one change for each Namespace that is not up to date, and it is
/// the change that brings the labels to propagate onto that Namespace.
pub proof fn lemma_patches_for(
    relevant: Map<Seq<char>, Seq<char>>,
    namespaces: Seq<NamespaceView>,
    patch: NamespacePatchView,
)
    ensures
        patches_for(relevant, namespaces).contains(patch) <==> exists|i: int|
            0 <= i < namespaces.len() && (#[trigger] namespaces[i]).patch_for(relevant) == Some(
                patch,
            ),
    decreases namespaces.len(),
{
    let patch_of = |namespace: NamespaceView| namespace.patch_for(relevant);
    if namespaces.len() > 0 {
        let front = namespaces.drop_last();
        let last = namespaces.last();
        lemma_patches_for(relevant, front, patch);
        let before = patches_for(relevant, front);
        let all = patches_for(relevant, namespaces);
        if exists|i: int|
            0 <= i < front.len() && (#[trigger] front[i]).patch_for(relevant) == Some(patch) {
            let i = choose|i: int|
                0 <= i < front.len() && (#[trigger] front[i]).patch_for(relevant) == Some(patch);
            assert(namespaces[i].patch_for(relevant) == Some(patch));
        }
        if exists|i: int|
            0 <= i < namespaces.len() && (#[trigger] namespaces[i]).patch_for(relevant) == Some(
                patch,
            ) {
            let i = choose|i: int|
                0 <= i < namespaces.len() && (#[trigger] namespaces[i]).patch_for(relevant)
                    == Some(patch);
            if i < front.len() {
                assert(front[i].patch_for(relevant) == Some(patch));
            }
        }
        match last.patch_for(relevant) {
            Some(added) => {
                assert(all == before + seq![added]);
                if before.contains(patch) {
                    let j = choose|j: int| 0 <= j < before.len() && before[j] == patch;
                    assert(all[j] == patch);
                }
                if all.contains(patch) {
                    let j = choose|j: int| 0 <= j < all.len() && all[j] == patch;
                    if j < before.len() {
                        assert(before[j] == patch);
                    } else {
                        assert(namespaces[namespaces.len() - 1].patch_for(relevant) == Some(patch));
                    }
                }
                if added == patch {
                    assert(all[before.len() as int] == patch);
                }
            },
            None => {
                assert(all == before);
            },
        }
    }
}

} // verus!
