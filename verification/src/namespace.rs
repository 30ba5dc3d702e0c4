//! Namespaces, and how the labels of a Project are merged into them.

use vstd::prelude::*;
use crate::errors::Error;
use crate::labels::{distinct_keys, entries_map, lemma_entries_map_take, Labels};
use crate::project::{ProjectRef, ProjectRefView, NAMESPACE_ANNOTATION};
use crate::text::{first_position, lemma_cut_at_first_position, lemma_first_position, split_once};
use crate::views::option_view;

verus! {

/// A Namespace of the cluster, as far as the controller reads it.
#[derive(Debug)]
pub struct Namespace {
    /// The name, which identifies the Namespace in its cluster.
    pub name: String,
    /// The labels that the Namespace carries now.
    pub labels: Labels,
    /// The annotations; the one under [`NAMESPACE_ANNOTATION`] names the
    /// Project that owns the Namespace.
    pub annotations: Labels,
    /// Whether the Namespace is marked for deletion.
    pub pending_deletion: bool,
}

/// A [`Namespace`] as a mathematical value.
pub struct NamespaceView {
    pub name: Seq<char>,
    pub labels: Map<Seq<char>, Seq<char>>,
    pub annotations: Map<Seq<char>, Seq<char>>,
    pub pending_deletion: bool,
}

impl View for Namespace {
    type V = NamespaceView;

    open spec fn view(&self) -> NamespaceView {
        NamespaceView {
            name: self.name@,
            labels: self.labels@,
            annotations: self.annotations@,
            pending_deletion: self.pending_deletion,
        }
    }
}

impl Clone for Namespace {
    fn clone(&self) -> (copy: Namespace)
        ensures
            copy@ == self@,
    {
        Namespace {
            name: self.name.clone(),
            labels: self.labels.clone(),
            annotations: self.annotations.clone(),
            pending_deletion: self.pending_deletion,
        }
    }
}

/// The views of a list of Namespaces, in the same order.
pub open spec fn namespace_views(namespaces: Seq<Namespace>) -> Seq<NamespaceView> {
    namespaces.map_values(|namespace: Namespace| namespace@)
}

/// The Project that an ownership annotation of the given value names: its
/// namespace is what stands before the first colon, its name what stands
/// after it. A value without a colon names no Project.
pub open spec fn owner_named_by(annotation: Seq<char>) -> Option<ProjectRefView> {
    if annotation.contains(':') {
        let colon = first_position(annotation, ':');
        Some(
            ProjectRefView { namespace: annotation.take(colon), name: annotation.skip(colon + 1) },
        )
    } else {
        None
    }
}

impl NamespaceView {
    /// The Project that owns the Namespace, by its ownership annotation.
    pub open spec fn owner(self) -> Option<ProjectRefView> {
        if self.annotations.contains_key(NAMESPACE_ANNOTATION@) {
            owner_named_by(self.annotations[NAMESPACE_ANNOTATION@])
        } else {
            None
        }
    }
}

impl Namespace {
    /// The Project that owns the Namespace, by its ownership annotation.
    /// `None` where the Namespace has no such annotation, or one without a
    /// colon: such a Namespace is not managed.
    pub fn owner(&self) -> (owner: Option<ProjectRef>)
        ensures
            option_view(owner) == self@.owner(),
    {
        let annotation_key = NAMESPACE_ANNOTATION.to_owned();
        match self.annotations.get(&annotation_key) {
            Some(annotation) => {
                match split_once(annotation.as_str(), ':') {
                    Some((namespace, name)) => {
                        proof {
                            lemma_cut_at_first_position(annotation@, namespace@, ':', name@);
                        }
                        Some(ProjectRef { namespace: namespace.to_owned(), name: name.to_owned() })
                    },
                    None => None,
                }
            },
            None => None,
        }
    }
}

/// The labels that a Namespace ends up with once the labels to propagate
/// have been applied to its present ones: every propagated label is there
/// with the propagated value, and every other label is as it was.
pub open spec fn merged_labels(
    relevant: Map<Seq<char>, Seq<char>>,
    present: Map<Seq<char>, Seq<char>>,
) -> Map<Seq<char>, Seq<char>> {
    present.union_prefer_right(relevant)
}

/// Whether the present labels already hold every label to propagate, with
/// the same value.
pub open spec fn up_to_date(
    relevant: Map<Seq<char>, Seq<char>>,
    present: Map<Seq<char>, Seq<char>>,
) -> bool {
    relevant.submap_of(present)
}

/// Compute the labels that a Namespace has to be given.
///
/// Returns `Ok(None)` when no change is required, that is when every label to
/// propagate is already set to the same value. Never fails.
pub fn merge_labels(relevant_labels: &Labels, namespace_labels: &Labels) -> (result: Result<
    Option<Labels>,
    Error,
>)
    ensures
        result matches Ok(change) && match change {
            None => up_to_date(relevant_labels@, namespace_labels@),
            Some(labels) => !up_to_date(relevant_labels@, namespace_labels@) && labels@
                == merged_labels(relevant_labels@, namespace_labels@),
        },
{
    let mut labels_changed = false;
    let mut labels = namespace_labels.clone();
    let relevant = relevant_labels.entries();
    let mut i: usize = 0;
    while i < relevant.len()
        invariant
            i <= relevant@.len(),
            distinct_keys(relevant@),
            labels@ == merged_labels(entries_map(relevant@.take(i as int)), namespace_labels@),
            labels_changed == !up_to_date(entries_map(relevant@.take(i as int)), namespace_labels@),
        decreases relevant@.len() - i,
    {
        let ghost before = entries_map(relevant@.take(i as int));
        let ghost key = relevant@[i as int].0@;
        let ghost value = relevant@[i as int].1@;
        proof {
            lemma_entries_map_take(relevant@, i as int);
            lemma_merge_one_more(before, namespace_labels@, key, value);
        }
        let same = match labels.get(&relevant[i].0) {
            Some(present) => *present == relevant[i].1,
            None => false,
        };
        if !same {
            labels.insert(relevant[i].0.clone(), relevant[i].1.clone());
            labels_changed = true;
        } else {
            proof {
                assert(labels@.insert(key, value) =~= labels@);
            }
        }
        i += 1;
    }
    proof {
        assert(relevant@.take(i as int) =~= relevant@);
    }
    if labels_changed {
        Ok(Some(labels))
    } else {
        Ok(None)
    }
}

/// What one more label to propagate, under a key that is not yet among them,
/// does to the merged labels and to whether the present labels are up to date.
proof fn lemma_merge_one_more(
    relevant: Map<Seq<char>, Seq<char>>,
    present: Map<Seq<char>, Seq<char>>,
    key: Seq<char>,
    value: Seq<char>,
)
    requires
        !relevant.contains_key(key),
    ensures
        merged_labels(relevant.insert(key, value), present) == merged_labels(
            relevant,
            present,
        ).insert(key, value),
        merged_labels(relevant, present).contains_key(key) == present.contains_key(key),
        present.contains_key(key) ==> merged_labels(relevant, present)[key] == present[key],
        up_to_date(relevant.insert(key, value), present) <==> up_to_date(relevant, present)
            && present.contains_key(key) && present[key] == value,
{
    let more = relevant.insert(key, value);
    assert(merged_labels(more, present) =~= merged_labels(relevant, present).insert(key, value));
    if up_to_date(more, present) {
        assert(more.dom().contains(key) ==> present.dom().contains(key) && more[key]
            == present[key]);
        assert forall|k: Seq<char>|
            #[trigger] relevant.dom().contains(k) implies present.dom().contains(
            k,
        ) && relevant[k] == present[k] by {
            assert(more.dom().contains(k) ==> present.dom().contains(k) && more[k] == present[k]);
        }
    }
    if up_to_date(relevant, present) && present.contains_key(key) && present[key] == value {
        assert forall|k: Seq<char>|
            #[trigger] more.dom().contains(k) implies present.dom().contains(
            k,
        ) && more[k] == present[k] by {
            if k != key {
                assert(relevant.dom().contains(k) ==> present.dom().contains(k) && relevant[k]
                    == present[k]);
            }
        }
    }
}

/// The name under which the controller applies its changes to a Namespace.
/// The cluster settles conflicts with other writers by it.
pub const FIELD_MANAGER: &'static str = "racher-project-info-propagator";

/// A change of labels to apply to a Namespace.
#[derive(Debug)]
pub struct NamespacePatch {
    /// The name of the Namespace to change.
    pub namespace: String,
    /// The labels that the Namespace is to carry.
    pub labels: Labels,
    /// The name under which the change is applied.
    pub field_manager: String,
    /// Whether the change is to win over what other writers have set.
    pub force: bool,
}

/// A [`NamespacePatch`] as a mathematical value.
pub struct NamespacePatchView {
    pub namespace: Seq<char>,
    pub labels: Map<Seq<char>, Seq<char>>,
    pub field_manager: Seq<char>,
    pub force: bool,
}

impl View for NamespacePatch {
    type V = NamespacePatchView;

    open spec fn view(&self) -> NamespacePatchView {
        NamespacePatchView {
            namespace: self.namespace@,
            labels: self.labels@,
            field_manager: self.field_manager@,
            force: self.force,
        }
    }
}

impl NamespaceView {
    /// The change that brings the labels to propagate onto the Namespace, if
    /// one is needed.
    pub open spec fn patch_for(self, relevant: Map<Seq<char>, Seq<char>>) -> Option<
        NamespacePatchView,
    > {
        if up_to_date(relevant, self.labels) {
            None
        } else {
            Some(
                NamespacePatchView {
                    namespace: self.name,
                    labels: merged_labels(relevant, self.labels),
                    field_manager: FIELD_MANAGER@,
                    force: true,
                },
            )
        }
    }
}

/// Ensure that the given Namespace carries the labels to propagate.
///
/// Returns the change to apply to the Namespace in the cluster, or `Ok(None)`
/// when the Namespace is already up to date. Never fails.
pub fn propagate_labels(relevant_labels: &Labels, namespace: &Namespace) -> (result: Result<
    Option<NamespacePatch>,
    Error,
>)
    ensures
        result matches Ok(patch) && option_view(patch) == namespace@.patch_for(relevant_labels@),
{
    match merge_labels(relevant_labels, &namespace.labels) {
        Ok(Some(new_labels)) => Ok(
            Some(
                NamespacePatch {
                    namespace: namespace.name.clone(),
                    labels: new_labels,
                    field_manager: FIELD_MANAGER.to_owned(),
                    force: true,
                },
            ),
        ),
        Ok(None) => Ok(None),
        Err(error) => Err(error),
    }
}

/// Merging is idempotent: once the merged labels are in place, the same
/// labels to propagate ask for no further change.
pub proof fn lemma_merge_idempotent(
    relevant: Map<Seq<char>, Seq<char>>,
    present: Map<Seq<char>, Seq<char>>,
)
    ensures
        up_to_date(relevant, merged_labels(relevant, present)),
        merged_labels(relevant, merged_labels(relevant, present)) == merged_labels(
            relevant,
            present,
        ),
{
    assert(merged_labels(relevant, merged_labels(relevant, present)) =~= merged_labels(
        relevant,
        present,
    ));
}

/// Merging leaves every label alone that is not among the labels to
/// propagate: it is there afterwards exactly when it was there before, and
/// with the value it had.
pub proof fn lemma_merge_preserves_unrelated(
    relevant: Map<Seq<char>, Seq<char>>,
    present: Map<Seq<char>, Seq<char>>,
    key: Seq<char>,
)
    requires
        !relevant.contains_key(key),
    ensures
        merged_labels(relevant, present).contains_key(key) == present.contains_key(key),
        present.contains_key(key) ==> merged_labels(relevant, present)[key] == present[key],
{
}

/// The merged labels hold every propagated label with the propagated value,
/// every other present label with its own value, and nothing else.
pub proof fn lemma_merge_correct(
    relevant: Map<Seq<char>, Seq<char>>,
    present: Map<Seq<char>, Seq<char>>,
)
    ensures
        forall|k: Seq<char>| #[trigger]
            relevant.contains_key(k) ==> merged_labels(relevant, present).contains_key(k)
                && merged_labels(relevant, present)[k] == relevant[k],
        forall|k: Seq<char>|
            present.contains_key(k) && !relevant.contains_key(k) ==> #[trigger] merged_labels(
                relevant,
                present,
            ).contains_key(k) && merged_labels(relevant, present)[k] == present[k],
        forall|k: Seq<char>| #[trigger]
            merged_labels(relevant, present).contains_key(k) ==> relevant.contains_key(k)
                || present.contains_key(k),
{
}

/// When nothing has to change, the merged labels are the present ones.
pub proof fn lemma_merge_no_change(
    relevant: Map<Seq<char>, Seq<char>>,
    present: Map<Seq<char>, Seq<char>>,
)
    requires
        up_to_date(relevant, present),
    ensures
        merged_labels(relevant, present) == present,
{
    assert(merged_labels(relevant, present) =~= present);
}

/// An ownership annotation that names a Project is the Project's namespace,
/// a colon and the Project's name, and the namespace holds no colon.
pub proof fn lemma_owner_named_by(annotation: Seq<char>)
    ensures
        owner_named_by(annotation) is Some <==> annotation.contains(':'),
        owner_named_by(annotation) matches Some(owner) ==> annotation == owner.namespace + seq![
            ':',
        ] + owner.name && !owner.namespace.contains(':'),
{
    lemma_first_position(annotation, ':');
    if annotation.contains(':') {
        let colon = first_position(annotation, ':');
        assert(annotation =~= annotation.take(colon) + seq![':'] + annotation.skip(colon + 1));
    }
}

/// The annotation of a Namespace that a Project owns names that Project.
pub proof fn lemma_owner_of_owned(
    namespace: NamespaceView,
    project_namespace: Seq<char>,
    name: Seq<char>,
)
    requires
        namespace.owned_by(project_namespace, name),
        !project_namespace.contains(':'),
    ensures
        namespace.owner() == Some(ProjectRefView { namespace: project_namespace, name }),
{
    lemma_cut_at_first_position(
        namespace.annotations[NAMESPACE_ANNOTATION@],
        project_namespace,
        ':',
        name,
    );
}

} // verus!
