//! Projects, the labels they propagate and the Namespaces they own.

use vstd::prelude::*;
use vstd::string::*;
use crate::labels::{distinct_keys, entries_map, lemma_entries_map_take, Labels};
use crate::namespace::{namespace_views, Namespace, NamespaceView};
use crate::sequences::lemma_filter_members;
use crate::text::{join3, lemma_same_prefix, lemma_same_suffix, strip_prefix};

verus! {

/// The key of the annotation by which a Namespace names the Project that owns
/// it, as `<project-namespace>:<project-name>`. The same key is used for the
/// label that holds the Project's name alone.
pub const NAMESPACE_ANNOTATION: &'static str = "field.cattle.io/projectId";

/// The prefix that a label of a Project carries when it is to be propagated.
pub const KEY_PROPAGATION_PREFIX: &'static str = "propagate.";

/// What a Project declares of itself. None of it is interpreted here.
#[derive(Debug, Default)]
pub struct ProjectSpec {
    pub display_name: Option<String>,
    pub description: Option<String>,
    pub cluster_name: Option<String>,
}

/// A Project, as far as the controller reads it.
#[derive(Debug)]
pub struct Project {
    /// The namespace that the Project lives in, in the cluster that hosts it.
    pub namespace: String,
    /// The name of the Project.
    pub name: String,
    /// The labels that the Project carries.
    pub labels: Labels,
    /// Whether the Project is marked for deletion.
    pub pending_deletion: bool,
    /// What the Project declares of itself.
    pub spec: ProjectSpec,
}

/// A [`Project`] as a mathematical value: all of it but what the Project
/// declares of itself.
pub struct ProjectView {
    pub namespace: Seq<char>,
    pub name: Seq<char>,
    pub labels: Map<Seq<char>, Seq<char>>,
    pub pending_deletion: bool,
}

impl View for Project {
    type V = ProjectView;

    open spec fn view(&self) -> ProjectView {
        ProjectView {
            namespace: self.namespace@,
            name: self.name@,
            labels: self.labels@,
            pending_deletion: self.pending_deletion,
        }
    }
}

/// The namespace and the name by which a Project is found.
#[derive(Debug)]
pub struct ProjectRef {
    pub namespace: String,
    pub name: String,
}

/// A [`ProjectRef`] as a mathematical value.
pub struct ProjectRefView {
    pub namespace: Seq<char>,
    pub name: Seq<char>,
}

impl View for ProjectRef {
    type V = ProjectRefView;

    open spec fn view(&self) -> ProjectRefView {
        ProjectRefView { namespace: self.namespace@, name: self.name@ }
    }
}

/// The labels that are propagated from a Project with the given labels: each
/// label whose key starts with the propagation prefix, under the rest of its
/// key.
pub open spec fn relevant_labels_of(labels: Map<Seq<char>, Seq<char>>) -> Map<
    Seq<char>,
    Seq<char>,
> {
    Map::new(
        |key: Seq<char>| labels.contains_key(KEY_PROPAGATION_PREFIX@ + key),
        |key: Seq<char>| labels[KEY_PROPAGATION_PREFIX@ + key],
    )
}

/// The value of the ownership annotation of the Namespaces that belong to the
/// Project with the given namespace and name.
pub open spec fn ownership_annotation_of(namespace: Seq<char>, name: Seq<char>) -> Seq<char> {
    namespace + seq![':'] + name
}

impl NamespaceView {
    /// Whether the ownership annotation of the Namespace names the Project
    /// with the given namespace and name.
    pub open spec fn owned_by(self, namespace: Seq<char>, name: Seq<char>) -> bool {
        self.annotations.contains_key(NAMESPACE_ANNOTATION@)
            && self.annotations[NAMESPACE_ANNOTATION@] == ownership_annotation_of(namespace, name)
    }
}

impl ProjectView {
    /// The selector by which the Namespaces that may belong to the Project
    /// are listed: the ownership label is to equal the Project's name.
    pub open spec fn namespace_selector(self) -> Seq<char> {
        NAMESPACE_ANNOTATION@ + seq!['='] + self.name
    }

    /// Those of the listed Namespaces that the Project owns, in the order of
    /// the list.
    pub open spec fn owned_among(self, listed: Seq<NamespaceView>) -> Seq<NamespaceView> {
        listed.filter(|namespace: NamespaceView| namespace.owned_by(self.namespace, self.name))
    }
}

impl Project {
    /// List of labels that have to be propagated to all the Namespaces that
    /// belong to the Project.
    ///
    /// The label keys are stripped of the propagation prefix.
    pub fn relevant_labels(&self) -> (relevant: Labels)
        ensures
            relevant@ == relevant_labels_of(self.labels@),
    {
        let entries = self.labels.entries();
        let mut relevant = Labels::new();
        let mut i: usize = 0;
        proof {
            assert(relevant@ =~= relevant_labels_of(entries_map(entries@.take(0))));
        }
        while i < entries.len()
            invariant
                i <= entries@.len(),
                distinct_keys(entries@),
                relevant@ == relevant_labels_of(entries_map(entries@.take(i as int))),
            decreases entries@.len() - i,
        {
            let ghost before = entries_map(entries@.take(i as int));
            let ghost key = entries@[i as int].0@;
            let ghost value = entries@[i as int].1@;
            let ghost prefix = KEY_PROPAGATION_PREFIX@;
            proof {
                lemma_entries_map_take(entries@, i as int);
            }
            match strip_prefix(entries[i].0.as_str(), KEY_PROPAGATION_PREFIX) {
                Some(rest) => {
                    proof {
                        assert forall|k: Seq<char>| (prefix + k == key) == (k == rest@) by {
                            lemma_same_prefix(prefix, k, rest@);
                        }
                        assert(relevant_labels_of(before.insert(key, value)) =~= relevant_labels_of(
                            before,
                        ).insert(rest@, value));
                    }
                    relevant.insert(rest.to_owned(), entries[i].1.clone());
                },
                None => {
                    proof {
                        assert forall|k: Seq<char>| prefix + k != key by {
                            lemma_same_prefix(prefix, k, k);
                        }
                        assert(relevant_labels_of(before.insert(key, value)) =~= relevant_labels_of(
                            before,
                        ));
                    }
                },
            }
            i += 1;
        }
        proof {
            assert(entries@.take(i as int) =~= entries@);
        }
        relevant
    }

    /// The query by which the Namespaces that may belong to the Project are
    /// listed: the ownership label is to equal the Project's name.
    pub fn namespace_selector(&self) -> (selector: String)
        ensures
            selector@ == self@.namespace_selector(),
    {
        proof {
            reveal_strlit("=");
            assert("="@ =~= seq!['=']);
        }
        join3(NAMESPACE_ANNOTATION, "=", self.name.as_str())
    }

    /// The value of the ownership annotation of the Namespaces that belong to
    /// the Project.
    pub fn ownership_annotation(&self) -> (annotation: String)
        ensures
            annotation@ == ownership_annotation_of(self.namespace@, self.name@),
    {
        proof {
            reveal_strlit(":");
            assert(":"@ =~= seq![':']);
        }
        join3(self.namespace.as_str(), ":", self.name.as_str())
    }

    /// Find all the Namespaces that belong to the Project, among those that a
    /// query by [`Project::namespace_selector`] has listed.
    ///
    /// The label that the query goes by holds the Project's name only, so a
    /// Project of the same name in another namespace is listed too: the
    /// Namespaces are told apart by the annotation.
    pub fn namespaces(&self, listed: &Vec<Namespace>) -> (owned: Vec<Namespace>)
        ensures
            namespace_views(owned@) == self@.owned_among(namespace_views(listed@)),
    {
        let expected_annotation = self.ownership_annotation();
        let annotation_key = NAMESPACE_ANNOTATION.to_owned();
        let ghost owns = |namespace: NamespaceView| namespace.owned_by(self@.namespace, self@.name);
        let mut owned: Vec<Namespace> = Vec::new();
        let mut i: usize = 0;
        proof {
            reveal(Seq::filter);
            assert(namespace_views(listed@.take(0)) =~= Seq::<NamespaceView>::empty());
            assert(namespace_views(owned@) =~= Seq::<NamespaceView>::empty());
        }
        while i < listed.len()
            invariant
                i <= listed@.len(),
                expected_annotation@ == ownership_annotation_of(self@.namespace, self@.name),
                annotation_key@ == NAMESPACE_ANNOTATION@,
                owns == |namespace: NamespaceView| namespace.owned_by(self@.namespace, self@.name),
                namespace_views(owned@) == namespace_views(listed@.take(i as int)).filter(owns),
            decreases listed@.len() - i,
        {
            let belongs = match listed[i].annotations.get(&annotation_key) {
                Some(annotation) => *annotation == expected_annotation,
                None => false,
            };
            proof {
                reveal(Seq::filter);
                let seen = namespace_views(listed@.take(i as int));
                let next = namespace_views(listed@.take(i as int + 1));
                assert(next =~= seen.push(listed@[i as int]@));
                assert(next.drop_last() =~= seen);
                assert(belongs == owns(listed@[i as int]@));
            }
            if belongs {
                let ghost before = owned@;
                owned.push(listed[i].clone());
                proof {
                    assert(namespace_views(owned@) =~= namespace_views(before).push(
                        listed@[i as int]@,
                    ));
                }
            }
            i += 1;
        }
        proof {
            assert(listed@.take(i as int) =~= listed@);
        }
        owned
    }
}

/// A label in the derived mapping stems from a label of the Project that
/// carries the propagation prefix, and from no other: a key is propagated
/// exactly when the Project has a label under the prefix followed by that
/// key, and it is propagated with that label's value.
pub proof fn lemma_relevant_labels_carry_prefix(labels: Map<Seq<char>, Seq<char>>, key: Seq<char>)
    ensures
        relevant_labels_of(labels).contains_key(key) <==> labels.contains_key(
            KEY_PROPAGATION_PREFIX@ + key,
        ),
        relevant_labels_of(labels).contains_key(key) ==> relevant_labels_of(labels)[key]
            == labels[KEY_PROPAGATION_PREFIX@ + key],
{
}

/// A label of the Project whose key does not carry the propagation prefix
/// has no part in the derived mapping: without it the same labels are
/// propagated. Its key, unprefixed as it is, appears in the derived mapping
/// only where another label carries the prefix followed by that key.
pub proof fn lemma_unprefixed_label_is_not_propagated(
    labels: Map<Seq<char>, Seq<char>>,
    key: Seq<char>,
)
    requires
        !KEY_PROPAGATION_PREFIX@.is_prefix_of(key),
    ensures
        relevant_labels_of(labels.remove(key)) == relevant_labels_of(labels),
        !labels.contains_key(KEY_PROPAGATION_PREFIX@ + key) ==> !relevant_labels_of(
            labels,
        ).contains_key(key),
{
    assert forall|k: Seq<char>| KEY_PROPAGATION_PREFIX@ + k != key by {
        lemma_same_prefix(KEY_PROPAGATION_PREFIX@, k, k);
    }
    assert(relevant_labels_of(labels.remove(key)) =~= relevant_labels_of(labels));
}

/// Two Projects of the same name in different namespaces never own the same
/// Namespace: a Namespace whose annotation names the one is not owned by the
/// other.
pub proof fn lemma_owner_is_told_apart_by_namespace(
    namespace: NamespaceView,
    name: Seq<char>,
    project_namespace: Seq<char>,
    other_namespace: Seq<char>,
)
    requires
        namespace.owned_by(project_namespace, name),
        project_namespace != other_namespace,
    ensures
        !namespace.owned_by(other_namespace, name),
{
    lemma_same_suffix(project_namespace, other_namespace, seq![':'] + name);
    assert(project_namespace + seq![':'] + name =~= project_namespace + (seq![':'] + name));
    assert(other_namespace + seq![':'] + name =~= other_namespace + (seq![':'] + name));
}

/// The Namespaces found for a Project are those of the listed ones whose
/// annotation names the Project.
pub proof fn lemma_owned_among(
    project: ProjectView,
    listed: Seq<NamespaceView>,
    namespace: NamespaceView,
)
    ensures
        project.owned_among(listed).contains(namespace) <==> listed.contains(namespace)
            && namespace.owned_by(project.namespace, project.name),
{
    let owns = |namespace: NamespaceView| namespace.owned_by(project.namespace, project.name);
    lemma_filter_members(listed, owns, namespace);
}

/// A Namespace that belongs to a Project of the same name in another
/// namespace is not among the Namespaces found for a Project, whether or not
/// it was listed.
pub proof fn lemma_namespaces_of_others_are_left_out(
    project: ProjectView,
    listed: Seq<NamespaceView>,
    other_namespace: Seq<char>,
    namespace: NamespaceView,
)
    requires
        namespace.owned_by(other_namespace, project.name),
        other_namespace != project.namespace,
    ensures
        !project.owned_among(listed).contains(namespace),
{
    lemma_owned_among(project, listed, namespace);
    lemma_owner_is_told_apart_by_namespace(
        namespace,
        project.name,
        other_namespace,
        project.namespace,
    );
}

} // verus!
