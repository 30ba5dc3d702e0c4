//! The two relations of the cache as mathematical values, and what holds of
//! them when labels are stored and Projects are deleted.

use vstd::prelude::*;
use crate::cache_rows::{adds, holds, ids_to_remove, is_missing_part, lemma_rows_map_is, rows_map};
use crate::projects_cache::{LabelInsertView, LabelView};
use crate::sequences::{lemma_filter_keeps_distinct, lemma_filter_members};

verus! {

/// A row of the Projects relation as a mathematical value.
pub struct ProjectRowView {
    pub id: int,
    pub name: Seq<char>,
}

/// A row of the labels relation as a mathematical value.
pub struct LabelRowView {
    pub project_id: int,
    pub label: LabelView,
}

/// The two relations of the cache.
pub struct CacheView {
    /// The Projects that the cache knows.
    pub projects: Seq<ProjectRowView>,
    /// The labels of those Projects.
    pub labels: Seq<LabelRowView>,
}

impl CacheView {
    /// Whether the cache knows a Project of the given name.
    pub open spec fn knows(self, name: Seq<char>) -> bool {
        exists|i: int| 0 <= i < self.projects.len() && (#[trigger] self.projects[i]).name == name
    }

    /// Whether the Projects relation has a row with the given identifier.
    pub open spec fn has_project(self, project_id: int) -> bool {
        exists|p: int|
            0 <= p < self.projects.len() && (#[trigger] self.projects[p]).id == project_id
    }

    /// The identifier of the Project of the given name, where the cache
    /// knows it.
    pub open spec fn project_id(self, name: Seq<char>) -> int {
        self.projects[choose|i: int|
            0 <= i < self.projects.len() && (#[trigger] self.projects[i]).name == name].id
    }

    /// Whether a row of the labels relation holds the key with the value
    /// for the Project with the given identifier.
    pub open spec fn stores(self, project_id: int, key: Seq<char>, value: Seq<char>) -> bool {
        exists|i: int|
            0 <= i < self.labels.len() && (#[trigger] self.labels[i]).project_id == project_id
                && self.labels[i].label.key == key && self.labels[i].label.value == value
    }

    /// The labels that are stored for the Project with the given identifier.
    pub open spec fn labels_with(self, project_id: int) -> Map<Seq<char>, Seq<char>> {
        Map::new(
            |key: Seq<char>| exists|value: Seq<char>| self.stores(project_id, key, value),
            |key: Seq<char>| choose|value: Seq<char>| self.stores(project_id, key, value),
        )
    }

    /// The labels that the cache holds for the Project of the given name:
    /// `None` where it does not know the Project, a mapping, which may be
    /// empty, where it does.
    pub open spec fn labels_of(self, name: Seq<char>) -> Option<Map<Seq<char>, Seq<char>>> {
        if self.knows(name) {
            Some(self.labels_with(self.project_id(name)))
        } else {
            None
        }
    }

    /// What holds of the two relations at all times: no two Projects have
    /// the same name or the same identifier, no two labels have the same
    /// identifier, every label belongs to a Project that is there, and a
    /// Project has one value for a key.
    pub open spec fn well_formed(self) -> bool {
        &&& forall|i: int, j: int|
            0 <= i < j < self.projects.len() ==> (#[trigger] self.projects[i]).name != (
            #[trigger] self.projects[j]).name
        &&& forall|i: int, j: int|
            0 <= i < j < self.projects.len() ==> (#[trigger] self.projects[i]).id != (
            #[trigger] self.projects[j]).id
        &&& forall|i: int, j: int|
            0 <= i < j < self.labels.len() ==> (#[trigger] self.labels[i]).label.id != (
            #[trigger] self.labels[j]).label.id
        &&& forall|i: int|
            0 <= i < self.labels.len() ==> self.has_project((#[trigger] self.labels[i]).project_id)
        &&& forall|i: int, j: int|
            0 <= i < self.labels.len() && 0 <= j < self.labels.len() && (
            #[trigger] self.labels[i]).project_id == (#[trigger] self.labels[j]).project_id
                && self.labels[i].label.key == self.labels[j].label.key
                ==> self.labels[i].label.value == self.labels[j].label.value
    }
}

/// In a well-formed cache, the Project in a row of the Projects relation is
/// known, under the identifier of that row.
pub proof fn lemma_project_row(cache: CacheView, i: int)
    requires
        cache.well_formed(),
        0 <= i < cache.projects.len(),
    ensures
        cache.knows(cache.projects[i].name),
        cache.project_id(cache.projects[i].name) == cache.projects[i].id,
{
    let name = cache.projects[i].name;
    let j = choose|j: int|
        0 <= j < cache.projects.len() && (#[trigger] cache.projects[j]).name == name;
    if j < i {
        assert(cache.projects[j].name != cache.projects[i].name);
    }
    if i < j {
        assert(cache.projects[i].name != cache.projects[j].name);
    }
}

/// In a well-formed cache, the labels stored for a Project are exactly what
/// the rows of the labels relation hold for it.
pub proof fn lemma_labels_with(cache: CacheView, project_id: int, key: Seq<char>, value: Seq<char>)
    requires
        cache.well_formed(),
    ensures
        cache.stores(project_id, key, value) <==> cache.labels_with(project_id).contains_key(key)
            && cache.labels_with(project_id)[key] == value,
{
    if cache.labels_with(project_id).contains_key(key) {
        let chosen = choose|value: Seq<char>| cache.stores(project_id, key, value);
        assert(cache.stores(project_id, key, chosen));
        let i = choose|i: int|
            0 <= i < cache.labels.len() && (#[trigger] cache.labels[i]).project_id == project_id
                && cache.labels[i].label.key == key && cache.labels[i].label.value == chosen;
        if cache.stores(project_id, key, value) {
            let j = choose|j: int|
                0 <= j < cache.labels.len() && (#[trigger] cache.labels[j]).project_id
                    == project_id && cache.labels[j].label.key == key
                    && cache.labels[j].label.value == value;
            assert(cache.labels[i].label.value == cache.labels[j].label.value);
        }
    }
}

/// Whether the labels relation has the row for the Project with the given
/// identifier.
pub open spec fn has_row(labels: Seq<LabelRowView>, project_id: int, row: LabelView) -> bool {
    labels.contains(LabelRowView { project_id, label: row })
}

/// Whether the rows are those of the labels relation that belong to the
/// Project with the given identifier, in some order.
pub open spec fn is_selection(
    rows: Seq<LabelView>,
    labels: Seq<LabelRowView>,
    project_id: int,
) -> bool {
    &&& forall|j: int| 0 <= j < rows.len() ==> has_row(labels, project_id, #[trigger] rows[j])
    &&& forall|t: int|
        0 <= t < labels.len() && (#[trigger] labels[t]).project_id == project_id ==> rows.contains(
            labels[t].label,
        )
}

/// A selection of the rows of a Project stays one when the relation grows
/// by a row, provided the selection grows by that row's label exactly when
/// the row belongs to the Project.
pub proof fn lemma_selection_grows(
    rows: Seq<LabelView>,
    labels: Seq<LabelRowView>,
    project_id: int,
    row: LabelRowView,
    more: Seq<LabelView>,
)
    requires
        is_selection(rows, labels, project_id),
        more == (if row.project_id == project_id {
            rows.push(row.label)
        } else {
            rows
        }),
    ensures
        is_selection(more, labels.push(row), project_id),
{
    let grown = labels.push(row);
    assert forall|j: int| 0 <= j < more.len() implies has_row(
        grown,
        project_id,
        #[trigger] more[j],
    ) by {
        if j < rows.len() {
            assert(more[j] == rows[j]);
            assert(has_row(labels, project_id, rows[j]));
            let t = choose|t: int|
                0 <= t < labels.len() && labels[t] == (LabelRowView {
                    project_id,
                    label: rows[j],
                });
            assert(grown[t] == labels[t]);
        } else {
            assert(grown[labels.len() as int] == row);
        }
    }
    assert forall|t: int|
        0 <= t < grown.len() && (#[trigger] grown[t]).project_id
            == project_id implies more.contains(grown[t].label) by {
        if t < labels.len() {
            assert(grown[t] == labels[t]);
            assert(rows.contains(labels[t].label));
            let j = choose|j: int| 0 <= j < rows.len() && rows[j] == labels[t].label;
            assert(more[j] == rows[j]);
        } else {
            assert(more[rows.len() as int] == row.label);
        }
    }
}

/// The rows that a query for the labels of a Project returns hold a key with
/// a value exactly when the labels relation does so for that Project.
pub proof fn lemma_selection_holds(
    cache: CacheView,
    project_id: int,
    rows: Seq<LabelView>,
    key: Seq<char>,
    value: Seq<char>,
)
    requires
        is_selection(rows, cache.labels, project_id),
    ensures
        holds(rows, key, value) <==> cache.stores(project_id, key, value),
{
    let labels = cache.labels;
    if holds(rows, key, value) {
        let j = choose|j: int|
            0 <= j < rows.len() && (#[trigger] rows[j]).key == key && rows[j].value == value;
        assert(has_row(labels, project_id, rows[j]));
        let t = choose|t: int|
            0 <= t < labels.len() && labels[t] == (LabelRowView { project_id, label: rows[j] });
        assert(cache.labels[t].label.key == key);
    }
    if cache.stores(project_id, key, value) {
        let t = choose|t: int|
            0 <= t < labels.len() && (#[trigger] cache.labels[t]).project_id == project_id
                && labels[t].label.key == key && labels[t].label.value == value;
        assert(rows.contains(labels[t].label));
        let j = choose|j: int| 0 <= j < rows.len() && rows[j] == labels[t].label;
        assert(rows[j].key == key);
    }
}

/// The rows that a query for the labels of a Project returns stand for the
/// labels that are stored for that Project.
pub proof fn lemma_selection_stands_for(cache: CacheView, project_id: int, rows: Seq<LabelView>)
    requires
        cache.well_formed(),
        is_selection(rows, cache.labels, project_id),
    ensures
        rows_map(rows) == cache.labels_with(project_id),
{
    assert forall|key: Seq<char>, value: Seq<char>|
        holds(rows, key, value) <==> cache.labels_with(project_id).contains_key(key)
            && cache.labels_with(project_id)[key] == value by {
        lemma_selection_holds(cache, project_id, rows, key, value);
        lemma_labels_with(cache, project_id, key, value);
    }
    lemma_rows_map_is(rows, cache.labels_with(project_id));
}

/// A cache whose labels relation holds for a Project exactly the labels of
/// a mapping, each with its value, stores that mapping for the Project.
pub proof fn lemma_labels_with_is(
    cache: CacheView,
    project_id: int,
    labels: Map<Seq<char>, Seq<char>>,
)
    requires
        forall|key: Seq<char>, value: Seq<char>|
            cache.stores(project_id, key, value) <==> labels.contains_key(key) && labels[key]
                == value,
    ensures
        cache.labels_with(project_id) == labels,
{
    let stored = cache.labels_with(project_id);
    assert forall|key: Seq<char>| stored.contains_key(key) <==> labels.contains_key(key) by {
        if labels.contains_key(key) {
            assert(cache.stores(project_id, key, labels[key]));
        }
        if stored.contains_key(key) {
            let value = choose|value: Seq<char>| cache.stores(project_id, key, value);
            assert(cache.stores(project_id, key, value));
        }
    }
    assert forall|key: Seq<char>| stored.contains_key(key) implies stored[key] == labels[key] by {
        let value = choose|value: Seq<char>| cache.stores(project_id, key, value);
        assert(cache.stores(project_id, key, value));
    }
    assert(stored =~= labels);
}

/// Two well-formed caches whose labels relations hold the same for a Project
/// store the same labels for it.
pub proof fn lemma_same_labels(before: CacheView, after: CacheView, project_id: int)
    requires
        before.well_formed(),
        forall|key: Seq<char>, value: Seq<char>|
            after.stores(project_id, key, value) <==> before.stores(project_id, key, value),
    ensures
        after.labels_with(project_id) == before.labels_with(project_id),
{
    assert forall|key: Seq<char>, value: Seq<char>|
        after.stores(project_id, key, value) <==> before.labels_with(project_id).contains_key(key)
            && before.labels_with(project_id)[key] == value by {
        lemma_labels_with(before, project_id, key, value);
    }
    lemma_labels_with_is(after, project_id, before.labels_with(project_id));
}

impl LabelRowView {
    /// Whether the row stays when the rows of the given Project, if one is
    /// given, and the rows with the given identifiers are deleted.
    pub open spec fn stays(self, project_id: Option<int>, ids: Seq<int>) -> bool {
        project_id != Some(self.project_id) && !ids.contains(self.label.id)
    }
}

impl CacheView {
    /// The Projects relation without the Project with the given identifier.
    pub open spec fn projects_except(self, project_id: int) -> Seq<ProjectRowView> {
        self.projects.filter(|row: ProjectRowView| row.id != project_id)
    }

    /// The labels relation without the rows of the given Project, if one is
    /// given, and without the rows with the given identifiers.
    pub open spec fn labels_except(self, project_id: Option<int>, ids: Seq<int>) -> Seq<
        LabelRowView,
    > {
        self.labels.filter(|row: LabelRowView| row.stays(project_id, ids))
    }

    /// The cache without the Project with the given identifier and without
    /// the labels of that Project.
    pub open spec fn without_project(self, project_id: int) -> CacheView {
        CacheView {
            projects: self.projects_except(project_id),
            labels: self.labels_except(Some(project_id), Seq::empty()),
        }
    }
}

/// What a cache holds once a Project is deleted from it with its labels: the
/// cache is well-formed, does not know the Project any more, holds no row of
/// the labels relation for it, and holds for every other Project what it
/// held before.
pub proof fn lemma_without_project(cache: CacheView, name: Seq<char>)
    requires
        cache.well_formed(),
        cache.knows(name),
    ensures
        cache.without_project(cache.project_id(name)).well_formed(),
        cache.without_project(cache.project_id(name)).labels_of(name) is None,
        forall|i: int|
            0 <= i < cache.without_project(cache.project_id(name)).labels.len() ==> (
            #[trigger] cache.without_project(cache.project_id(name)).labels[i]).project_id
                != cache.project_id(name),
        forall|other: Seq<char>|
            other != name ==> #[trigger] cache.without_project(cache.project_id(name)).labels_of(
                other,
            ) == cache.labels_of(other),
{
    let id = cache.project_id(name);
    let after = cache.without_project(id);
    let project_stays = |row: ProjectRowView| row.id != id;
    let label_stays = |row: LabelRowView| row.stays(Some(id), Seq::<int>::empty());
    let at = choose|i: int|
        0 <= i < cache.projects.len() && (#[trigger] cache.projects[i]).name == name;
    lemma_filter_keeps_distinct(cache.projects, project_stays, |row: ProjectRowView| row.name);
    lemma_filter_keeps_distinct(cache.projects, project_stays, |row: ProjectRowView| row.id);
    lemma_filter_keeps_distinct(cache.labels, label_stays, |row: LabelRowView| row.label.id);
    assert forall|i: int|
        0 <= i < after.labels.len() implies (#[trigger] after.labels[i]).project_id
        != id && cache.labels.contains(after.labels[i]) by {
        assert(after.labels.contains(after.labels[i]));
        lemma_filter_members(cache.labels, label_stays, after.labels[i]);
    }
    assert forall|i: int|
        0 <= i < after.projects.len() implies (#[trigger] after.projects[i]).id != id
        && cache.projects.contains(after.projects[i]) by {
        assert(after.projects.contains(after.projects[i]));
        lemma_filter_members(cache.projects, project_stays, after.projects[i]);
    }
    assert forall|i: int| 0 <= i < after.labels.len() implies after.has_project(
        (#[trigger] after.labels[i]).project_id,
    ) by {
        assert(cache.labels.contains(after.labels[i]));
        let t = choose|t: int| 0 <= t < cache.labels.len() && cache.labels[t] == after.labels[i];
        assert(cache.has_project(cache.labels[t].project_id));
        let p = choose|p: int|
            0 <= p < cache.projects.len() && (#[trigger] cache.projects[p]).id
                == cache.labels[t].project_id;
        assert(cache.projects.contains(cache.projects[p]));
        lemma_filter_members(cache.projects, project_stays, cache.projects[p]);
        let q = choose|q: int|
            0 <= q < after.projects.len() && after.projects[q] == cache.projects[p];
        assert(after.projects[q].id == after.labels[i].project_id);
    }
    assert forall|i: int, j: int|
        0 <= i < after.labels.len() && 0 <= j < after.labels.len() && (
        #[trigger] after.labels[i]).project_id == (#[trigger] after.labels[j]).project_id
            && after.labels[i].label.key
            == after.labels[j].label.key implies after.labels[i].label.value
        == after.labels[j].label.value by {
        let a = choose|a: int| 0 <= a < cache.labels.len() && cache.labels[a] == after.labels[i];
        let b = choose|b: int| 0 <= b < cache.labels.len() && cache.labels[b] == after.labels[j];
        assert(cache.labels[a].label.value == cache.labels[b].label.value);
    }
    assert(after.projects == cache.projects.filter(project_stays));
    assert(after.labels == cache.labels.filter(label_stays));
    assert(forall|i: int, j: int|
        0 <= i < j < after.projects.len() ==> (#[trigger] after.projects[i]).name != (
        #[trigger] after.projects[j]).name);
    assert(forall|i: int, j: int|
        0 <= i < j < after.projects.len() ==> (#[trigger] after.projects[i]).id != (
        #[trigger] after.projects[j]).id);
    assert(forall|i: int, j: int|
        0 <= i < j < after.labels.len() ==> (#[trigger] after.labels[i]).label.id != (
        #[trigger] after.labels[j]).label.id);
    assert(forall|i: int, j: int|
        0 <= i < after.labels.len() && 0 <= j < after.labels.len() && (
        #[trigger] after.labels[i]).project_id == (#[trigger] after.labels[j]).project_id
            && after.labels[i].label.key == after.labels[j].label.key
            ==> after.labels[i].label.value == after.labels[j].label.value);
    assert(after.well_formed());
    if after.knows(name) {
        let q = choose|q: int|
            0 <= q < after.projects.len() && (#[trigger] after.projects[q]).name == name;
        let p = choose|p: int|
            0 <= p < cache.projects.len() && cache.projects[p] == after.projects[q];
        lemma_project_row(cache, p);
    }
    assert forall|other: Seq<char>| other != name implies #[trigger] after.labels_of(other)
        == cache.labels_of(other) by {
        if after.knows(other) {
            let q = choose|q: int|
                0 <= q < after.projects.len() && (#[trigger] after.projects[q]).name == other;
            let p = choose|p: int|
                0 <= p < cache.projects.len() && cache.projects[p] == after.projects[q];
            lemma_project_row(cache, p);
            lemma_project_row(after, q);
        }
        if cache.knows(other) {
            let p = choose|p: int|
                0 <= p < cache.projects.len() && (#[trigger] cache.projects[p]).name == other;
            lemma_project_row(cache, p);
            lemma_project_row(cache, at);
            if p < at {
                assert(cache.projects[p].id != cache.projects[at].id);
            }
            if at < p {
                assert(cache.projects[at].id != cache.projects[p].id);
            }
            assert(cache.projects.contains(cache.projects[p]));
            lemma_filter_members(cache.projects, project_stays, cache.projects[p]);
            let q = choose|q: int|
                0 <= q < after.projects.len() && after.projects[q] == cache.projects[p];
            lemma_project_row(after, q);
            let other_id = cache.project_id(other);
            assert forall|key: Seq<char>, value: Seq<char>|
                after.stores(other_id, key, value) <==> cache.stores(other_id, key, value) by {
                if after.stores(other_id, key, value) {
                    let i = choose|i: int|
                        0 <= i < after.labels.len() && (#[trigger] after.labels[i]).project_id
                            == other_id && after.labels[i].label.key == key
                            && after.labels[i].label.value == value;
                    let t = choose|t: int|
                        0 <= t < cache.labels.len() && cache.labels[t] == after.labels[i];
                    assert(cache.labels[t].project_id == other_id);
                }
                if cache.stores(other_id, key, value) {
                    let t = choose|t: int|
                        0 <= t < cache.labels.len() && (#[trigger] cache.labels[t]).project_id
                            == other_id && cache.labels[t].label.key == key
                            && cache.labels[t].label.value == value;
                    assert(cache.labels.contains(cache.labels[t]));
                    assert(!Seq::<int>::empty().contains(cache.labels[t].label.id));
                    lemma_filter_members(cache.labels, label_stays, cache.labels[t]);
                    let i = choose|i: int|
                        0 <= i < after.labels.len() && after.labels[i] == cache.labels[t];
                    assert(after.labels[i].project_id == other_id);
                }
            }
            lemma_same_labels(cache, after, other_id);
        }
    }
}

/// The rows that come into the labels relation for the rows to add: one
/// for each, in their order, with identifiers that count up from the given
/// one.
pub open spec fn new_rows(added: Seq<LabelInsertView>, first_id: int) -> Seq<LabelRowView> {
    Seq::new(
        added.len(),
        |t: int|
            LabelRowView {
                project_id: added[t].project_id,
                label: LabelView { id: first_id + t, key: added[t].key, value: added[t].value },
            },
    )
}

/// Whether the second cache is what the first becomes when the labels of
/// the Project of the given name are brought to the given ones: the Project
/// is there, under the identifier it had or under a new one; the rows named
/// by [`ids_to_remove`] are gone from the labels relation; and the missing
/// rows have come into it, under new identifiers.
pub open spec fn is_update(
    before: CacheView,
    after: CacheView,
    name: Seq<char>,
    labels: Map<Seq<char>, Seq<char>>,
    project_id: int,
    current: Seq<LabelView>,
    added: Seq<LabelInsertView>,
    first_id: int,
) -> bool {
    &&& if before.knows(name) {
        project_id == before.project_id(name) && after.projects == before.projects
    } else {
        &&& forall|i: int|
            0 <= i < before.projects.len() ==> (#[trigger] before.projects[i]).id < project_id
        &&& after.projects == before.projects.push(ProjectRowView { id: project_id, name })
    }
    &&& is_selection(current, before.labels, project_id)
    &&& is_missing_part(added, current, labels, project_id)
    &&& forall|i: int|
        0 <= i < before.labels.len() ==> (#[trigger] before.labels[i]).label.id < first_id
    &&& after.labels == before.labels_except(None, ids_to_remove(current, labels)) + new_rows(
        added,
        first_id,
    )
}

/// Which rows of the labels relation are named by [`ids_to_remove`]: those
/// of the Project that do not hold one of the labels with its value.
proof fn lemma_removed_rows(
    before: CacheView,
    labels: Map<Seq<char>, Seq<char>>,
    project_id: int,
    current: Seq<LabelView>,
    i: int,
)
    requires
        before.well_formed(),
        is_selection(current, before.labels, project_id),
        0 <= i < before.labels.len(),
    ensures
        ids_to_remove(current, labels).contains(before.labels[i].label.id)
            <==> before.labels[i].project_id == project_id
            && !before.labels[i].label.is_current(labels),
{
    let row = before.labels[i];
    let leaves = |row: LabelView| !row.is_current(labels);
    let id_of = |row: LabelView| row.id;
    let gone = current.filter(leaves);
    let ids = ids_to_remove(current, labels);
    assert(ids == gone.map_values(id_of));
    if ids.contains(row.label.id) {
        let e = choose|e: int| 0 <= e < ids.len() && ids[e] == row.label.id;
        assert(gone[e].id == row.label.id);
        assert(gone.contains(gone[e]));
        lemma_filter_members(current, leaves, gone[e]);
        let j = choose|j: int| 0 <= j < current.len() && current[j] == gone[e];
        assert(has_row(before.labels, project_id, current[j]));
        let t = choose|t: int|
            0 <= t < before.labels.len() && before.labels[t] == (LabelRowView {
                project_id,
                label: current[j],
            });
        if t < i {
            assert(before.labels[t].label.id != before.labels[i].label.id);
        }
        if i < t {
            assert(before.labels[i].label.id != before.labels[t].label.id);
        }
    }
    if row.project_id == project_id && !row.label.is_current(labels) {
        assert(current.contains(row.label));
        lemma_filter_members(current, leaves, row.label);
        let e = choose|e: int| 0 <= e < gone.len() && gone[e] == row.label;
        assert(ids[e] == row.label.id);
    }
}

/// Which rows the labels relation has once the labels of a Project have
/// been brought to the given ones: the rows it had, but for those of the
/// Project that did not hold one of the labels with its value, and the new
/// rows.
pub proof fn lemma_rows_after_update(
    before: CacheView,
    after: CacheView,
    name: Seq<char>,
    labels: Map<Seq<char>, Seq<char>>,
    project_id: int,
    current: Seq<LabelView>,
    added: Seq<LabelInsertView>,
    first_id: int,
    row: LabelRowView,
)
    requires
        before.well_formed(),
        is_update(before, after, name, labels, project_id, current, added, first_id),
    ensures
        after.labels.contains(row) <==> (before.labels.contains(row) && !(row.project_id
            == project_id && !row.label.is_current(labels))) || new_rows(
            added,
            first_id,
        ).contains(row),
{
    let ids = ids_to_remove(current, labels);
    let stays = |row: LabelRowView| row.stays(None, ids);
    let kept = before.labels.filter(stays);
    let fresh = new_rows(added, first_id);
    assert(after.labels == kept + fresh);
    lemma_filter_members(before.labels, stays, row);
    if before.labels.contains(row) {
        let i = choose|i: int| 0 <= i < before.labels.len() && before.labels[i] == row;
        lemma_removed_rows(before, labels, project_id, current, i);
    }
    if after.labels.contains(row) {
        let i = choose|i: int| 0 <= i < after.labels.len() && after.labels[i] == row;
        if i < kept.len() {
            assert(kept[i] == row);
        } else {
            assert(fresh[i - kept.len()] == row);
        }
    }
    if kept.contains(row) {
        let i = choose|i: int| 0 <= i < kept.len() && kept[i] == row;
        assert(after.labels[i] == row);
    }
    if fresh.contains(row) {
        let i = choose|i: int| 0 <= i < fresh.len() && fresh[i] == row;
        assert(after.labels[kept.len() + i] == row);
    }
}

/// Bringing the labels of a Project to the given ones leaves the cache
/// well-formed.
pub proof fn lemma_update_is_well_formed(
    before: CacheView,
    after: CacheView,
    name: Seq<char>,
    labels: Map<Seq<char>, Seq<char>>,
    project_id: int,
    current: Seq<LabelView>,
    added: Seq<LabelInsertView>,
    first_id: int,
)
    requires
        before.well_formed(),
        is_update(before, after, name, labels, project_id, current, added, first_id),
    ensures
        after.well_formed(),
        after.knows(name),
        after.project_id(name) == project_id,
{
    let ids = ids_to_remove(current, labels);
    let stays = |row: LabelRowView| row.stays(None, ids);
    let kept = before.labels.filter(stays);
    let fresh = new_rows(added, first_id);
    assert(after.labels == kept + fresh);
    lemma_filter_keeps_distinct(before.labels, stays, |row: LabelRowView| row.label.id);
    assert forall|i: int|
        0 <= i < kept.len() implies before.labels.contains(#[trigger] kept[i]) by {
        assert(kept.contains(kept[i]));
        lemma_filter_members(before.labels, stays, kept[i]);
    }
    assert forall|i: int, j: int|
        0 <= i < j < after.labels.len() implies (#[trigger] after.labels[i]).label.id
        != (#[trigger] after.labels[j]).label.id by {
        if j < kept.len() {
            assert(after.labels[i] == kept[i] && after.labels[j] == kept[j]);
        } else if i < kept.len() {
            assert(after.labels[i] == kept[i]);
            assert(before.labels.contains(kept[i]));
            let t = choose|t: int| 0 <= t < before.labels.len() && before.labels[t] == kept[i];
            assert(before.labels[t].label.id < first_id);
            assert(after.labels[j] == fresh[j - kept.len()]);
        } else {
            assert(after.labels[i] == fresh[i - kept.len()]);
            assert(after.labels[j] == fresh[j - kept.len()]);
        }
    }
    let at = if before.knows(name) {
        choose|i: int|
            0 <= i < before.projects.len() && (#[trigger] before.projects[i]).name == name
    } else {
        before.projects.len() as int
    };
    if before.knows(name) {
        lemma_project_row(before, at);
    } else {
        assert forall|i: int, j: int| 0 <= i < j < after.projects.len() implies (
        #[trigger] after.projects[i]).name != (#[trigger] after.projects[j]).name by {
            if j < before.projects.len() {
                assert(before.projects[i].name != before.projects[j].name);
            } else {
                assert(before.projects[i].name != name);
            }
        }
        assert forall|i: int, j: int| 0 <= i < j < after.projects.len() implies (
        #[trigger] after.projects[i]).id != (#[trigger] after.projects[j]).id by {
            if j < before.projects.len() {
                assert(before.projects[i].id != before.projects[j].id);
            } else {
                assert(before.projects[i].id < project_id);
            }
        }
    }
    assert(after.projects[at].name == name && after.projects[at].id == project_id);
    assert(after.has_project(project_id));
    assert forall|i: int| 0 <= i < after.labels.len() implies after.has_project(
        (#[trigger] after.labels[i]).project_id,
    ) by {
        if i < kept.len() {
            assert(after.labels[i] == kept[i]);
            assert(before.labels.contains(kept[i]));
            let t = choose|t: int| 0 <= t < before.labels.len() && before.labels[t] == kept[i];
            assert(before.has_project(before.labels[t].project_id));
            let p = choose|p: int|
                0 <= p < before.projects.len() && (#[trigger] before.projects[p]).id
                    == before.labels[t].project_id;
            assert(after.projects[p] == before.projects[p]);
        } else {
            assert(after.labels[i] == fresh[i - kept.len()]);
            assert(added[i - kept.len()].project_id == project_id);
        }
    }
    assert forall|i: int, j: int|
        0 <= i < after.labels.len() && 0 <= j < after.labels.len() && (
        #[trigger] after.labels[i]).project_id == (#[trigger] after.labels[j]).project_id
            && after.labels[i].label.key
            == after.labels[j].label.key implies after.labels[i].label.value
        == after.labels[j].label.value by {
        let x = after.labels[i];
        let y = after.labels[j];
        assert(after.labels.contains(x) && after.labels.contains(y));
        lemma_rows_after_update(
            before,
            after,
            name,
            labels,
            project_id,
            current,
            added,
            first_id,
            x,
        );
        lemma_rows_after_update(
            before,
            after,
            name,
            labels,
            project_id,
            current,
            added,
            first_id,
            y,
        );
        lemma_new_row(added, first_id, labels, project_id, current, x);
        lemma_new_row(added, first_id, labels, project_id, current, y);
        if before.labels.contains(x) && before.labels.contains(y) {
            let a = choose|a: int| 0 <= a < before.labels.len() && before.labels[a] == x;
            let b = choose|b: int| 0 <= b < before.labels.len() && before.labels[b] == y;
            assert(before.labels[a].label.value == before.labels[b].label.value);
        } else if fresh.contains(x) && fresh.contains(y) {
            let a = choose|a: int| 0 <= a < fresh.len() && fresh[a] == x;
            let b = choose|b: int| 0 <= b < fresh.len() && fresh[b] == y;
            if a < b {
                assert(added[a].key != added[b].key);
            }
            if b < a {
                assert(added[b].key != added[a].key);
            }
        }
    }
    assert(after.well_formed());
    lemma_project_row(after, at);
}

/// A new row belongs to the Project and holds one of the labels with its
/// value.
proof fn lemma_new_row(
    added: Seq<LabelInsertView>,
    first_id: int,
    labels: Map<Seq<char>, Seq<char>>,
    project_id: int,
    current: Seq<LabelView>,
    row: LabelRowView,
)
    requires
        is_missing_part(added, current, labels, project_id),
    ensures
        new_rows(added, first_id).contains(row) ==> row.project_id == project_id
            && row.label.is_current(labels) && adds(added, row.label.key, row.label.value),
{
    let fresh = new_rows(added, first_id);
    if fresh.contains(row) {
        let a = choose|a: int| 0 <= a < fresh.len() && fresh[a] == row;
        assert(added[a].project_id == project_id);
        assert(added[a].key == row.label.key);
    }
}

/// Once the labels of a Project have been brought to the given ones, the
/// cache holds exactly those labels for the Project.
pub proof fn lemma_update_stores_labels(
    before: CacheView,
    after: CacheView,
    name: Seq<char>,
    labels: Map<Seq<char>, Seq<char>>,
    project_id: int,
    current: Seq<LabelView>,
    added: Seq<LabelInsertView>,
    first_id: int,
)
    requires
        before.well_formed(),
        is_update(before, after, name, labels, project_id, current, added, first_id),
    ensures
        after.labels_of(name) == Some(labels),
{
    lemma_update_is_well_formed(before, after, name, labels, project_id, current, added, first_id);
    let fresh = new_rows(added, first_id);
    assert forall|key: Seq<char>, value: Seq<char>|
        after.stores(project_id, key, value) <==> labels.contains_key(key) && labels[key]
            == value by {
        if after.stores(project_id, key, value) {
            let i = choose|i: int|
                0 <= i < after.labels.len() && (#[trigger] after.labels[i]).project_id == project_id
                    && after.labels[i].label.key == key && after.labels[i].label.value == value;
            let x = after.labels[i];
            assert(after.labels.contains(x));
            lemma_rows_after_update(
                before,
                after,
                name,
                labels,
                project_id,
                current,
                added,
                first_id,
                x,
            );
            lemma_new_row(added, first_id, labels, project_id, current, x);
        }
        if labels.contains_key(key) && labels[key] == value {
            if holds(current, key, value) {
                let j = choose|j: int|
                    0 <= j < current.len() && (#[trigger] current[j]).key == key
                        && current[j].value == value;
                assert(has_row(before.labels, project_id, current[j]));
                let x = LabelRowView { project_id, label: current[j] };
                lemma_rows_after_update(
                    before,
                    after,
                    name,
                    labels,
                    project_id,
                    current,
                    added,
                    first_id,
                    x,
                );
                let i = choose|i: int| 0 <= i < after.labels.len() && after.labels[i] == x;
                assert(after.labels[i].project_id == project_id);
            } else {
                let a = choose|a: int| 0 <= a < added.len() && (#[trigger] added[a]).key == key;
                assert(added[a].project_id == project_id);
                let x = fresh[a];
                assert(fresh.contains(x));
                lemma_rows_after_update(
                    before,
                    after,
                    name,
                    labels,
                    project_id,
                    current,
                    added,
                    first_id,
                    x,
                );
                let i = choose|i: int| 0 <= i < after.labels.len() && after.labels[i] == x;
                assert(after.labels[i].project_id == project_id);
            }
        }
    }
    lemma_labels_with_is(after, project_id, labels);
}

/// Bringing the labels of a Project to the given ones changes nothing of
/// what the cache holds for any other Project.
pub proof fn lemma_update_keeps_others(
    before: CacheView,
    after: CacheView,
    name: Seq<char>,
    labels: Map<Seq<char>, Seq<char>>,
    project_id: int,
    current: Seq<LabelView>,
    added: Seq<LabelInsertView>,
    first_id: int,
    other: Seq<char>,
)
    requires
        before.well_formed(),
        is_update(before, after, name, labels, project_id, current, added, first_id),
        other != name,
    ensures
        after.labels_of(other) == before.labels_of(other),
{
    lemma_update_is_well_formed(before, after, name, labels, project_id, current, added, first_id);
    if after.knows(other) {
        let q = choose|q: int|
            0 <= q < after.projects.len() && (#[trigger] after.projects[q]).name == other;
        assert(before.projects[q].name == other);
    }
    if before.knows(other) {
        let p = choose|p: int|
            0 <= p < before.projects.len() && (#[trigger] before.projects[p]).name == other;
        assert(after.projects[p] == before.projects[p]);
        lemma_project_row(before, p);
        lemma_project_row(after, p);
        let other_id = before.project_id(other);
        if before.knows(name) {
            let at = choose|i: int|
                0 <= i < before.projects.len() && (#[trigger] before.projects[i]).name == name;
            lemma_project_row(before, at);
            if p < at {
                assert(before.projects[p].id != before.projects[at].id);
            }
            if at < p {
                assert(before.projects[at].id != before.projects[p].id);
            }
        } else {
            assert(before.projects[p].id < project_id);
        }
        assert(other_id != project_id);
        assert forall|key: Seq<char>, value: Seq<char>|
            after.stores(other_id, key, value) <==> before.stores(other_id, key, value) by {
            if after.stores(other_id, key, value) {
                let i = choose|i: int|
                    0 <= i < after.labels.len() && (#[trigger] after.labels[i]).project_id
                        == other_id
                        && after.labels[i].label.key == key && after.labels[i].label.value == value;
                let x = after.labels[i];
                assert(after.labels.contains(x));
                lemma_rows_after_update(
                    before,
                    after,
                    name,
                    labels,
                    project_id,
                    current,
                    added,
                    first_id,
                    x,
                );
                lemma_new_row(added, first_id, labels, project_id, current, x);
                let t = choose|t: int| 0 <= t < before.labels.len() && before.labels[t] == x;
                assert(before.labels[t].project_id == other_id);
            }
            if before.stores(other_id, key, value) {
                let t = choose|t: int|
                    0 <= t < before.labels.len() && (#[trigger] before.labels[t]).project_id
                        == other_id && before.labels[t].label.key == key
                        && before.labels[t].label.value == value;
                let x = before.labels[t];
                assert(before.labels.contains(x));
                lemma_rows_after_update(
                    before,
                    after,
                    name,
                    labels,
                    project_id,
                    current,
                    added,
                    first_id,
                    x,
                );
                let i = choose|i: int| 0 <= i < after.labels.len() && after.labels[i] == x;
                assert(after.labels[i].project_id == other_id);
            }
        }
        lemma_same_labels(before, after, other_id);
    }
}

/// Whether the second cache is what the first becomes when the given labels
/// are stored for the Project of the given name, under whichever identifiers
/// the new rows come.
pub open spec fn stored(
    before: CacheView,
    after: CacheView,
    name: Seq<char>,
    labels: Map<Seq<char>, Seq<char>>,
) -> bool {
    exists|project_id: int, current: Seq<LabelView>, added: Seq<LabelInsertView>, first_id: int|
        is_update(before, after, name, labels, project_id, current, added, first_id)
}

/// Storing and looking up: once labels have been stored for a Project, the
/// cache holds exactly those labels for it, be they none or many, and for
/// every other Project what it held before.
pub proof fn lemma_stored_labels_are_held(
    before: CacheView,
    after: CacheView,
    name: Seq<char>,
    labels: Map<Seq<char>, Seq<char>>,
)
    requires
        before.well_formed(),
        stored(before, after, name, labels),
    ensures
        after.well_formed(),
        after.labels_of(name) == Some(labels),
        forall|other: Seq<char>|
            other != name ==> #[trigger] after.labels_of(other) == before.labels_of(other),
{
    let (project_id, current, added, first_id) = choose|
        project_id: int,
        current: Seq<LabelView>,
        added: Seq<LabelInsertView>,
        first_id: int,
    | is_update(before, after, name, labels, project_id, current, added, first_id);
    lemma_update_is_well_formed(before, after, name, labels, project_id, current, added, first_id);
    lemma_update_stores_labels(before, after, name, labels, project_id, current, added, first_id);
    assert forall|other: Seq<char>| other != name implies #[trigger] after.labels_of(other)
        == before.labels_of(other) by {
        lemma_update_keeps_others(
            before,
            after,
            name,
            labels,
            project_id,
            current,
            added,
            first_id,
            other,
        );
    }
}

/// The cache follows the labels of a Project as they change: after the
/// labels have been stored and then stored anew, the cache holds exactly the
/// labels that were stored last, whatever was stored first. No key of the
/// earlier labels survives unless it is among the later ones, and no key of
/// the later ones is missing.
pub proof fn lemma_cache_evolution(
    first: CacheView,
    second: CacheView,
    third: CacheView,
    name: Seq<char>,
    earlier: Map<Seq<char>, Seq<char>>,
    later: Map<Seq<char>, Seq<char>>,
)
    requires
        first.well_formed(),
        stored(first, second, name, earlier),
        stored(second, third, name, later),
    ensures
        second.labels_of(name) == Some(earlier),
        third.labels_of(name) == Some(later),
{
    lemma_stored_labels_are_held(first, second, name, earlier);
    lemma_stored_labels_are_held(second, third, name, later);
}

/// Deleting a Project takes its labels with it: once labels have been stored
/// for a Project and the Project has then been deleted, the cache does not
/// know the Project and no row of the labels relation belongs to it.
pub proof fn lemma_delete_after_update(
    before: CacheView,
    after: CacheView,
    name: Seq<char>,
    labels: Map<Seq<char>, Seq<char>>,
)
    requires
        before.well_formed(),
        stored(before, after, name, labels),
    ensures
        after.knows(name),
        after.without_project(after.project_id(name)).labels_of(name) is None,
        forall|i: int|
            0 <= i < after.without_project(after.project_id(name)).labels.len() ==> (
            #[trigger] after.without_project(after.project_id(name)).labels[i]).project_id
                != after.project_id(name),
{
    lemma_stored_labels_are_held(before, after, name, labels);
    lemma_without_project(after, name);
}

} // verus!
