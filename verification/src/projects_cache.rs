//! The fallback cache: the last known labels to propagate of each Project,
//! kept as two relations, Projects and the labels that belong to them.
//!
//! The cache is consulted when a Namespace changes while the cluster that
//! hosts the Projects cannot be reached.

use vstd::prelude::*;
use crate::cache_relations::{
    is_selection, is_update, lemma_project_row, lemma_rows_after_update, lemma_selection_grows,
    lemma_selection_stands_for, lemma_update_is_well_formed, lemma_update_keeps_others,
    lemma_update_stores_labels, lemma_without_project, new_rows, stored, CacheView,
    LabelRowView, ProjectRowView,
};
use crate::cache_rows::{
    holds, ids_to_remove, is_missing_part, lemma_missing_part_grows, lemma_missing_part_len,
    rows_map,
};
use crate::errors::{Error, ErrorView};
use crate::labels::{distinct_keys, entries_map, lemma_entries_map_take, Labels};
use crate::sequences::lemma_filter_members;
use crate::views::option_view;

verus! {

/// A row of the labels relation, as a query for the labels of one Project
/// returns it.
#[derive(Debug)]
pub struct Label {
    /// The row's identifier.
    pub id: i64,
    pub key: String,
    pub value: String,
}

/// A [`Label`] as a mathematical value.
pub struct LabelView {
    pub id: int,
    pub key: Seq<char>,
    pub value: Seq<char>,
}

impl View for Label {
    type V = LabelView;

    open spec fn view(&self) -> LabelView {
        LabelView { id: self.id as int, key: self.key@, value: self.value@ }
    }
}

impl Clone for Label {
    fn clone(&self) -> (copy: Label)
        ensures
            copy@ == self@,
    {
        Label { id: self.id, key: self.key.clone(), value: self.value.clone() }
    }
}

/// A row to add to the labels relation.
#[derive(Debug)]
pub struct LabelInsert {
    /// The identifier of the Project that the label belongs to.
    pub project_id: i64,
    pub key: String,
    pub value: String,
}

/// A [`LabelInsert`] as a mathematical value.
pub struct LabelInsertView {
    pub project_id: int,
    pub key: Seq<char>,
    pub value: Seq<char>,
}

impl View for LabelInsert {
    type V = LabelInsertView;

    open spec fn view(&self) -> LabelInsertView {
        LabelInsertView { project_id: self.project_id as int, key: self.key@, value: self.value@ }
    }
}

/// What a reconciler asks of the cache.
#[derive(Debug)]
pub enum CacheRequest {
    /// Store the labels as the labels to propagate of the Project.
    Update { project_name: String, labels: Labels },
    /// Forget the Project and its labels.
    Delete { project_name: String },
    /// Look up the labels to propagate of the Project.
    Lookup { project_name: String },
}

/// A [`CacheRequest`] as a mathematical value.
pub enum CacheRequestView {
    Update { project_name: Seq<char>, labels: Map<Seq<char>, Seq<char>> },
    Delete { project_name: Seq<char> },
    Lookup { project_name: Seq<char> },
}

impl View for CacheRequest {
    type V = CacheRequestView;

    open spec fn view(&self) -> CacheRequestView {
        match self {
            CacheRequest::Update { project_name, labels } => CacheRequestView::Update {
                project_name: project_name@,
                labels: labels@,
            },
            CacheRequest::Delete { project_name } => CacheRequestView::Delete {
                project_name: project_name@,
            },
            CacheRequest::Lookup { project_name } => CacheRequestView::Lookup {
                project_name: project_name@,
            },
        }
    }
}

/// The views of the rows, in the same order.
pub open spec fn label_views(rows: Seq<Label>) -> Seq<LabelView> {
    rows.map_values(|row: Label| row@)
}

/// The views of the rows to add, in the same order.
pub open spec fn insert_views(rows: Seq<LabelInsert>) -> Seq<LabelInsertView> {
    rows.map_values(|row: LabelInsert| row@)
}

/// The identifiers of the stored rows that have to be deleted, so that the
/// stored labels of a Project become the given ones. A row that already holds
/// one of the labels with its value stays.
pub fn labels_to_remove(current_labels: &Vec<Label>, labels: &Labels) -> (ids: Vec<i64>)
    ensures
        ids@.map_values(|id: i64| id as int) == ids_to_remove(
            label_views(current_labels@),
            labels@,
        ),
{
    let mut ids: Vec<i64> = Vec::new();
    let ghost leaves = |row: LabelView| !row.is_current(labels@);
    let ghost id_of = |row: LabelView| row.id;
    let ghost as_int = |id: i64| id as int;
    let mut i: usize = 0;
    proof {
        reveal(Seq::filter);
        assert(label_views(current_labels@.take(0)) =~= Seq::<LabelView>::empty());
        assert(ids@.map_values(as_int) =~= Seq::<LabelView>::empty().filter(leaves).map_values(
            id_of,
        ));
    }
    while i < current_labels.len()
        invariant
            i <= current_labels@.len(),
            leaves == |row: LabelView| !row.is_current(labels@),
            id_of == |row: LabelView| row.id,
            as_int == |id: i64| id as int,
            ids@.map_values(as_int) == label_views(current_labels@.take(i as int)).filter(
                leaves,
            ).map_values(id_of),
        decreases current_labels@.len() - i,
    {
        let label = &current_labels[i];
        let current = match labels.get(&label.key) {
            Some(desired_value) => *desired_value == label.value,
            None => false,
        };
        proof {
            reveal(Seq::filter);
            let seen = label_views(current_labels@.take(i as int));
            let next = label_views(current_labels@.take(i as int + 1));
            assert(next =~= seen.push(label@));
            assert(next.drop_last() =~= seen);
            assert(current == label@.is_current(labels@));
        }
        if !current {
            let ghost before = ids@;
            ids.push(label.id);
            proof {
                let seen = label_views(current_labels@.take(i as int));
                assert(ids@.map_values(as_int) =~= before.map_values(as_int).push(label.id as int));
                assert(seen.filter(leaves).push(label@).map_values(id_of) =~= seen.filter(
                    leaves,
                ).map_values(id_of).push(label@.id));
            }
        }
        i += 1;
    }
    proof {
        assert(current_labels@.take(i as int) =~= current_labels@);
    }
    ids
}

/// Whether some stored row holds the key with the value.
fn is_stored(current_labels: &Vec<Label>, key: &String, value: &String) -> (found: bool)
    ensures
        found == holds(label_views(current_labels@), key@, value@),
{
    let mut i: usize = 0;
    while i < current_labels.len()
        invariant
            i <= current_labels@.len(),
            forall|j: int|
                0 <= j < i ==> !((#[trigger] label_views(current_labels@)[j]).key == key@
                    && label_views(current_labels@)[j].value == value@),
        decreases current_labels@.len() - i,
    {
        if current_labels[i].key == *key && current_labels[i].value == *value {
            proof {
                assert(label_views(current_labels@)[i as int] == current_labels@[i as int]@);
            }
            return true;
        }
        proof {
            assert(label_views(current_labels@)[i as int] == current_labels@[i as int]@);
        }
        i += 1;
    }
    false
}

/// The rows that have to be added, so that the stored labels of a Project
/// become the given ones: one for each label that no stored row holds with
/// its value.
pub fn labels_to_insert(current_labels: &Vec<Label>, labels: &Labels, project_id: i64) -> (added:
    Vec<LabelInsert>)
    ensures
        is_missing_part(
            insert_views(added@),
            label_views(current_labels@),
            labels@,
            project_id as int,
        ),
{
    let entries = labels.entries();
    let ghost rows = label_views(current_labels@);
    let mut added: Vec<LabelInsert> = Vec::new();
    let mut i: usize = 0;
    proof {
        assert(insert_views(added@) =~= Seq::<LabelInsertView>::empty());
    }
    while i < entries.len()
        invariant
            i <= entries@.len(),
            distinct_keys(entries@),
            rows == label_views(current_labels@),
            is_missing_part(
                insert_views(added@),
                rows,
                entries_map(entries@.take(i as int)),
                project_id as int,
            ),
        decreases entries@.len() - i,
    {
        let ghost before = insert_views(added@);
        let stored = is_stored(current_labels, &entries[i].0, &entries[i].1);
        if !stored {
            let row = LabelInsert {
                project_id,
                key: entries[i].0.clone(),
                value: entries[i].1.clone(),
            };
            added.push(row);
            proof {
                assert(insert_views(added@) =~= before.push(row@));
            }
        }
        proof {
            lemma_entries_map_take(entries@, i as int);
            lemma_missing_part_grows(
                before,
                rows,
                entries_map(entries@.take(i as int)),
                project_id as int,
                entries@[i as int].0@,
                entries@[i as int].1@,
                insert_views(added@),
            );
        }
        i += 1;
    }
    proof {
        assert(entries@.take(i as int) =~= entries@);
    }
    added
}

/// The labels that the rows of a query for the labels of one Project stand
/// for.
pub fn labels_from_rows(rows: &Vec<Label>) -> (labels: Labels)
    ensures
        labels@ == rows_map(label_views(rows@)),
{
    let mut labels = Labels::new();
    let mut i: usize = 0;
    proof {
        assert(label_views(rows@.take(0)) =~= Seq::<LabelView>::empty());
    }
    while i < rows.len()
        invariant
            i <= rows@.len(),
            labels@ == rows_map(label_views(rows@.take(i as int))),
        decreases rows@.len() - i,
    {
        proof {
            let seen = label_views(rows@.take(i as int));
            let next = label_views(rows@.take(i as int + 1));
            assert(next =~= seen.push(rows@[i as int]@));
            assert(next.drop_last() =~= seen);
        }
        labels.insert(rows[i].key.clone(), rows[i].value.clone());
        i += 1;
    }
    proof {
        assert(rows@.take(i as int) =~= rows@);
    }
    labels
}

/// A row of the Projects relation.
struct ProjectRow {
    id: i64,
    name: String,
}

impl View for ProjectRow {
    type V = ProjectRowView;

    closed spec fn view(&self) -> ProjectRowView {
        ProjectRowView { id: self.id as int, name: self.name@ }
    }
}

/// A row of the labels relation, with the Project that it belongs to.
struct LabelRow {
    project_id: i64,
    label: Label,
}

impl View for LabelRow {
    type V = LabelRowView;

    closed spec fn view(&self) -> LabelRowView {
        LabelRowView { project_id: self.project_id as int, label: self.label@ }
    }
}

/// A cache used to keep the list of known Projects and their relevant
/// labels. Used only when the controller is deployed inside of a downstream
/// cluster.
///
/// This cache holds its two relations in memory. One that is to outlive the
/// process keeps them in a database, and brings them up to date by
/// [`labels_to_remove`] and [`labels_to_insert`] as this one does.
pub struct ProjectsCache {
    projects: Vec<ProjectRow>,
    labels: Vec<LabelRow>,
    /// No Project has a larger identifier than this.
    last_project_id: i64,
    /// No label has a larger identifier than this.
    last_label_id: i64,
}

impl View for ProjectsCache {
    type V = CacheView;

    closed spec fn view(&self) -> CacheView {
        CacheView {
            projects: self.projects@.map_values(|row: ProjectRow| row@),
            labels: self.labels@.map_values(|row: LabelRow| row@),
        }
    }
}

impl ProjectsCache {
    #[verifier::type_invariant]
    spec fn consistent(self) -> bool {
        &&& self@.well_formed()
        &&& 0 <= self.last_project_id
        &&& 0 <= self.last_label_id
        &&& forall|i: int|
            0 <= i < self@.projects.len() ==> (#[trigger] self@.projects[i]).id
                <= self.last_project_id
        &&& forall|i: int|
            0 <= i < self@.labels.len() ==> (#[trigger] self@.labels[i]).label.id
                <= self.last_label_id
    }

    /// The number of Projects that the cache can still come to know.
    pub closed spec fn project_ids_left(&self) -> nat {
        (i64::MAX - self.last_project_id) as nat
    }

    /// The number of rows that can still be added to the labels relation.
    pub closed spec fn label_ids_left(&self) -> nat {
        (i64::MAX - self.last_label_id) as nat
    }

    /// Whether the cache has room to store the labels for the Project of the
    /// given name: an identifier for the Project, unless the cache knows it,
    /// and one for each of the labels.
    pub open spec fn has_room(
        &self,
        project_name: Seq<char>,
        labels: Map<Seq<char>, Seq<char>>,
    ) -> bool {
        &&& self@.knows(project_name) || self.project_ids_left() > 0
        &&& self.label_ids_left() >= labels.len()
    }

    /// The failure that is reported when the cache has no room to store
    /// labels for the Project of the given name: it names the step that
    /// found no identifier, the insertion of the Project or that of its
    /// labels.
    pub open spec fn no_room_failure(&self, project_name: Seq<char>) -> ErrorView {
        if !self@.knows(project_name) && self.project_ids_left() == 0 {
            ErrorView::Sqlite("insert of project"@, "no identifier is left"@)
        } else {
            ErrorView::Sqlite("insert labels"@, "no identifier is left"@)
        }
    }

    /// Create a new cache, which knows no Project.
    pub fn init() -> (cache: Result<ProjectsCache, Error>)
        ensures
            cache matches Ok(cache) && cache@.well_formed() && cache@.projects.len() == 0
                && cache@.labels.len() == 0 && cache.project_ids_left() == i64::MAX
                && cache.label_ids_left() == i64::MAX,
    {
        Ok(
            ProjectsCache {
                projects: Vec::new(),
                labels: Vec::new(),
                last_project_id: 0,
                last_label_id: 0,
            },
        )
    }

    /// The number of rows of the labels relation.
    pub fn label_count(&self) -> (count: usize)
        ensures
            count == self@.labels.len(),
    {
        self.labels.len()
    }

    /// The identifier of the Project of the given name, if the cache knows
    /// it.
    fn find_project(&self, project_name: &String) -> (found: Option<i64>)
        ensures
            match found {
                Some(id) => self@.knows(project_name@) && self@.project_id(project_name@) == id,
                None => !self@.knows(project_name@),
            },
    {
        proof {
            use_type_invariant(self);
        }
        let mut i: usize = 0;
        while i < self.projects.len()
            invariant
                i <= self.projects@.len(),
                self@.well_formed(),
                forall|j: int| 0 <= j < i ==> (#[trigger] self@.projects[j]).name != project_name@,
            decreases self.projects@.len() - i,
        {
            proof {
                assert(self@.projects[i as int] == self.projects@[i as int]@);
            }
            if self.projects[i].name == *project_name {
                proof {
                    lemma_project_row(self@, i as int);
                }
                return Some(self.projects[i].id);
            }
            i += 1;
        }
        None
    }

    /// The rows of the labels relation that belong to the Project with the
    /// given identifier.
    fn select_labels(&self, project_id: i64) -> (rows: Vec<Label>)
        ensures
            is_selection(label_views(rows@), self@.labels, project_id as int),
    {
        let mut rows: Vec<Label> = Vec::new();
        let mut i: usize = 0;
        while i < self.labels.len()
            invariant
                i <= self.labels@.len(),
                is_selection(label_views(rows@), self@.labels.take(i as int), project_id as int),
            decreases self.labels@.len() - i,
        {
            let ghost before = label_views(rows@);
            let ghost seen = self@.labels.take(i as int);
            let ghost row = self@.labels[i as int];
            proof {
                assert(row == self.labels@[i as int]@);
                assert(self@.labels.take(i as int + 1) =~= seen.push(row));
            }
            if self.labels[i].project_id == project_id {
                rows.push(self.labels[i].label.clone());
                proof {
                    assert(label_views(rows@) =~= before.push(row.label));
                }
            }
            proof {
                lemma_selection_grows(
                    before,
                    seen,
                    project_id as int,
                    row,
                    label_views(rows@),
                );
            }
            i += 1;
        }
        proof {
            assert(self@.labels.take(i as int) =~= self@.labels);
        }
        rows
    }

    /// List of labels that belong to the given project that have to be
    /// propagated. Returns `None` when the project is not found inside of
    /// the cache. Never fails.
    pub fn labels_to_propagate(&self, project_name: &str) -> (result: Result<
        Option<Labels>,
        Error,
    >)
        ensures
            result matches Ok(found) && option_view(found) == self@.labels_of(project_name@),
    {
        proof {
            use_type_invariant(self);
        }
        match self.find_project(&project_name.to_owned()) {
            None => Ok(None),
            Some(project_id) => {
                let rows = self.select_labels(project_id);
                let labels = labels_from_rows(&rows);
                proof {
                    lemma_selection_stands_for(self@, project_id as int, label_views(rows@));
                }
                Ok(Some(labels))
            },
        }
    }

    /// A copy of the Projects relation, without the Project with the given
    /// identifier where one is given.
    fn copy_projects(&self, except: Option<i64>) -> (rows: Vec<ProjectRow>)
        ensures
            rows@.map_values(|row: ProjectRow| row@) == (match except {
                Some(id) => self@.projects_except(id as int),
                None => self@.projects,
            }),
    {
        let ghost stays = |row: ProjectRowView| row.id != except->0 as int;
        let ghost view_of = |row: ProjectRow| row@;
        let mut rows: Vec<ProjectRow> = Vec::new();
        let mut i: usize = 0;
        proof {
            reveal(Seq::filter);
            assert(self@.projects.take(0) =~= Seq::<ProjectRowView>::empty());
            assert(rows@.map_values(view_of) =~= Seq::<ProjectRowView>::empty());
        }
        while i < self.projects.len()
            invariant
                i <= self.projects@.len(),
                stays == |row: ProjectRowView| row.id != except->0 as int,
                view_of == |row: ProjectRow| row@,
                rows@.map_values(view_of) == (match except {
                    Some(id) => self@.projects.take(i as int).filter(stays),
                    None => self@.projects.take(i as int),
                }),
            decreases self.projects@.len() - i,
        {
            let row = &self.projects[i];
            let keep = match except {
                Some(id) => row.id != id,
                None => true,
            };
            proof {
                reveal(Seq::filter);
                assert(self@.projects[i as int] == row@);
                assert(self@.projects.take(i as int + 1) =~= self@.projects.take(i as int).push(
                    row@,
                ));
                assert(self@.projects.take(i as int + 1).drop_last() =~= self@.projects.take(
                    i as int,
                ));
            }
            if keep {
                let ghost before = rows@;
                let copy = ProjectRow { id: row.id, name: row.name.clone() };
                rows.push(copy);
                proof {
                    assert(rows@.map_values(view_of) =~= before.map_values(view_of).push(row@));
                }
            }
            i += 1;
        }
        proof {
            assert(self@.projects.take(i as int) =~= self@.projects);
        }
        rows
    }

    /// A copy of the labels relation, without the rows of the given Project
    /// where one is given, and without the rows with the given identifiers.
    fn copy_labels(&self, except_project: Option<i64>, except_ids: &Vec<i64>) -> (rows: Vec<
        LabelRow,
    >)
        ensures
            rows@.map_values(|row: LabelRow| row@) == self@.labels_except(
                match except_project {
                    Some(id) => Some(id as int),
                    None => None,
                },
                except_ids@.map_values(|id: i64| id as int),
            ),
    {
        let ghost project: Option<int> = match except_project {
            Some(id) => Some(id as int),
            None => None,
        };
        let ghost ids = except_ids@.map_values(|id: i64| id as int);
        let ghost stays = |row: LabelRowView| row.stays(project, ids);
        let ghost view_of = |row: LabelRow| row@;
        let mut rows: Vec<LabelRow> = Vec::new();
        let mut i: usize = 0;
        proof {
            reveal(Seq::filter);
            assert(self@.labels.take(0) =~= Seq::<LabelRowView>::empty());
            assert(rows@.map_values(view_of) =~= Seq::<LabelRowView>::empty());
        }
        while i < self.labels.len()
            invariant
                i <= self.labels@.len(),
                project == (match except_project {
                    Some(id) => Some(id as int),
                    None => None,
                }),
                ids == except_ids@.map_values(|id: i64| id as int),
                stays == |row: LabelRowView| row.stays(project, ids),
                view_of == |row: LabelRow| row@,
                rows@.map_values(view_of) == self@.labels.take(i as int).filter(stays),
            decreases self.labels@.len() - i,
        {
            let row = &self.labels[i];
            let of_project = match except_project {
                Some(id) => row.project_id == id,
                None => false,
            };
            let keep = !of_project && !has_id(except_ids, row.label.id);
            proof {
                reveal(Seq::filter);
                assert(self@.labels[i as int] == row@);
                assert(self@.labels.take(i as int + 1) =~= self@.labels.take(i as int).push(row@));
                assert(self@.labels.take(i as int + 1).drop_last() =~= self@.labels.take(i as int));
                assert(keep == row@.stays(project, ids));
            }
            if keep {
                let ghost before = rows@;
                let copy = LabelRow { project_id: row.project_id, label: row.label.clone() };
                rows.push(copy);
                proof {
                    assert(rows@.map_values(view_of) =~= before.map_values(view_of).push(row@));
                }
            }
            i += 1;
        }
        proof {
            assert(self@.labels.take(i as int) =~= self@.labels);
        }
        rows
    }

    /// Cache the details of the given project:
    /// * `project_name`: name of the project
    /// * `labels`: the relevant labels that have to be propagated, their keys
    ///   stripped of the propagation prefix
    ///
    /// Afterwards the cache holds exactly these labels for the Project, and
    /// for every other Project what it held before. The rows of the labels
    /// relation that already hold one of the labels stay as they are.
    ///
    /// Fails when no identifier is left for the Project or for its labels;
    /// the cache is then as it was.
    pub fn cache_labels(&mut self, project_name: &str, labels: &Labels) -> (result: Result<
        (),
        Error,
    >)
        ensures
            result is Ok <==> old(self).has_room(project_name@, labels@),
            match result {
                Ok(_) => {
                    &&& stored(old(self)@, final(self)@, project_name@, labels@)
                    &&& final(self)@.well_formed()
                    &&& final(self)@.labels_of(project_name@) == Some(labels@)
                    &&& forall|other: Seq<char>|
                        other != project_name@ ==> #[trigger] final(self)@.labels_of(other) == old(
                            self,
                        )@.labels_of(other)
                    &&& forall|row: LabelRowView|
                        old(self)@.labels.contains(row) && (row.label.is_current(labels@)
                            || row.project_id != final(self)@.project_id(project_name@))
                            ==> #[trigger] final(self)@.labels.contains(row)
                    &&& final(self).project_ids_left() + 1 >= old(self).project_ids_left()
                    &&& final(self).label_ids_left() + labels@.len() >= old(self).label_ids_left()
                },
                Err(error) => {
                    &&& final(self)@ == old(self)@
                    &&& final(self).project_ids_left() == old(self).project_ids_left()
                    &&& final(self).label_ids_left() == old(self).label_ids_left()
                    &&& error@ == old(self).no_room_failure(project_name@)
                },
            },
    {
        proof {
            use_type_invariant(&*self);
            labels.lemma_view_finite();
        }
        let name = project_name.to_owned();
        let known = self.find_project(&name);
        let project_id: i64 = match known {
            Some(id) => id,
            None => {
                if self.last_project_id == i64::MAX {
                    return Err(
                        Error::Sqlite(
                            "insert of project".to_owned(),
                            "no identifier is left".to_owned(),
                        ),
                    );
                }
                self.last_project_id + 1
            },
        };
        let room: i64 = i64::MAX - self.last_label_id;
        if !fits(labels.len(), room) {
            return Err(
                Error::Sqlite("insert labels".to_owned(), "no identifier is left".to_owned()),
            );
        }
        let current_labels = self.select_labels(project_id);
        let labels_to_remove = labels_to_remove(&current_labels, labels);
        let labels_to_insert = labels_to_insert(&current_labels, labels, project_id);
        let ghost current = label_views(current_labels@);
        let ghost added = insert_views(labels_to_insert@);
        let ghost first_id = self.last_label_id + 1;
        proof {
            lemma_missing_part_len(added, current, labels@, project_id as int);
        }
        let mut projects = self.copy_projects(None);
        if known.is_none() {
            let ghost before = projects@;
            projects.push(ProjectRow { id: project_id, name });
            proof {
                assert(projects@.map_values(|row: ProjectRow| row@) =~= before.map_values(
                    |row: ProjectRow| row@,
                ).push(ProjectRowView { id: project_id as int, name: project_name@ }));
            }
        }
        let mut rows = self.copy_labels(None, &labels_to_remove);
        let ghost kept = rows@.map_values(|row: LabelRow| row@);
        let mut last_label_id: i64 = self.last_label_id;
        let mut t: usize = 0;
        proof {
            assert(new_rows(added, first_id).take(0) =~= Seq::<LabelRowView>::empty());
            assert(kept + Seq::<LabelRowView>::empty() =~= kept);
        }
        while t < labels_to_insert.len()
            invariant
                t <= labels_to_insert@.len(),
                added == insert_views(labels_to_insert@),
                added.len() <= i64::MAX - (first_id - 1),
                first_id >= 1,
                last_label_id == first_id - 1 + t,
                rows@.map_values(|row: LabelRow| row@) == kept + new_rows(added, first_id).take(
                    t as int,
                ),
            decreases labels_to_insert@.len() - t,
        {
            let ghost before = rows@;
            last_label_id = last_label_id + 1;
            let row = LabelRow {
                project_id: labels_to_insert[t].project_id,
                label: Label {
                    id: last_label_id,
                    key: labels_to_insert[t].key.clone(),
                    value: labels_to_insert[t].value.clone(),
                },
            };
            rows.push(row);
            proof {
                let fresh = new_rows(added, first_id);
                assert(added[t as int] == labels_to_insert@[t as int]@);
                assert(fresh[t as int] == row@);
                assert(fresh.take(t as int + 1) =~= fresh.take(t as int).push(row@));
                assert(rows@.map_values(|row: LabelRow| row@) =~= before.map_values(
                    |row: LabelRow| row@,
                ).push(row@));
                assert(kept + fresh.take(t as int + 1) =~= (kept + fresh.take(t as int)).push(
                    row@,
                ));
            }
            t += 1;
        }
        let ghost after = CacheView {
            projects: projects@.map_values(|row: ProjectRow| row@),
            labels: rows@.map_values(|row: LabelRow| row@),
        };
        proof {
            let before = self@;
            let fresh = new_rows(added, first_id);
            assert(fresh.take(t as int) =~= fresh);
            assert forall|i: int|
                0 <= i < before.labels.len() implies (#[trigger] before.labels[i]).label.id
                < first_id by {}
            assert(is_update(
                before,
                after,
                project_name@,
                labels@,
                project_id as int,
                current,
                added,
                first_id,
            ));
            lemma_update_is_well_formed(
                before,
                after,
                project_name@,
                labels@,
                project_id as int,
                current,
                added,
                first_id,
            );
            lemma_update_stores_labels(
                before,
                after,
                project_name@,
                labels@,
                project_id as int,
                current,
                added,
                first_id,
            );
            assert forall|row: LabelRowView|
                before.labels.contains(row) && (row.project_id != project_id
                    || row.label.is_current(labels@)) implies #[trigger] after.labels.contains(
                row,
            ) by {
                lemma_rows_after_update(
                    before,
                    after,
                    project_name@,
                    labels@,
                    project_id as int,
                    current,
                    added,
                    first_id,
                    row,
                );
            }
            assert forall|other: Seq<char>|
                other != project_name@ implies #[trigger] after.labels_of(
                other,
            ) == before.labels_of(other) by {
                lemma_update_keeps_others(
                    before,
                    after,
                    project_name@,
                    labels@,
                    project_id as int,
                    current,
                    added,
                    first_id,
                    other,
                );
            }
            let last_project_id = if known is None {
                project_id
            } else {
                self.last_project_id
            };
            assert forall|i: int|
                0 <= i < after.projects.len() implies (#[trigger] after.projects[i]).id
                <= last_project_id by {
                if i < before.projects.len() {
                    assert(after.projects[i] == before.projects[i]);
                    assert(before.projects[i].id <= self.last_project_id);
                }
            }
            let ids = ids_to_remove(current, labels@);
            let stays = |row: LabelRowView| row.stays(None, ids);
            assert forall|i: int|
                0 <= i < after.labels.len() implies (#[trigger] after.labels[i]).label.id
                <= last_label_id by {
                if i < kept.len() {
                    assert(after.labels[i] == kept[i]);
                    assert(kept.contains(kept[i]));
                    lemma_filter_members(before.labels, stays, kept[i]);
                    let j = choose|j: int|
                        0 <= j < before.labels.len() && before.labels[j] == kept[i];
                    assert(before.labels[j].label.id <= self.last_label_id);
                } else {
                    assert(after.labels[i] == fresh[i - kept.len()]);
                }
            }
        }
        let last_project_id: i64 = if known.is_none() {
            project_id
        } else {
            self.last_project_id
        };
        *self = ProjectsCache { projects, labels: rows, last_project_id, last_label_id };
        Ok(())
    }

    /// Remove the given project from the cache, and with it all of its
    /// labels. Deleting a Project that the cache does not know changes
    /// nothing. Never fails.
    pub fn delete_project(&mut self, project_name: &str) -> (result: Result<(), Error>)
        ensures
            result is Ok,
            final(self)@ == (if old(self)@.knows(project_name@) {
                old(self)@.without_project(old(self)@.project_id(project_name@))
            } else {
                old(self)@
            }),
            final(self)@.well_formed(),
            final(self)@.labels_of(project_name@) is None,
            old(self)@.knows(project_name@) ==> forall|i: int|
                0 <= i < final(self)@.labels.len() ==> (
                #[trigger] final(self)@.labels[i]).project_id != old(self)@.project_id(
                    project_name@,
                ),
            forall|other: Seq<char>|
                other != project_name@ ==> #[trigger] final(self)@.labels_of(other) == old(
                    self,
                )@.labels_of(other),
            final(self).project_ids_left() == old(self).project_ids_left(),
            final(self).label_ids_left() == old(self).label_ids_left(),
    {
        proof {
            use_type_invariant(&*self);
        }
        match self.find_project(&project_name.to_owned()) {
            None => Ok(()),
            Some(project_id) => {
                let no_ids: Vec<i64> = Vec::new();
                let projects = self.copy_projects(Some(project_id));
                let labels = self.copy_labels(Some(project_id), &no_ids);
                proof {
                    assert(no_ids@.map_values(|id: i64| id as int) =~= Seq::<int>::empty());
                    lemma_without_project(self@, project_name@);
                    let after = self@.without_project(project_id as int);
                    assert forall|i: int| 0 <= i < after.projects.len() implies (
                    #[trigger] after.projects[i]).id <= self.last_project_id by {
                        assert(after.projects.contains(after.projects[i]));
                        lemma_filter_members(
                            self@.projects,
                            |row: ProjectRowView| row.id != project_id as int,
                            after.projects[i],
                        );
                        let t = choose|t: int|
                            0 <= t < self@.projects.len() && self@.projects[t] == after.projects[i];
                        assert(self@.projects[t].id <= self.last_project_id);
                    }
                    assert forall|i: int| 0 <= i < after.labels.len() implies (
                    #[trigger] after.labels[i]).label.id <= self.last_label_id by {
                        assert(after.labels.contains(after.labels[i]));
                        lemma_filter_members(
                            self@.labels,
                            |row: LabelRowView|
                                row.stays(Some(project_id as int), Seq::<int>::empty()),
                            after.labels[i],
                        );
                        let t = choose|t: int|
                            0 <= t < self@.labels.len() && self@.labels[t] == after.labels[i];
                        assert(self@.labels[t].label.id <= self.last_label_id);
                    }
                }
                *self = ProjectsCache {
                    projects,
                    labels,
                    last_project_id: self.last_project_id,
                    last_label_id: self.last_label_id,
                };
                Ok(())
            },
        }
    }
}

/// Whether the count is no more than the room, which is not negative.
fn fits(count: usize, room: i64) -> (fits: bool)
    requires
        room >= 0,
    ensures
        fits == (count <= room),
{
    if room as u64 > usize::MAX as u64 {
        true
    } else {
        count <= room as usize
    }
}

/// Whether the identifier is among the given ones.
fn has_id(ids: &Vec<i64>, id: i64) -> (found: bool)
    ensures
        found == ids@.map_values(|id: i64| id as int).contains(id as int),
{
    let ghost as_int = |id: i64| id as int;
    let mut i: usize = 0;
    while i < ids.len()
        invariant
            i <= ids@.len(),
            as_int == |id: i64| id as int,
            forall|j: int| 0 <= j < i ==> ids@.map_values(as_int)[j] != id as int,
        decreases ids@.len() - i,
    {
        if ids[i] == id {
            proof {
                assert(ids@.map_values(as_int)[i as int] == id as int);
            }
            return true;
        }
        i += 1;
    }
    false
}

} // verus!
