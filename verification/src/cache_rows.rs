//! The rows that the cache stores for one Project, and how they are brought
//! to the labels of that Project.

use vstd::prelude::*;
use crate::projects_cache::{LabelInsertView, LabelView};
use crate::sequences::lemma_filter_members;

verus! {

impl LabelView {
    /// Whether the row holds a label of the given mapping, with its value.
    pub open spec fn is_current(self, labels: Map<Seq<char>, Seq<char>>) -> bool {
        labels.contains_key(self.key) && labels[self.key] == self.value
    }
}

/// The mapping that the rows stand for. Where a key occurs in more than one
/// row, the last of them counts.
pub open spec fn rows_map(rows: Seq<LabelView>) -> Map<Seq<char>, Seq<char>>
    decreases rows.len(),
{
    if rows.len() == 0 {
        Map::empty()
    } else {
        rows_map(rows.drop_last()).insert(rows.last().key, rows.last().value)
    }
}

/// Some row holds the key with the value.
pub open spec fn holds(rows: Seq<LabelView>, key: Seq<char>, value: Seq<char>) -> bool {
    exists|i: int| 0 <= i < rows.len() && (#[trigger] rows[i]).key == key && rows[i].value == value
}

/// The rows that stay when the stored rows of a Project are brought to the
/// given labels: those that hold one of the labels, with its value.
pub open spec fn rows_kept(rows: Seq<LabelView>, labels: Map<Seq<char>, Seq<char>>) -> Seq<
    LabelView,
> {
    rows.filter(|row: LabelView| row.is_current(labels))
}

/// The identifiers of the rows that leave when the stored rows of a Project
/// are brought to the given labels: those of the rows whose key is no longer
/// among the labels, or has another value there.
pub open spec fn ids_to_remove(rows: Seq<LabelView>, labels: Map<Seq<char>, Seq<char>>) -> Seq<
    int,
> {
    rows.filter(|row: LabelView| !row.is_current(labels)).map_values(|row: LabelView| row.id)
}

/// Whether the rows to add are what is missing from the stored rows of the
/// Project: one row for each label that no stored row holds with its value,
/// and no other row.
pub open spec fn is_missing_part(
    added: Seq<LabelInsertView>,
    rows: Seq<LabelView>,
    labels: Map<Seq<char>, Seq<char>>,
    project_id: int,
) -> bool {
    &&& forall|i: int, j: int|
        0 <= i < j < added.len() ==> (#[trigger] added[i]).key != (#[trigger] added[j]).key
    &&& forall|i: int|
        0 <= i < added.len() ==> {
            &&& (#[trigger] added[i]).project_id == project_id
            &&& labels.contains_key(added[i].key)
            &&& labels[added[i].key] == added[i].value
            &&& !holds(rows, added[i].key, added[i].value)
        }
    &&& forall|key: Seq<char>| #[trigger]
        labels.contains_key(key) && !holds(rows, key, labels[key]) ==> exists|i: int|
            0 <= i < added.len() && (#[trigger] added[i]).key == key
}

/// Some row to add holds the key with the value.
pub open spec fn adds(added: Seq<LabelInsertView>, key: Seq<char>, value: Seq<char>) -> bool {
    exists|i: int|
        0 <= i < added.len() && (#[trigger] added[i]).key == key && added[i].value == value
}

/// A key is in the mapping of the rows exactly when some row carries it.
pub proof fn lemma_rows_map_dom(rows: Seq<LabelView>, key: Seq<char>)
    ensures
        rows_map(rows).contains_key(key) <==> exists|i: int|
            0 <= i < rows.len() && (#[trigger] rows[i]).key == key,
    decreases rows.len(),
{
    if rows.len() > 0 {
        let front = rows.drop_last();
        lemma_rows_map_dom(front, key);
        if exists|i: int| 0 <= i < front.len() && (#[trigger] front[i]).key == key {
            let i = choose|i: int| 0 <= i < front.len() && (#[trigger] front[i]).key == key;
            assert(rows[i].key == key);
        }
        if exists|i: int| 0 <= i < rows.len() && (#[trigger] rows[i]).key == key {
            let i = choose|i: int| 0 <= i < rows.len() && (#[trigger] rows[i]).key == key;
            if i < rows.len() - 1 {
                assert(front[i].key == key);
            }
        }
        if rows.last().key == key {
            assert(rows[rows.len() - 1].key == key);
        }
    }
}

/// Where every row holds a label of the given mapping with its value, the
/// mapping of the rows agrees with the given one on every key it has.
pub proof fn lemma_rows_map_within(rows: Seq<LabelView>, labels: Map<Seq<char>, Seq<char>>)
    requires
        forall|i: int| 0 <= i < rows.len() ==> (#[trigger] rows[i]).is_current(labels),
    ensures
        forall|key: Seq<char>| #[trigger]
            rows_map(rows).contains_key(key) ==> labels.contains_key(key) && rows_map(rows)[key]
                == labels[key],
    decreases rows.len(),
{
    if rows.len() > 0 {
        let front = rows.drop_last();
        assert forall|i: int| 0 <= i < front.len() implies (#[trigger] front[i]).is_current(
            labels,
        ) by {
            assert(rows[i].is_current(labels));
        }
        lemma_rows_map_within(front, labels);
        assert(rows[rows.len() - 1].is_current(labels));
        assert forall|key: Seq<char>|
            #[trigger] rows_map(rows).contains_key(key) implies labels.contains_key(
            key,
        ) && rows_map(rows)[key] == labels[key] by {
            if key != rows.last().key {
                assert(rows_map(front).contains_key(key));
            }
        }
    }
}

/// Rows that hold exactly the labels of a mapping, each with its value,
/// stand for that mapping, in whatever order they come.
pub proof fn lemma_rows_map_is(rows: Seq<LabelView>, labels: Map<Seq<char>, Seq<char>>)
    requires
        forall|key: Seq<char>, value: Seq<char>|
            holds(rows, key, value) <==> labels.contains_key(key) && labels[key] == value,
    ensures
        rows_map(rows) == labels,
{
    assert forall|i: int| 0 <= i < rows.len() implies (#[trigger] rows[i]).is_current(labels) by {
        assert(holds(rows, rows[i].key, rows[i].value));
    }
    lemma_rows_map_within(rows, labels);
    assert forall|key: Seq<char>| labels.contains_key(key) implies #[trigger] rows_map(
        rows,
    ).contains_key(key) by {
        assert(holds(rows, key, labels[key]));
        let i = choose|i: int|
            0 <= i < rows.len() && (#[trigger] rows[i]).key == key && rows[i].value == labels[key];
        lemma_rows_map_dom(rows, key);
    }
    assert(rows_map(rows) =~= labels);
}

/// A row is kept exactly when it is among the stored rows and holds one of
/// the labels with its value.
pub proof fn lemma_rows_kept(
    rows: Seq<LabelView>,
    labels: Map<Seq<char>, Seq<char>>,
    key: Seq<char>,
    value: Seq<char>,
)
    ensures
        holds(rows_kept(rows, labels), key, value) <==> holds(rows, key, value)
            && labels.contains_key(key) && labels[key] == value,
{
    let stays = |row: LabelView| row.is_current(labels);
    let kept = rows.filter(stays);
    if holds(kept, key, value) {
        let i = choose|i: int|
            0 <= i < kept.len() && (#[trigger] kept[i]).key == key && kept[i].value == value;
        assert(kept.contains(kept[i]));
        lemma_filter_members(rows, stays, kept[i]);
        let j = choose|j: int| 0 <= j < rows.len() && rows[j] == kept[i];
        assert(rows[j].key == key);
    }
    if holds(rows, key, value) && labels.contains_key(key) && labels[key] == value {
        let j = choose|j: int|
            0 <= j < rows.len() && (#[trigger] rows[j]).key == key && rows[j].value == value;
        assert(rows.contains(rows[j]));
        lemma_filter_members(rows, stays, rows[j]);
        let i = choose|i: int| 0 <= i < kept.len() && kept[i] == rows[j];
        assert(kept[i].key == key);
    }
}

/// Bringing the stored rows of a Project to the given labels leaves exactly
/// those labels. Whatever rows were stored before: once the rows named by
/// [`ids_to_remove`] are gone and the missing rows are added, the rows that
/// are there, in whatever order a query returns them, stand for the given
/// labels. No stale key survives, and no new key is dropped.
pub proof fn lemma_update_reaches_labels(
    rows: Seq<LabelView>,
    labels: Map<Seq<char>, Seq<char>>,
    added: Seq<LabelInsertView>,
    project_id: int,
    after: Seq<LabelView>,
)
    requires
        is_missing_part(added, rows, labels, project_id),
        forall|key: Seq<char>, value: Seq<char>|
            holds(after, key, value) <==> holds(rows_kept(rows, labels), key, value) || adds(
                added,
                key,
                value,
            ),
    ensures
        rows_map(after) == labels,
{
    assert forall|key: Seq<char>, value: Seq<char>|
        holds(after, key, value) <==> labels.contains_key(key) && labels[key] == value by {
        lemma_rows_kept(rows, labels, key, value);
        if adds(added, key, value) {
            let i = choose|i: int|
                0 <= i < added.len() && (#[trigger] added[i]).key == key && added[i].value
                    == value;
            assert(labels.contains_key(added[i].key));
        }
        if labels.contains_key(key) && labels[key] == value && !holds(rows, key, value) {
            let i = choose|i: int| 0 <= i < added.len() && (#[trigger] added[i]).key == key;
            assert(labels[added[i].key] == added[i].value);
            assert(adds(added, key, value));
        }
    }
    lemma_rows_map_is(after, labels);
}

/// Where the stored rows already stand for the given labels, nothing is
/// removed and nothing is added.
pub proof fn lemma_update_of_current_rows(
    rows: Seq<LabelView>,
    labels: Map<Seq<char>, Seq<char>>,
    added: Seq<LabelInsertView>,
    project_id: int,
)
    requires
        is_missing_part(added, rows, labels, project_id),
        forall|key: Seq<char>, value: Seq<char>|
            holds(rows, key, value) <==> labels.contains_key(key) && labels[key] == value,
    ensures
        ids_to_remove(rows, labels).len() == 0,
        added.len() == 0,
{
    let leaves = |row: LabelView| !row.is_current(labels);
    let gone = rows.filter(leaves);
    if gone.len() > 0 {
        assert(gone.contains(gone[0]));
        lemma_filter_members(rows, leaves, gone[0]);
        let j = choose|j: int| 0 <= j < rows.len() && rows[j] == gone[0];
        assert(holds(rows, rows[j].key, rows[j].value));
    }
    if added.len() > 0 {
        assert(labels.contains_key(added[0].key));
        assert(!holds(rows, added[0].key, added[0].value));
    }
}

/// The rows to add stay the missing part when one more label is to be
/// stored, under a key that is not yet among the labels, provided a row for
/// that label is added exactly when no stored row holds it with its value.
pub proof fn lemma_missing_part_grows(
    added: Seq<LabelInsertView>,
    rows: Seq<LabelView>,
    labels: Map<Seq<char>, Seq<char>>,
    project_id: int,
    key: Seq<char>,
    value: Seq<char>,
    more: Seq<LabelInsertView>,
)
    requires
        is_missing_part(added, rows, labels, project_id),
        !labels.contains_key(key),
        more == (if holds(rows, key, value) {
            added
        } else {
            added.push(LabelInsertView { project_id, key, value })
        }),
    ensures
        is_missing_part(more, rows, labels.insert(key, value), project_id),
{
    let grown = labels.insert(key, value);
    assert forall|i: int| 0 <= i < added.len() implies (#[trigger] added[i]).key != key by {
        assert(labels.contains_key(added[i].key));
    }
    assert forall|i: int, j: int| 0 <= i < j < more.len() implies (#[trigger] more[i]).key != (
    #[trigger] more[j]).key by {
        if j < added.len() {
            assert(added[i].key != added[j].key);
        } else {
            assert(added[i].key != key);
        }
    }
    assert forall|i: int| 0 <= i < more.len() implies {
        &&& (#[trigger] more[i]).project_id == project_id
        &&& grown.contains_key(more[i].key)
        &&& grown[more[i].key] == more[i].value
        &&& !holds(rows, more[i].key, more[i].value)
    } by {
        if i < added.len() {
            assert(more[i] == added[i]);
            assert(labels.contains_key(added[i].key));
        }
    }
    assert forall|k: Seq<char>| #[trigger]
        grown.contains_key(k) && !holds(rows, k, grown[k]) implies exists|i: int|
        0 <= i < more.len() && (#[trigger] more[i]).key == k by {
        if k == key {
            assert(more[added.len() as int].key == k);
        } else {
            assert(labels.contains_key(k) && !holds(rows, k, labels[k]));
            let i = choose|i: int| 0 <= i < added.len() && (#[trigger] added[i]).key == k;
            assert(more[i].key == k);
        }
    }
}

/// No more rows are added than there are labels.
pub proof fn lemma_missing_part_len(
    added: Seq<LabelInsertView>,
    rows: Seq<LabelView>,
    labels: Map<Seq<char>, Seq<char>>,
    project_id: int,
)
    requires
        is_missing_part(added, rows, labels, project_id),
        labels.dom().finite(),
    ensures
        added.len() <= labels.len(),
{
    let keys = added.map_values(|row: LabelInsertView| row.key);
    assert forall|i: int, j: int|
        0 <= i < keys.len() && 0 <= j < keys.len() && i != j implies keys[i]
        != keys[j] by {
        if i < j {
            assert(added[i].key != added[j].key);
        } else {
            assert(added[j].key != added[i].key);
        }
    }
    keys.unique_seq_to_set();
    assert forall|key: Seq<char>|
        keys.to_set().contains(key) implies labels.dom().contains(key) by {
        let i = choose|i: int| 0 <= i < keys.len() && keys[i] == key;
        assert(labels.contains_key(added[i].key));
    }
    vstd::set_lib::lemma_len_subset(keys.to_set(), labels.dom());
}

} // verus!
