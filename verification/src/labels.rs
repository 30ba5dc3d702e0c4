//! A mapping from label keys to label values.

use vstd::prelude::*;

verus! {

/// The mapping that a sequence of key/value entries stands for: the entries
/// are inserted in order, so that a later entry wins over an earlier one with
/// the same key.
pub open spec fn entries_map(s: Seq<(String, String)>) -> Map<Seq<char>, Seq<char>>
    decreases s.len(),
{
    if s.len() == 0 {
        Map::empty()
    } else {
        entries_map(s.drop_last()).insert(s.last().0@, s.last().1@)
    }
}

/// No two entries of the sequence carry the same key.
pub open spec fn distinct_keys(s: Seq<(String, String)>) -> bool {
    forall|i: int, j: int| 0 <= i < j < s.len() ==> (#[trigger] s[i]).0@ != (#[trigger] s[j]).0@
}

/// The key occurs among the entries.
pub open spec fn has_key(s: Seq<(String, String)>, key: Seq<char>) -> bool {
    exists|i: int| 0 <= i < s.len() && (#[trigger] s[i]).0@ == key
}

/// A key is in the mapping exactly when some entry carries it.
pub proof fn lemma_entries_map_dom(s: Seq<(String, String)>, key: Seq<char>)
    ensures
        entries_map(s).contains_key(key) <==> has_key(s, key),
    decreases s.len(),
{
    if s.len() > 0 {
        let t = s.drop_last();
        lemma_entries_map_dom(t, key);
        if has_key(t, key) {
            let i = choose|i: int| 0 <= i < t.len() && (#[trigger] t[i]).0@ == key;
            assert(s[i].0@ == key);
        }
        if has_key(s, key) {
            let i = choose|i: int| 0 <= i < s.len() && (#[trigger] s[i]).0@ == key;
            if i < s.len() - 1 {
                assert(t[i].0@ == key);
            }
        }
        if s.last().0@ == key {
            assert(s[s.len() - 1].0@ == key);
        }
    }
}

/// With distinct keys, every entry is found in the mapping under its key.
pub proof fn lemma_entries_map_index(s: Seq<(String, String)>, i: int)
    requires
        distinct_keys(s),
        0 <= i < s.len(),
    ensures
        entries_map(s).contains_key(s[i].0@),
        entries_map(s)[s[i].0@] == s[i].1@,
    decreases s.len(),
{
    let t = s.drop_last();
    if i < s.len() - 1 {
        lemma_distinct_drop_last(s);
        lemma_entries_map_index(t, i);
        assert(t[i] == s[i]);
        assert(s[i].0@ != s[s.len() - 1].0@);
    }
}

/// The mapping of a sequence of entries is finite.
pub proof fn lemma_entries_map_finite(s: Seq<(String, String)>)
    ensures
        entries_map(s).dom().finite(),
    decreases s.len(),
{
    if s.len() > 0 {
        lemma_entries_map_finite(s.drop_last());
    }
}

/// With distinct keys, the mapping has as many keys as there are entries.
pub proof fn lemma_entries_map_len(s: Seq<(String, String)>)
    requires
        distinct_keys(s),
    ensures
        entries_map(s).dom().finite(),
        entries_map(s).len() == s.len(),
    decreases s.len(),
{
    lemma_entries_map_finite(s);
    if s.len() > 0 {
        let t = s.drop_last();
        lemma_distinct_drop_last(s);
        lemma_entries_map_len(t);
        lemma_entries_map_dom(t, s.last().0@);
        if has_key(t, s.last().0@) {
            let i = choose|i: int| 0 <= i < t.len() && (#[trigger] t[i]).0@ == s.last().0@;
            assert(s[i].0@ != s[s.len() - 1].0@);
        }
    }
}

/// Dropping the last entry of a sequence with distinct keys leaves distinct keys.
proof fn lemma_distinct_drop_last(s: Seq<(String, String)>)
    requires
        distinct_keys(s),
        s.len() > 0,
    ensures
        distinct_keys(s.drop_last()),
{
    let t = s.drop_last();
    assert forall|a: int, b: int| 0 <= a < b < t.len() implies (#[trigger] t[a]).0@ != (
    #[trigger] t[b]).0@ by {
        assert(s[a].0@ != s[b].0@);
    }
}

/// What the next entry adds to the mapping of the entries before it: with
/// distinct keys, it comes under a key that the mapping does not have yet.
pub proof fn lemma_entries_map_take(s: Seq<(String, String)>, i: int)
    requires
        distinct_keys(s),
        0 <= i < s.len(),
    ensures
        !entries_map(s.take(i)).contains_key(s[i].0@),
        entries_map(s.take(i + 1)) == entries_map(s.take(i)).insert(s[i].0@, s[i].1@),
{
    let seen = s.take(i);
    assert(s.take(i + 1).drop_last() =~= seen);
    lemma_entries_map_dom(seen, s[i].0@);
    if has_key(seen, s[i].0@) {
        let j = choose|j: int| 0 <= j < seen.len() && (#[trigger] seen[j]).0@ == s[i].0@;
        assert(s[j].0@ != s[i].0@);
    }
}

/// Appending an entry inserts it into the mapping.
pub proof fn lemma_entries_map_push(s: Seq<(String, String)>, entry: (String, String))
    ensures
        entries_map(s.push(entry)) == entries_map(s).insert(entry.0@, entry.1@),
{
    assert(s.push(entry).drop_last() =~= s);
}

/// Appending an entry under a new key keeps the keys distinct.
pub proof fn lemma_distinct_push(s: Seq<(String, String)>, entry: (String, String))
    requires
        distinct_keys(s),
        !has_key(s, entry.0@),
    ensures
        distinct_keys(s.push(entry)),
{
    let t = s.push(entry);
    assert forall|a: int, b: int| 0 <= a < b < t.len() implies (#[trigger] t[a]).0@ != (
    #[trigger] t[b]).0@ by {
        if b < s.len() {
            assert(s[a].0@ != s[b].0@);
        } else {
            assert(s[a].0@ != entry.0@);
        }
    }
}

/// Replacing an entry by one with the same key keeps the keys distinct and
/// inserts the new value into the mapping.
pub proof fn lemma_entries_map_update(s: Seq<(String, String)>, i: int, entry: (String, String))
    requires
        distinct_keys(s),
        0 <= i < s.len(),
        s[i].0@ == entry.0@,
    ensures
        distinct_keys(s.update(i, entry)),
        entries_map(s.update(i, entry)) == entries_map(s).insert(entry.0@, entry.1@),
{
    let t = s.update(i, entry);
    assert forall|a: int, b: int| 0 <= a < b < t.len() implies (#[trigger] t[a]).0@ != (
    #[trigger] t[b]).0@ by {
        assert(s[a].0@ != s[b].0@);
    }
    let m = entries_map(s).insert(entry.0@, entry.1@);
    assert forall|k: Seq<char>| #[trigger]
        entries_map(t).contains_key(k) <==> m.contains_key(k) by {
        lemma_entries_map_dom(t, k);
        lemma_entries_map_dom(s, k);
        if has_key(t, k) {
            let j = choose|j: int| 0 <= j < t.len() && (#[trigger] t[j]).0@ == k;
            assert(s[j].0@ == k);
        }
        if has_key(s, k) {
            let j = choose|j: int| 0 <= j < s.len() && (#[trigger] s[j]).0@ == k;
            assert(t[j].0@ == k);
        }
        if k == entry.0@ {
            assert(t[i].0@ == k);
        }
    }
    assert forall|k: Seq<char>| entries_map(t).contains_key(k) implies #[trigger] entries_map(t)[k]
        == m[k] by {
        lemma_entries_map_dom(t, k);
        let j = choose|j: int| 0 <= j < t.len() && (#[trigger] t[j]).0@ == k;
        lemma_entries_map_index(t, j);
        if j != i {
            assert(s[j] == t[j]);
            assert(s[j].0@ != s[i].0@);
            lemma_entries_map_index(s, j);
        }
    }
    assert(entries_map(t) =~= m);
}

/// A set of labels: a finite mapping from keys to values, both text.
#[derive(Debug)]
pub struct Labels {
    entries: Vec<(String, String)>,
}

impl View for Labels {
    type V = Map<Seq<char>, Seq<char>>;

    closed spec fn view(&self) -> Map<Seq<char>, Seq<char>> {
        entries_map(self.entries@)
    }
}

impl Labels {
    #[verifier::type_invariant]
    spec fn well_formed(self) -> bool {
        distinct_keys(self.entries@)
    }

    /// The view of a set of labels is a finite mapping.
    pub proof fn lemma_view_finite(self)
        ensures
            self@.dom().finite(),
    {
        lemma_entries_map_finite(self.entries@);
    }

    /// The empty set of labels.
    pub fn new() -> (labels: Labels)
        ensures
            labels@ == Map::<Seq<char>, Seq<char>>::empty(),
    {
        Labels { entries: Vec::new() }
    }

    /// The number of labels.
    pub fn len(&self) -> (n: usize)
        ensures
            n == self@.len(),
    {
        proof {
            use_type_invariant(self);
            lemma_entries_map_len(self.entries@);
        }
        self.entries.len()
    }

    /// Whether there is no label at all.
    pub fn is_empty(&self) -> (b: bool)
        ensures
            b == (self@ == Map::<Seq<char>, Seq<char>>::empty()),
    {
        proof {
            use_type_invariant(self);
            lemma_entries_map_len(self.entries@);
            if self.entries@.len() == 0 {
            } else {
                lemma_entries_map_index(self.entries@, 0);
            }
        }
        self.entries.len() == 0
    }

    /// Where the key stands among the entries, if it does.
    fn position(&self, key: &String) -> (at: Option<usize>)
        ensures
            match at {
                Some(i) => i < self.entries@.len() && self.entries@[i as int].0@ == key@,
                None => !has_key(self.entries@, key@),
            },
    {
        let mut i: usize = 0;
        while i < self.entries.len()
            invariant
                i <= self.entries@.len(),
                forall|j: int| 0 <= j < i ==> (#[trigger] self.entries@[j]).0@ != key@,
            decreases self.entries@.len() - i,
        {
            if self.entries[i].0 == *key {
                return Some(i);
            }
            i += 1;
        }
        None
    }

    /// The value that the key is mapped to, if any.
    pub fn get(&self, key: &String) -> (value: Option<&String>)
        ensures
            match value {
                Some(v) => self@.contains_key(key@) && self@[key@] == v@,
                None => !self@.contains_key(key@),
            },
    {
        proof {
            use_type_invariant(self);
            lemma_entries_map_dom(self.entries@, key@);
        }
        match self.position(key) {
            Some(i) => {
                proof {
                    lemma_entries_map_index(self.entries@, i as int);
                }
                Some(&self.entries[i].1)
            },
            None => None,
        }
    }

    /// Whether the key is mapped to a value.
    pub fn contains_key(&self, key: &String) -> (b: bool)
        ensures
            b == self@.contains_key(key@),
    {
        self.get(key).is_some()
    }

    /// Maps the key to the value, and hands back the value that the key was
    /// mapped to before, if there was one.
    pub fn insert(&mut self, key: String, value: String) -> (previous: Option<String>)
        ensures
            final(self)@ == old(self)@.insert(key@, value@),
            match previous {
                Some(p) => old(self)@.contains_key(key@) && old(self)@[key@] == p@,
                None => !old(self)@.contains_key(key@),
            },
    {
        proof {
            use_type_invariant(&*self);
            lemma_entries_map_dom(self.entries@, key@);
        }
        let at = self.position(&key);
        let mut taken = Labels::new();
        core::mem::swap(self, &mut taken);
        let mut entries = taken.entries;
        let previous = match at {
            Some(i) => {
                let previous = entries[i].1.clone();
                proof {
                    lemma_entries_map_index(entries@, i as int);
                    lemma_entries_map_update(entries@, i as int, (key, value));
                }
                entries.set(i, (key, value));
                Some(previous)
            },
            None => {
                proof {
                    lemma_distinct_push(entries@, (key, value));
                    lemma_entries_map_push(entries@, (key, value));
                }
                entries.push((key, value));
                None
            },
        };
        *self = Labels { entries };
        previous
    }

    /// The labels as a list of entries, one for each key.
    pub fn entries(&self) -> (entries: &Vec<(String, String)>)
        ensures
            distinct_keys(entries@),
            entries_map(entries@) == self@,
    {
        proof {
            use_type_invariant(self);
        }
        &self.entries
    }

    /// The labels that a list of entries stands for. Where a key occurs more
    /// than once, its last entry counts.
    pub fn from_pairs(pairs: Vec<(String, String)>) -> (labels: Labels)
        ensures
            labels@ == entries_map(pairs@),
    {
        let mut labels = Labels::new();
        let mut i: usize = 0;
        while i < pairs.len()
            invariant
                i <= pairs@.len(),
                labels@ == entries_map(pairs@.take(i as int)),
            decreases pairs@.len() - i,
        {
            proof {
                assert(pairs@.take(i as int + 1).drop_last() =~= pairs@.take(i as int));
            }
            labels.insert(pairs[i].0.clone(), pairs[i].1.clone());
            i += 1;
        }
        proof {
            assert(pairs@.take(i as int) =~= pairs@);
        }
        labels
    }

    /// A copy of the entries, one for each key.
    pub fn to_pairs(&self) -> (pairs: Vec<(String, String)>)
        ensures
            distinct_keys(pairs@),
            entries_map(pairs@) == self@,
    {
        proof {
            use_type_invariant(self);
        }
        let mut pairs: Vec<(String, String)> = Vec::new();
        let mut i: usize = 0;
        while i < self.entries.len()
            invariant
                i <= self.entries@.len(),
                pairs@ == self.entries@.take(i as int),
            decreases self.entries@.len() - i,
        {
            pairs.push((self.entries[i].0.clone(), self.entries[i].1.clone()));
            proof {
                assert(pairs@ =~= self.entries@.take(i as int + 1));
            }
            i += 1;
        }
        proof {
            assert(self.entries@.take(i as int) =~= self.entries@);
        }
        pairs
    }

    /// Whether every label of `other` is among these labels, with the same
    /// value.
    pub fn includes(&self, other: &Labels) -> (b: bool)
        ensures
            b == other@.submap_of(self@),
    {
        proof {
            use_type_invariant(other);
        }
        let mut i: usize = 0;
        while i < other.entries.len()
            invariant
                i <= other.entries@.len(),
                distinct_keys(other.entries@),
                forall|j: int|
                    0 <= j < i ==> self@.contains_key((#[trigger] other.entries@[j]).0@)
                        && self@[other.entries@[j].0@] == other.entries@[j].1@,
            decreases other.entries@.len() - i,
        {
            proof {
                lemma_entries_map_index(other.entries@, i as int);
            }
            match self.get(&other.entries[i].0) {
                Some(v) => {
                    if *v != other.entries[i].1 {
                        return false;
                    }
                },
                None => {
                    return false;
                },
            }
            i += 1;
        }
        proof {
            assert forall|k: Seq<char>| #[trigger]
                other@.dom().contains(k) implies #[trigger] self@.dom().contains(k) && other@[k]
                == self@[k] by {
                lemma_entries_map_dom(other.entries@, k);
                let j = choose|j: int|
                    0 <= j < other.entries@.len() && (#[trigger] other.entries@[j]).0@ == k;
                lemma_entries_map_index(other.entries@, j);
            }
        }
        true
    }
}

impl Clone for Labels {
    fn clone(&self) -> (copy: Labels)
        ensures
            copy@ == self@,
    {
        Labels { entries: self.to_pairs() }
    }
}

impl PartialEq for Labels {
    fn eq(&self, other: &Labels) -> (b: bool) {
        let b = other.includes(self) && self.includes(other);
        proof {
            if b {
                assert forall|k: Seq<char>| self@.dom().contains(k) == other@.dom().contains(
                    k,
                ) by {}
                assert forall|k: Seq<char>| self@.dom().contains(k) implies self@[k]
                    == other@[k] by {}
                assert(self@ =~= other@);
            }
        }
        b
    }
}

impl vstd::std_specs::cmp::PartialEqSpecImpl for Labels {
    open spec fn obeys_eq_spec() -> bool {
        true
    }

    open spec fn eq_spec(&self, other: &Labels) -> bool {
        self@ == other@
    }
}

} // verus!
