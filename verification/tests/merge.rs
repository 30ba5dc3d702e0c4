use project_info_propagator::labels::Labels;
use project_info_propagator::namespace::merge_labels;

fn labels(pairs: &[(&str, &str)]) -> Labels {
    Labels::from_pairs(
        pairs
            .iter()
            .map(|(key, value)| (key.to_string(), value.to_string()))
            .collect(),
    )
}

fn merged(relevant: &[(&str, &str)], present: &[(&str, &str)]) -> Option<Labels> {
    merge_labels(&labels(relevant), &labels(present)).expect("merge should not fail")
}

#[test]
fn test_merge_labels_same_value_is_no_change() {
    let actual = merged(&[("hello", "world")], &[("hello", "world"), ("ciao", "mondo")]);
    assert_eq!(None, actual);
}

#[test]
fn test_merge_labels_different_value_is_overwritten() {
    let actual = merged(&[("hello", "world")], &[("hello", "world2"), ("ciao", "mondo")]);
    assert_eq!(Some(labels(&[("hello", "world"), ("ciao", "mondo")])), actual);
}

#[test]
fn test_merge_labels_nothing_to_propagate() {
    let actual = merged(&[], &[("ciao", "mondo")]);
    assert_eq!(None, actual);
}

#[test]
fn test_merge_labels_missing_label_is_added() {
    let actual = merged(&[("hi", "world")], &[]);
    assert_eq!(Some(labels(&[("hi", "world")])), actual);
}

#[test]
fn merge_is_idempotent() {
    let relevant = labels(&[("tier", "gold"), ("team", "blue")]);
    let present = labels(&[("tier", "silver"), ("owner", "ops")]);
    let first = merge_labels(&relevant, &present).unwrap().expect("a change is needed");
    assert_eq!(None, merge_labels(&relevant, &first).unwrap());
}

#[test]
fn merge_preserves_unrelated_keys() {
    let relevant = labels(&[("tier", "gold")]);
    let present = labels(&[("owner", "ops"), ("zone", "eu"), ("tier", "silver")]);
    let result = merge_labels(&relevant, &present).unwrap().expect("a change is needed");
    assert_eq!(Some(&"ops".to_string()), result.get(&"owner".to_string()));
    assert_eq!(Some(&"eu".to_string()), result.get(&"zone".to_string()));
    assert_eq!(Some(&"gold".to_string()), result.get(&"tier".to_string()));
    assert_eq!(3, result.len());
}

#[test]
fn merge_of_nothing_into_nothing_is_no_change() {
    assert_eq!(None, merged(&[], &[]));
}

#[test]
fn merge_adds_and_overwrites_at_once() {
    let actual = merged(&[("a", "1"), ("b", "2")], &[("b", "0"), ("c", "3")]);
    assert_eq!(Some(labels(&[("a", "1"), ("b", "2"), ("c", "3")])), actual);
}
