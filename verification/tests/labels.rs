use project_info_propagator::labels::Labels;

fn text(value: &str) -> String {
    value.to_string()
}

#[test]
fn new_labels_are_empty() {
    let labels = Labels::new();
    assert!(labels.is_empty());
    assert_eq!(0, labels.len());
    assert_eq!(None, labels.get(&text("hello")));
    assert!(!labels.contains_key(&text("hello")));
}

#[test]
fn insert_returns_the_previous_value() {
    let mut labels = Labels::new();
    assert_eq!(None, labels.insert(text("hello"), text("world")));
    assert_eq!(Some(text("world")), labels.insert(text("hello"), text("mondo")));
    assert_eq!(Some(&text("mondo")), labels.get(&text("hello")));
    assert_eq!(1, labels.len());
    assert!(!labels.is_empty());
    assert!(labels.contains_key(&text("hello")));
}

#[test]
fn from_pairs_lets_the_last_entry_of_a_key_win() {
    let labels = Labels::from_pairs(vec![
        (text("a"), text("1")),
        (text("b"), text("2")),
        (text("a"), text("3")),
    ]);
    assert_eq!(2, labels.len());
    assert_eq!(Some(&text("3")), labels.get(&text("a")));
    assert_eq!(Some(&text("2")), labels.get(&text("b")));
}

#[test]
fn equality_does_not_depend_on_the_order_of_insertion() {
    let one = Labels::from_pairs(vec![(text("a"), text("1")), (text("b"), text("2"))]);
    let other = Labels::from_pairs(vec![(text("b"), text("2")), (text("a"), text("1"))]);
    assert_eq!(one, other);
    let different = Labels::from_pairs(vec![(text("a"), text("1")), (text("b"), text("3"))]);
    assert_ne!(one, different);
    let smaller = Labels::from_pairs(vec![(text("a"), text("1"))]);
    assert_ne!(one, smaller);
    assert_ne!(smaller, one);
}

#[test]
fn includes_asks_for_the_same_values() {
    let all = Labels::from_pairs(vec![(text("a"), text("1")), (text("b"), text("2"))]);
    let part = Labels::from_pairs(vec![(text("a"), text("1"))]);
    let other = Labels::from_pairs(vec![(text("a"), text("2"))]);
    assert!(all.includes(&part));
    assert!(!part.includes(&all));
    assert!(!all.includes(&other));
    assert!(all.includes(&Labels::new()));
}

#[test]
fn to_pairs_and_entries_hold_each_key_once() {
    let labels = Labels::from_pairs(vec![
        (text("a"), text("1")),
        (text("b"), text("2")),
        (text("a"), text("3")),
    ]);
    let mut pairs = labels.to_pairs();
    pairs.sort();
    assert_eq!(vec![(text("a"), text("3")), (text("b"), text("2"))], pairs);
    assert_eq!(2, labels.entries().len());
    assert_eq!(labels, Labels::from_pairs(labels.to_pairs()));
    assert_eq!(labels, labels.clone());
}
