use project_info_propagator::labels::Labels;
use project_info_propagator::namespace::{propagate_labels, Namespace, FIELD_MANAGER};
use project_info_propagator::project::NAMESPACE_ANNOTATION;

fn labels(pairs: &[(&str, &str)]) -> Labels {
    Labels::from_pairs(
        pairs
            .iter()
            .map(|(key, value)| (key.to_string(), value.to_string()))
            .collect(),
    )
}

fn namespace(name: &str, annotation: Option<&str>, present: &[(&str, &str)]) -> Namespace {
    let annotations = match annotation {
        Some(value) => labels(&[("other", "x"), (NAMESPACE_ANNOTATION, value)]),
        None => labels(&[("other", "x")]),
    };
    Namespace {
        name: name.to_string(),
        labels: labels(present),
        annotations,
        pending_deletion: false,
    }
}

#[test]
fn the_owner_is_read_from_the_annotation() {
    let owner = namespace("ns1", Some("pns:p1"), &[]).owner().expect("the owner is named");
    assert_eq!("pns", owner.namespace);
    assert_eq!("p1", owner.name);
}

#[test]
fn the_owner_is_split_at_the_first_colon() {
    let owner = namespace("ns1", Some("a:b:c"), &[]).owner().expect("the owner is named");
    assert_eq!("a", owner.namespace);
    assert_eq!("b:c", owner.name);
    let owner = namespace("ns1", Some(":p1"), &[]).owner().expect("the owner is named");
    assert_eq!("", owner.namespace);
    assert_eq!("p1", owner.name);
    let owner = namespace("ns1", Some("pns:"), &[]).owner().expect("the owner is named");
    assert_eq!("pns", owner.namespace);
    assert_eq!("", owner.name);
}

#[test]
fn a_namespace_without_annotation_has_no_owner() {
    assert!(namespace("ns1", None, &[]).owner().is_none());
}

#[test]
fn an_annotation_without_colon_names_no_owner() {
    assert!(namespace("ns1", Some("p1"), &[]).owner().is_none());
    assert!(namespace("ns1", Some(""), &[]).owner().is_none());
}

#[test]
fn the_field_manager_is_stable() {
    assert_eq!("racher-project-info-propagator", FIELD_MANAGER);
}

#[test]
fn a_namespace_that_is_up_to_date_is_not_patched() {
    let namespace = namespace("ns1", Some("pns:p1"), &[("tier", "gold"), ("zone", "eu")]);
    let patch = propagate_labels(&labels(&[("tier", "gold")]), &namespace).unwrap();
    assert!(patch.is_none());
    let patch = propagate_labels(&labels(&[]), &namespace).unwrap();
    assert!(patch.is_none());
}

#[test]
fn a_patch_carries_the_merged_labels() {
    let namespace = namespace("ns1", Some("pns:p1"), &[("tier", "silver"), ("zone", "eu")]);
    let patch = propagate_labels(&labels(&[("tier", "gold"), ("team", "blue")]), &namespace)
        .unwrap()
        .expect("a change is needed");
    assert_eq!("ns1", patch.namespace);
    assert_eq!(labels(&[("tier", "gold"), ("zone", "eu"), ("team", "blue")]), patch.labels);
    assert_eq!("racher-project-info-propagator", patch.field_manager);
    assert!(patch.force);
}
