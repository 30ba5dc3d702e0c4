use project_info_propagator::labels::Labels;
use project_info_propagator::namespace::Namespace;
use project_info_propagator::project::{
    Project, ProjectSpec, KEY_PROPAGATION_PREFIX, NAMESPACE_ANNOTATION,
};

fn labels(pairs: &[(&str, &str)]) -> Labels {
    Labels::from_pairs(
        pairs
            .iter()
            .map(|(key, value)| (key.to_string(), value.to_string()))
            .collect(),
    )
}

fn project(namespace: &str, name: &str, project_labels: &[(&str, &str)]) -> Project {
    Project {
        namespace: namespace.to_string(),
        name: name.to_string(),
        labels: labels(project_labels),
        pending_deletion: false,
        spec: ProjectSpec::default(),
    }
}

fn namespace(name: &str, annotation: Option<&str>) -> Namespace {
    let annotations = match annotation {
        Some(value) => labels(&[(NAMESPACE_ANNOTATION, value)]),
        None => Labels::new(),
    };
    Namespace {
        name: name.to_string(),
        labels: Labels::new(),
        annotations,
        pending_deletion: false,
    }
}

fn names(namespaces: &[Namespace]) -> Vec<String> {
    namespaces.iter().map(|namespace| namespace.name.clone()).collect()
}

#[test]
fn test_relevant_labels_strips_the_prefix() {
    let project = project("pns", "p1", &[("propagate.hello", "world"), ("foo", "bar")]);
    assert_eq!(project.relevant_labels(), labels(&[("hello", "world")]));
}

#[test]
fn test_relevant_labels_without_prefixed_labels() {
    let project = project("pns", "p1", &[("foo", "bar")]);
    assert_eq!(project.relevant_labels(), labels(&[]));
}

#[test]
fn test_relevant_labels_without_labels() {
    let project = project("pns", "p1", &[]);
    assert_eq!(project.relevant_labels(), labels(&[]));
}

#[test]
fn the_constants_are_the_well_known_ones() {
    assert_eq!("field.cattle.io/projectId", NAMESPACE_ANNOTATION);
    assert_eq!("propagate.", KEY_PROPAGATION_PREFIX);
}

#[test]
fn an_unprefixed_label_is_not_propagated() {
    let project = project(
        "pns",
        "p1",
        &[("tier", "bronze"), ("propagate.zone", "eu"), ("xpropagate.a", "b")],
    );
    let relevant = project.relevant_labels();
    assert_eq!(relevant, labels(&[("zone", "eu")]));
    assert!(!relevant.contains_key(&"tier".to_string()));
    assert!(!relevant.contains_key(&"a".to_string()));
}

#[test]
fn a_prefixed_label_wins_its_unprefixed_key() {
    let project = project("pns", "p1", &[("tier", "bronze"), ("propagate.tier", "gold")]);
    assert_eq!(project.relevant_labels(), labels(&[("tier", "gold")]));
}

#[test]
fn the_prefix_is_stripped_once() {
    let project = project(
        "pns",
        "p1",
        &[("propagate.propagate.a", "1"), ("propagate.", "2"), ("propagate", "3")],
    );
    assert_eq!(project.relevant_labels(), labels(&[("propagate.a", "1"), ("", "2")]));
}

#[test]
fn the_selector_goes_by_the_name_alone() {
    let project = project("pns", "p1", &[]);
    assert_eq!("field.cattle.io/projectId=p1", project.namespace_selector());
}

#[test]
fn the_annotation_holds_namespace_and_name() {
    let project = project("pns", "p1", &[]);
    assert_eq!("pns:p1", project.ownership_annotation());
}

#[test]
fn namespaces_of_a_same_named_project_elsewhere_are_left_out() {
    let listed = vec![
        namespace("one", Some("ns-a:proj1")),
        namespace("two", Some("ns-b:proj1")),
        namespace("three", None),
        namespace("four", Some("ns-b:proj1")),
        namespace("five", Some("ns-b:proj10")),
        namespace("six", Some("ns-b:proj1:")),
    ];
    let found = project("ns-b", "proj1", &[]).namespaces(&listed);
    assert_eq!(vec!["two".to_string(), "four".to_string()], names(&found));
    let found = project("ns-a", "proj1", &[]).namespaces(&listed);
    assert_eq!(vec!["one".to_string()], names(&found));
    let found = project("ns-c", "proj1", &[]).namespaces(&listed);
    assert!(found.is_empty());
}

#[test]
fn the_namespaces_found_are_copies_of_those_listed() {
    let mut one = namespace("one", Some("pns:p1"));
    one.labels = labels(&[("tier", "silver")]);
    one.pending_deletion = true;
    let found = project("pns", "p1", &[]).namespaces(&vec![one]);
    assert_eq!(1, found.len());
    assert_eq!("one", found[0].name);
    assert_eq!(labels(&[("tier", "silver")]), found[0].labels);
    assert_eq!(labels(&[(NAMESPACE_ANNOTATION, "pns:p1")]), found[0].annotations);
    assert!(found[0].pending_deletion);
}
