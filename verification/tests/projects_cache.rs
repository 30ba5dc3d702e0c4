use project_info_propagator::labels::Labels;
use project_info_propagator::projects_cache::{
    labels_from_rows, labels_to_insert, labels_to_remove, Label, ProjectsCache,
};

fn labels(pairs: &[(&str, &str)]) -> Labels {
    Labels::from_pairs(
        pairs
            .iter()
            .map(|(key, value)| (key.to_string(), value.to_string()))
            .collect(),
    )
}

fn row(id: i64, key: &str, value: &str) -> Label {
    Label { id, key: key.to_string(), value: value.to_string() }
}

#[test]
fn test_init() {
    assert!(ProjectsCache::init().is_ok());
}

#[test]
fn cache_labels() {
    let project_name = "test";
    let mut cache = ProjectsCache::init().expect("cannot create cache");

    let labels_evolution = vec![
        labels(&[("hello", "world"), ("hola", "mundo")]),
        labels(&[("hello", "world"), ("hola", "mundo"), ("ciao", "mondo")]),
        labels(&[("hola", "mundo"), ("ciao", "mondo"), ("hallo", "wereld")]),
        labels(&[("hola", "mundo"), ("ciao", "globo terracqueo"), ("hallo", "wereld")]),
    ];

    let mut round = 0;
    for labels in labels_evolution {
        cache
            .cache_labels(project_name, &labels)
            .expect(format!("{round} - cannot cache labels").as_str());

        let actual_labels = cache
            .labels_to_propagate(project_name)
            .expect(format!("{round} cannot get cached labels").as_str());

        assert!(actual_labels.is_some(), "round {round}");
        let actual_labels = actual_labels.unwrap();
        assert_eq!(
            labels, actual_labels,
            "round {round}, expected = '{labels:?}', got = '{actual_labels:?}')"
        );

        round += 1;
    }
}

#[test]
fn labels_of_non_existing_project() {
    let project_name = "test";
    let cache = ProjectsCache::init().expect("cannot create cache");

    let labels = cache.labels_to_propagate(project_name);

    assert!(labels.is_ok());
    assert!(labels.unwrap().is_none());
}

#[test]
fn delete_non_existing_project() {
    let project_name = "test";
    let mut cache = ProjectsCache::init().expect("cannot create cache");
    let result = cache.delete_project(project_name);

    assert!(result.is_ok());
}

#[test]
fn delete_project() {
    let project_name = "test";
    let mut cache = ProjectsCache::init().expect("cannot create cache");

    let labels = labels(&[("hello", "world")]);
    cache.cache_labels(project_name, &labels).expect("cannot cache labels");

    let label_count = cache.label_count();
    assert_eq!(1, label_count, "got {label_count} instead of 1");

    let result = cache.delete_project(project_name);
    assert!(result.is_ok());

    // the labels of the project leave with it
    let label_count = cache.label_count();
    assert_eq!(0, label_count, "got {label_count} instead of 0");
    assert_eq!(None, cache.labels_to_propagate(project_name).unwrap());
}

#[test]
fn empty_labels_are_cached_as_such() {
    let mut cache = ProjectsCache::init().unwrap();
    cache.cache_labels("p1", &labels(&[])).unwrap();
    assert_eq!(Some(labels(&[])), cache.labels_to_propagate("p1").unwrap());
    assert_eq!(None, cache.labels_to_propagate("p2").unwrap());

    cache.cache_labels("p1", &labels(&[("tier", "gold")])).unwrap();
    cache.cache_labels("p1", &labels(&[])).unwrap();
    assert_eq!(Some(labels(&[])), cache.labels_to_propagate("p1").unwrap());
    assert_eq!(0, cache.label_count());
}

#[test]
fn projects_are_cached_apart() {
    let mut cache = ProjectsCache::init().unwrap();
    cache.cache_labels("p1", &labels(&[("tier", "gold"), ("zone", "eu")])).unwrap();
    cache.cache_labels("p2", &labels(&[("tier", "silver")])).unwrap();
    assert_eq!(3, cache.label_count());

    cache.cache_labels("p1", &labels(&[("tier", "bronze")])).unwrap();
    assert_eq!(Some(labels(&[("tier", "bronze")])), cache.labels_to_propagate("p1").unwrap());
    assert_eq!(Some(labels(&[("tier", "silver")])), cache.labels_to_propagate("p2").unwrap());
    assert_eq!(2, cache.label_count());

    cache.delete_project("p1").unwrap();
    assert_eq!(None, cache.labels_to_propagate("p1").unwrap());
    assert_eq!(Some(labels(&[("tier", "silver")])), cache.labels_to_propagate("p2").unwrap());
    assert_eq!(1, cache.label_count());

    cache.cache_labels("p1", &labels(&[("zone", "us")])).unwrap();
    assert_eq!(Some(labels(&[("zone", "us")])), cache.labels_to_propagate("p1").unwrap());
    assert_eq!(Some(labels(&[("tier", "silver")])), cache.labels_to_propagate("p2").unwrap());
}

#[test]
fn caching_the_same_labels_again_changes_no_row() {
    let mut cache = ProjectsCache::init().unwrap();
    let stored = labels(&[("tier", "gold"), ("zone", "eu")]);
    cache.cache_labels("p1", &stored).unwrap();
    cache.cache_labels("p1", &stored).unwrap();
    assert_eq!(2, cache.label_count());
    assert_eq!(Some(stored), cache.labels_to_propagate("p1").unwrap());
}

#[test]
fn rows_that_are_gone_or_changed_are_removed() {
    let current = vec![
        row(1, "hello", "world"),
        row(2, "hola", "mundo"),
        row(3, "ciao", "mondo"),
        row(7, "hallo", "wereld"),
    ];
    let desired = labels(&[("hola", "mundo"), ("ciao", "globo terracqueo"), ("salut", "monde")]);
    assert_eq!(vec![1, 3, 7], labels_to_remove(&current, &desired));
    assert_eq!(Vec::<i64>::new(), labels_to_remove(&Vec::new(), &desired));
    assert_eq!(vec![1, 2, 3, 7], labels_to_remove(&current, &labels(&[])));
}

#[test]
fn rows_that_are_missing_or_changed_are_inserted() {
    let current = vec![row(1, "hello", "world"), row(2, "hola", "mundo"), row(3, "ciao", "mondo")];
    let desired = labels(&[("hola", "mundo"), ("ciao", "globo terracqueo"), ("salut", "monde")]);
    let mut added: Vec<(i64, String, String)> = labels_to_insert(&current, &desired, 42)
        .into_iter()
        .map(|row| (row.project_id, row.key, row.value))
        .collect();
    added.sort();
    assert_eq!(
        vec![
            (42, "ciao".to_string(), "globo terracqueo".to_string()),
            (42, "salut".to_string(), "monde".to_string()),
        ],
        added
    );
    assert!(labels_to_insert(&current, &labels(&[("hola", "mundo")]), 42).is_empty());
    assert_eq!(3, labels_to_insert(&Vec::new(), &desired, 42).len());
}

#[test]
fn rows_stand_for_their_labels() {
    let rows = vec![row(1, "hello", "world"), row(2, "hola", "mundo")];
    assert_eq!(labels(&[("hello", "world"), ("hola", "mundo")]), labels_from_rows(&rows));
    assert_eq!(labels(&[]), labels_from_rows(&Vec::new()));
    let twice = vec![row(1, "hello", "world"), row(2, "hello", "mondo")];
    assert_eq!(labels(&[("hello", "mondo")]), labels_from_rows(&twice));
}
