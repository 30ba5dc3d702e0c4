use project_info_propagator::context::{
    Cluster, Context, LOCAL_PROJECTS_NAMESPACE, UPSTREAM_PROBE_PATH,
};
use project_info_propagator::controller::{
    upstream_settings, Action, RECONCILIATION_INTERVAL_SECS,
};
use project_info_propagator::labels::Labels;
use project_info_propagator::projects_cache::CacheRequest;

fn labels(pairs: &[(&str, &str)]) -> Labels {
    Labels::from_pairs(
        pairs
            .iter()
            .map(|(key, value)| (key.to_string(), value.to_string()))
            .collect(),
    )
}

#[test]
fn a_single_cluster_has_no_upstream() {
    let ctx = Context::upstream_cluster();
    assert!(!ctx.is_downstream_cluster());
    assert!(ctx.upstream_probe().is_none());
    assert!(!ctx.is_upstream_cluster_reachable(true));
    assert!(!ctx.is_upstream_cluster_reachable(false));
    let api = ctx.projects_api();
    assert_eq!(Cluster::Local, api.cluster);
    assert_eq!("local", api.namespace);
    assert_eq!("local", LOCAL_PROJECTS_NAMESPACE);
}

#[test]
fn a_single_cluster_has_no_cache() {
    let ctx = Context::upstream_cluster();
    assert!(ctx.cache_delete_project("p1").is_none());
    assert!(ctx.cache_update_project("p1", &labels(&[("tier", "gold")])).is_none());
    assert!(ctx.cache_labels_to_propagate("p1").is_none());
}

#[test]
fn a_downstream_cluster_asks_the_upstream_one() {
    let ctx = Context::downstream_cluster("c-m-1234");
    assert!(ctx.is_downstream_cluster());
    assert_eq!(Some("/version".to_string()), ctx.upstream_probe());
    assert_eq!("/version", UPSTREAM_PROBE_PATH);
    assert!(ctx.is_upstream_cluster_reachable(true));
    assert!(!ctx.is_upstream_cluster_reachable(false));
    let api = ctx.projects_api();
    assert_eq!(Cluster::Upstream, api.cluster);
    assert_eq!("c-m-1234", api.namespace);
}

#[test]
fn a_downstream_cluster_passes_requests_on_to_the_cache() {
    let ctx = Context::downstream_cluster("c-m-1234");
    match ctx.cache_delete_project("p1") {
        Some(CacheRequest::Delete { project_name }) => assert_eq!("p1", project_name),
        other => panic!("unexpected request {:?}", other),
    }
    match ctx.cache_update_project("p1", &labels(&[("tier", "gold")])) {
        Some(CacheRequest::Update { project_name, labels: stored }) => {
            assert_eq!("p1", project_name);
            assert_eq!(labels(&[("tier", "gold")]), stored);
        }
        other => panic!("unexpected request {:?}", other),
    }
    match ctx.cache_labels_to_propagate("p1") {
        Some(CacheRequest::Lookup { project_name }) => assert_eq!("p1", project_name),
        other => panic!("unexpected request {:?}", other),
    }
}

#[test]
fn the_interval_is_five_minutes() {
    assert_eq!(5 * 60, RECONCILIATION_INTERVAL_SECS);
    assert_eq!(Action { requeue_after_secs: 300 }, Action::requeue(300));
}

#[test]
fn the_upstream_settings_come_together() {
    assert_eq!(None, upstream_settings(None, None));
    assert_eq!(
        Some(("/etc/upstream.yaml".to_string(), "c-m-1234".to_string())),
        upstream_settings(Some("/etc/upstream.yaml".to_string()), Some("c-m-1234".to_string()))
    );
}

#[test]
fn the_two_settings_are_told_apart() {
    let single = Context::upstream_cluster();
    let dual = Context::downstream_cluster("local");
    assert!(!single.is_downstream_cluster());
    assert!(dual.is_downstream_cluster());
    assert_eq!(Cluster::Local, single.projects_api().cluster);
    assert_eq!(Cluster::Upstream, dual.projects_api().cluster);
    assert_eq!("local", dual.projects_api().namespace);
}
