use project_info_propagator::errors::Error;

#[test]
fn a_cluster_failure_is_described() {
    let error = Error::Kube("not found".to_string());
    assert_eq!("Kube Error: not found", error.message());
}

#[test]
fn a_kubeconfig_failure_is_described() {
    let error = Error::Kubeconfig("no such file".to_string());
    assert_eq!("Error parsing Kubeconfig: no such file", error.message());
}

#[test]
fn a_cache_failure_is_described_with_its_step() {
    let error = Error::Sqlite("insert labels".to_string(), "disk full".to_string());
    assert_eq!("insert labels: disk full", error.message());
}

#[test]
fn an_internal_failure_is_described() {
    let error = Error::Internal("Cannot create path to sqlite file".to_string());
    assert_eq!("Internal error: Cannot create path to sqlite file", error.message());
}
