use project_info_propagator::context::{Cluster, Context};
use project_info_propagator::controller::Action;
use project_info_propagator::errors::Error;
use project_info_propagator::labels::Labels;
use project_info_propagator::namespace::{Namespace, NamespacePatch};
use project_info_propagator::namespaces_controller::{
    NamespaceReply, NamespaceRequest, NamespaceState, NamespaceStep,
};
use project_info_propagator::project::{Project, ProjectSpec, NAMESPACE_ANNOTATION};
use project_info_propagator::projects_cache::{CacheRequest, ProjectsCache};
use project_info_propagator::projects_controller::{
    ProjectReply, ProjectRequest, ProjectState, ProjectStep,
};
use project_info_propagator::{namespaces_controller, projects_controller};

fn labels(pairs: &[(&str, &str)]) -> Labels {
    Labels::from_pairs(
        pairs
            .iter()
            .map(|(key, value)| (key.to_string(), value.to_string()))
            .collect(),
    )
}

fn project(namespace: &str, name: &str, project_labels: &[(&str, &str)]) -> Project {
    Project {
        namespace: namespace.to_string(),
        name: name.to_string(),
        labels: labels(project_labels),
        pending_deletion: false,
        spec: ProjectSpec::default(),
    }
}

fn namespace(name: &str, annotation: Option<&str>, present: &[(&str, &str)]) -> Namespace {
    let annotations = match annotation {
        Some(value) => labels(&[(NAMESPACE_ANNOTATION, value)]),
        None => Labels::new(),
    };
    Namespace {
        name: name.to_string(),
        labels: labels(present),
        annotations,
        pending_deletion: false,
    }
}

fn requeue() -> Action {
    Action { requeue_after_secs: 300 }
}

/// A cluster that is good enough for these tests: its Namespaces, the
/// Projects of the cluster that hosts them, the cache, and whether the
/// upstream cluster answers.
struct World {
    namespaces: Vec<Namespace>,
    projects: Vec<Project>,
    cache: ProjectsCache,
    upstream_answers: bool,
    patches: usize,
}

fn world(namespaces: Vec<Namespace>, projects: Vec<Project>) -> World {
    World {
        namespaces,
        projects,
        cache: ProjectsCache::init().unwrap(),
        upstream_answers: true,
        patches: 0,
    }
}

fn copy_of(project: &Project) -> Project {
    Project {
        namespace: project.namespace.clone(),
        name: project.name.clone(),
        labels: project.labels.clone(),
        pending_deletion: project.pending_deletion,
        spec: ProjectSpec::default(),
    }
}

fn apply(world: &mut World, patch: &NamespacePatch) {
    assert_eq!("racher-project-info-propagator", patch.field_manager);
    assert!(patch.force);
    let target = world
        .namespaces
        .iter_mut()
        .find(|namespace| namespace.name == patch.namespace)
        .expect("the Namespace exists");
    target.labels = patch.labels.clone();
    world.patches += 1;
}

fn labels_of<'a>(world: &'a World, name: &str) -> &'a Labels {
    &world
        .namespaces
        .iter()
        .find(|namespace| namespace.name == name)
        .expect("the Namespace exists")
        .labels
}

fn run_project(world: &mut World, ctx: &Context, project: &Project) -> Result<Action, Error> {
    let mut state = ProjectState::Start;
    let mut reply = None;
    loop {
        let (next, step) = projects_controller::reconcile(project, ctx, state, reply);
        state = next;
        let request = match step {
            ProjectStep::Finish(result) => {
                assert_eq!(ProjectState::Done, state);
                return result;
            }
            ProjectStep::Ask(request) => request,
        };
        reply = Some(match request {
            ProjectRequest::Cache(CacheRequest::Update { project_name, labels }) => {
                ProjectReply::Cache(world.cache.cache_labels(&project_name, &labels))
            }
            ProjectRequest::Cache(CacheRequest::Delete { project_name }) => {
                ProjectReply::Cache(world.cache.delete_project(&project_name))
            }
            ProjectRequest::Cache(CacheRequest::Lookup { .. }) => {
                panic!("the reconciler of Projects does not read the cache")
            }
            ProjectRequest::ListNamespaces { selector } => {
                assert_eq!(format!("field.cattle.io/projectId={}", project.name), selector);
                ProjectReply::Namespaces(Ok(world.namespaces.clone()))
            }
            ProjectRequest::Patch(patches) => {
                assert!(!patches.is_empty());
                for patch in &patches {
                    apply(world, patch);
                }
                ProjectReply::Patched
            }
        });
    }
}

fn run_namespace(world: &mut World, ctx: &Context, name: &str) -> Result<Action, Error> {
    let namespace = world
        .namespaces
        .iter()
        .find(|namespace| namespace.name == name)
        .expect("the Namespace exists")
        .clone();
    let mut state = NamespaceState::Start;
    let mut reply = None;
    loop {
        let (next, step) = namespaces_controller::reconcile(&namespace, ctx, state, reply);
        state = next;
        let request = match step {
            NamespaceStep::Finish(result) => {
                assert_eq!(NamespaceState::Done, state);
                return result;
            }
            NamespaceStep::Ask(request) => request,
        };
        reply = Some(match request {
            NamespaceRequest::ProbeUpstream { path } => {
                assert_eq!("/version", path);
                NamespaceReply::Probed { succeeded: world.upstream_answers }
            }
            NamespaceRequest::GetProject { api, name } => {
                if ctx.is_downstream_cluster() {
                    assert_eq!(Cluster::Upstream, api.cluster);
                    assert!(world.upstream_answers);
                } else {
                    assert_eq!(Cluster::Local, api.cluster);
                    assert_eq!("local", api.namespace);
                }
                NamespaceReply::Project(
                    match world.projects.iter().find(|project| project.name == name) {
                        Some(project) => Ok(copy_of(project)),
                        None => Err(Error::Kube(format!("project {name} not found"))),
                    },
                )
            }
            NamespaceRequest::Cache(CacheRequest::Lookup { project_name }) => {
                NamespaceReply::Cached(world.cache.labels_to_propagate(&project_name))
            }
            NamespaceRequest::Cache(_) => {
                panic!("the reconciler of Namespaces does not write to the cache")
            }
            NamespaceRequest::Patch(patch) => {
                apply(world, &patch);
                NamespaceReply::Patched(Ok(()))
            }
        });
    }
}

#[test]
fn a_new_label_reaches_the_namespace() {
    let p1 = project("pns", "p1", &[("propagate.tier", "gold")]);
    let mut world = world(vec![namespace("ns1", Some("pns:p1"), &[])], vec![copy_of(&p1)]);
    let ctx = Context::upstream_cluster();

    assert_eq!(Ok(requeue()), run_namespace(&mut world, &ctx, "ns1"));
    assert_eq!(&labels(&[("tier", "gold")]), labels_of(&world, "ns1"));
    assert_eq!(1, world.patches);
}

#[test]
fn a_new_label_reaches_every_owned_namespace() {
    let p1 = project("pns", "p1", &[("propagate.tier", "gold")]);
    let mut world = world(
        vec![
            namespace("ns1", Some("pns:p1"), &[]),
            namespace("ns2", Some("other:p1"), &[]),
            namespace("ns3", Some("pns:p1"), &[("tier", "gold")]),
            namespace("ns4", Some("pns:p1"), &[("tier", "bronze"), ("zone", "eu")]),
        ],
        vec![copy_of(&p1)],
    );
    let ctx = Context::upstream_cluster();

    assert_eq!(Ok(requeue()), run_project(&mut world, &ctx, &p1));
    assert_eq!(&labels(&[("tier", "gold")]), labels_of(&world, "ns1"));
    assert_eq!(&labels(&[]), labels_of(&world, "ns2"));
    assert_eq!(&labels(&[("tier", "gold")]), labels_of(&world, "ns3"));
    assert_eq!(&labels(&[("tier", "gold"), ("zone", "eu")]), labels_of(&world, "ns4"));
    assert_eq!(2, world.patches);
    // a single cluster keeps no cache
    assert_eq!(None, world.cache.labels_to_propagate("p1").unwrap());
}

#[test]
fn a_changed_label_is_overwritten_once() {
    let p1 = project("pns", "p1", &[("propagate.tier", "gold")]);
    let mut world = world(
        vec![namespace("ns1", Some("pns:p1"), &[("tier", "silver")])],
        vec![copy_of(&p1)],
    );
    let ctx = Context::upstream_cluster();

    assert_eq!(Ok(requeue()), run_namespace(&mut world, &ctx, "ns1"));
    assert_eq!(&labels(&[("tier", "gold")]), labels_of(&world, "ns1"));
    assert_eq!(1, world.patches);

    // it is gold already: no patch is made
    assert_eq!(Ok(requeue()), run_namespace(&mut world, &ctx, "ns1"));
    assert_eq!(Ok(requeue()), run_project(&mut world, &ctx, &p1));
    assert_eq!(&labels(&[("tier", "gold")]), labels_of(&world, "ns1"));
    assert_eq!(1, world.patches);
}

#[test]
fn the_cache_serves_while_upstream_is_out_of_reach() {
    let mut world = world(vec![namespace("ns1", Some("pns:p1"), &[])], vec![]);
    world.cache.cache_labels("p1", &labels(&[("tier", "gold")])).unwrap();
    world.upstream_answers = false;
    let ctx = Context::downstream_cluster("c-m-1234");

    assert_eq!(Ok(requeue()), run_namespace(&mut world, &ctx, "ns1"));
    assert_eq!(&labels(&[("tier", "gold")]), labels_of(&world, "ns1"));
    assert_eq!(1, world.patches);
}

#[test]
fn a_degraded_read_of_an_unknown_project_changes_nothing() {
    let mut world = world(vec![namespace("ns1", Some("pns:p1"), &[("zone", "eu")])], vec![]);
    world.upstream_answers = false;
    let ctx = Context::downstream_cluster("c-m-1234");

    assert_eq!(Ok(requeue()), run_namespace(&mut world, &ctx, "ns1"));
    assert_eq!(&labels(&[("zone", "eu")]), labels_of(&world, "ns1"));
    assert_eq!(0, world.patches);
}

#[test]
fn a_downstream_cluster_reads_upstream_when_it_answers() {
    let p1 = project("c-m-1234", "p1", &[("propagate.tier", "gold")]);
    let mut world = world(vec![namespace("ns1", Some("c-m-1234:p1"), &[])], vec![copy_of(&p1)]);
    world.cache.cache_labels("p1", &labels(&[("tier", "stale")])).unwrap();
    let ctx = Context::downstream_cluster("c-m-1234");

    assert_eq!(Ok(requeue()), run_namespace(&mut world, &ctx, "ns1"));
    assert_eq!(&labels(&[("tier", "gold")]), labels_of(&world, "ns1"));
}

#[test]
fn the_reconciler_of_projects_keeps_the_cache_up_to_date() {
    let mut p1 = project("c-m-1234", "p1", &[("propagate.tier", "gold"), ("foo", "bar")]);
    let mut world = world(vec![namespace("ns1", Some("c-m-1234:p1"), &[])], vec![]);
    let ctx = Context::downstream_cluster("c-m-1234");

    assert_eq!(Ok(requeue()), run_project(&mut world, &ctx, &p1));
    assert_eq!(Some(labels(&[("tier", "gold")])), world.cache.labels_to_propagate("p1").unwrap());
    assert_eq!(&labels(&[("tier", "gold")]), labels_of(&world, "ns1"));

    p1.labels = labels(&[("propagate.tier", "silver"), ("propagate.zone", "eu")]);
    assert_eq!(Ok(requeue()), run_project(&mut world, &ctx, &p1));
    assert_eq!(
        Some(labels(&[("tier", "silver"), ("zone", "eu")])),
        world.cache.labels_to_propagate("p1").unwrap()
    );

    p1.pending_deletion = true;
    let patches = world.patches;
    assert_eq!(Ok(requeue()), run_project(&mut world, &ctx, &p1));
    assert_eq!(None, world.cache.labels_to_propagate("p1").unwrap());
    assert_eq!(patches, world.patches);
}

#[test]
fn a_namespace_that_is_not_managed_is_left_alone() {
    let ctx = Context::downstream_cluster("c-m-1234");
    let unowned = namespace("ns1", None, &[("zone", "eu")]);
    let (state, step) = namespaces_controller::reconcile(&unowned, &ctx, NamespaceState::Start, None);
    assert_eq!(NamespaceState::Done, state);
    assert!(matches!(step, NamespaceStep::Finish(Ok(action)) if action == requeue()));

    let mut leaving = namespace("ns1", Some("pns:p1"), &[]);
    leaving.pending_deletion = true;
    let (state, step) = namespaces_controller::reconcile(&leaving, &ctx, NamespaceState::Start, None);
    assert_eq!(NamespaceState::Done, state);
    assert!(matches!(step, NamespaceStep::Finish(Ok(action)) if action == requeue()));
}

#[test]
fn a_failure_to_fetch_the_project_ends_the_reconciliation() {
    let mut world = world(vec![namespace("ns1", Some("pns:p1"), &[])], vec![]);
    let ctx = Context::upstream_cluster();
    assert_eq!(
        Err(Error::Kube("project p1 not found".to_string())),
        run_namespace(&mut world, &ctx, "ns1")
    );
    assert_eq!(0, world.patches);
}

#[test]
fn a_failure_of_the_cache_ends_a_degraded_read() {
    let ctx = Context::downstream_cluster("c-m-1234");
    let owned = namespace("ns1", Some("pns:p1"), &[]);
    let failure = Error::Sqlite("get project labels".to_string(), "locked".to_string());
    let (state, step) = namespaces_controller::reconcile(
        &owned,
        &ctx,
        NamespaceState::ReadingCache,
        Some(NamespaceReply::Cached(Err(failure))),
    );
    assert_eq!(NamespaceState::Done, state);
    match step {
        NamespaceStep::Finish(Err(error)) => assert_eq!("get project labels: locked", error.message()),
        other => panic!("unexpected step {:?}", other),
    }
}

#[test]
fn a_failure_to_patch_ends_the_reconciliation_of_a_namespace() {
    let ctx = Context::upstream_cluster();
    let owned = namespace("ns1", Some("pns:p1"), &[]);
    let (state, step) = namespaces_controller::reconcile(
        &owned,
        &ctx,
        NamespaceState::Patching,
        Some(NamespaceReply::Patched(Err(Error::Kube("conflict".to_string())))),
    );
    assert_eq!(NamespaceState::Done, state);
    assert!(matches!(step, NamespaceStep::Finish(Err(Error::Kube(cause))) if cause == "conflict"));
}

#[test]
fn a_failure_to_list_ends_the_reconciliation_of_a_project() {
    let ctx = Context::upstream_cluster();
    let p1 = project("pns", "p1", &[("propagate.tier", "gold")]);
    let (state, step) = projects_controller::reconcile(&p1, &ctx, ProjectState::Start, None);
    assert_eq!(ProjectState::Listing, state);
    assert!(matches!(step, ProjectStep::Ask(ProjectRequest::ListNamespaces { .. })));
    let (state, step) = projects_controller::reconcile(
        &p1,
        &ctx,
        state,
        Some(ProjectReply::Namespaces(Err(Error::Kube("forbidden".to_string())))),
    );
    assert_eq!(ProjectState::Done, state);
    assert!(matches!(step, ProjectStep::Finish(Err(Error::Kube(cause))) if cause == "forbidden"));
}

#[test]
fn a_failure_of_the_cache_does_not_stop_the_reconciler_of_projects() {
    let ctx = Context::downstream_cluster("c-m-1234");
    let mut p1 = project("c-m-1234", "p1", &[("propagate.tier", "gold")]);
    let failure = || Error::Sqlite("insert labels".to_string(), "disk full".to_string());

    let (state, step) = projects_controller::reconcile(&p1, &ctx, ProjectState::Start, None);
    assert_eq!(ProjectState::CacheUpdating, state);
    assert!(matches!(step, ProjectStep::Ask(ProjectRequest::Cache(CacheRequest::Update { .. }))));
    let (state, step) =
        projects_controller::reconcile(&p1, &ctx, state, Some(ProjectReply::Cache(Err(failure()))));
    assert_eq!(ProjectState::Listing, state);
    assert!(matches!(step, ProjectStep::Ask(ProjectRequest::ListNamespaces { .. })));

    p1.pending_deletion = true;
    let (state, step) = projects_controller::reconcile(&p1, &ctx, ProjectState::Start, None);
    assert_eq!(ProjectState::CacheDeleting, state);
    assert!(matches!(step, ProjectStep::Ask(ProjectRequest::Cache(CacheRequest::Delete { .. }))));
    let (state, step) =
        projects_controller::reconcile(&p1, &ctx, state, Some(ProjectReply::Cache(Err(failure()))));
    assert_eq!(ProjectState::Done, state);
    assert!(matches!(step, ProjectStep::Finish(Ok(action)) if action == requeue()));
}

#[test]
fn a_reply_that_was_not_asked_for_is_an_internal_failure() {
    let ctx = Context::upstream_cluster();
    let p1 = project("pns", "p1", &[]);
    let (state, step) =
        projects_controller::reconcile(&p1, &ctx, ProjectState::Listing, Some(ProjectReply::Patched));
    assert_eq!(ProjectState::Done, state);
    assert!(matches!(step, ProjectStep::Finish(Err(Error::Internal(_)))));
    let (_, step) = projects_controller::reconcile(&p1, &ctx, ProjectState::Done, None);
    assert!(matches!(step, ProjectStep::Finish(Err(Error::Internal(_)))));

    let owned = namespace("ns1", Some("pns:p1"), &[]);
    let (state, step) = namespaces_controller::reconcile(
        &owned,
        &ctx,
        NamespaceState::Fetching,
        Some(NamespaceReply::Probed { succeeded: true }),
    );
    assert_eq!(NamespaceState::Done, state);
    assert!(matches!(step, NamespaceStep::Finish(Err(Error::Internal(_)))));
}

#[test]
fn the_error_policy_tries_again_after_the_interval() {
    let ctx = Context::upstream_cluster();
    let error = Error::Kube("timeout".to_string());
    assert_eq!(requeue(), projects_controller::error_policy(&error, &ctx));
    assert_eq!(requeue(), namespaces_controller::error_policy(&error, &ctx));
    let ctx = Context::downstream_cluster("c-m-1234");
    let error = Error::Sqlite("insert labels".to_string(), "disk full".to_string());
    assert_eq!(requeue(), projects_controller::error_policy(&error, &ctx));
    assert_eq!(requeue(), namespaces_controller::error_policy(&error, &ctx));
}
