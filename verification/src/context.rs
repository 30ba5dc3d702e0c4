//! The setting that the reconcilers run in: one cluster that hosts both the
//! Projects and the Namespaces, or a downstream cluster whose Projects are
//! kept in an upstream cluster.

use vstd::prelude::*;
use crate::labels::Labels;
use crate::projects_cache::{CacheRequest, CacheRequestView};
use crate::views::option_view;

verus! {

/// The namespace that holds the Projects of the cluster that the controller
/// itself runs in.
pub const LOCAL_PROJECTS_NAMESPACE: &'static str = "local";

/// The path that is fetched from the upstream cluster to see whether it can
/// be reached.
pub const UPSTREAM_PROBE_PATH: &'static str = "/version";

/// Holds the details of the upstream cluster.
#[derive(Debug)]
pub struct UpstreamClusterContext {
    /// The identifier of the downstream cluster: the namespace of the
    /// upstream cluster that holds its Projects.
    cluster_id: String,
}

impl UpstreamClusterContext {
    /// The details of an upstream cluster that knows this cluster by the
    /// given identifier.
    pub fn new(cluster_id: &str) -> (upstream: UpstreamClusterContext)
        ensures
            upstream.cluster_id() == cluster_id@,
    {
        UpstreamClusterContext { cluster_id: cluster_id.to_owned() }
    }

    /// The identifier of the downstream cluster.
    pub closed spec fn cluster_id(&self) -> Seq<char> {
        self.cluster_id@
    }
}

/// Which cluster a request for Projects goes to.
#[derive(Debug, Clone, Copy, PartialEq, Eq, Structural)]
pub enum Cluster {
    /// The cluster that the controller runs in.
    Local,
    /// The upstream cluster.
    Upstream,
}

/// Where the Projects are found.
#[derive(Debug)]
pub struct ProjectsApi {
    /// The cluster to ask.
    pub cluster: Cluster,
    /// The namespace of that cluster that holds the Projects.
    pub namespace: String,
}

/// A [`ProjectsApi`] as a mathematical value.
pub struct ProjectsApiView {
    pub cluster: Cluster,
    pub namespace: Seq<char>,
}

impl View for ProjectsApi {
    type V = ProjectsApiView;

    open spec fn view(&self) -> ProjectsApiView {
        ProjectsApiView { cluster: self.cluster, namespace: self.namespace@ }
    }
}

/// Context for the reconcilers.
#[derive(Debug)]
pub struct Context {
    /// The details of the upstream cluster. There are some only when the
    /// controller runs in a downstream cluster.
    upstream_cluster_ctx: Option<UpstreamClusterContext>,
}

/// A [`Context`] as a mathematical value.
pub enum ContextView {
    /// The controller runs in the cluster that hosts the Projects. There is
    /// no cache.
    SingleCluster,
    /// The controller runs in a downstream cluster, which the upstream
    /// cluster knows by the given identifier. There is a cache.
    DualCluster { cluster_id: Seq<char> },
}

impl View for Context {
    type V = ContextView;

    closed spec fn view(&self) -> ContextView {
        match self.upstream_cluster_ctx {
            Some(upstream) => ContextView::DualCluster { cluster_id: upstream.cluster_id@ },
            None => ContextView::SingleCluster,
        }
    }
}

impl ContextView {
    /// Whether the controller runs in a downstream cluster.
    pub open spec fn is_downstream(self) -> bool {
        self is DualCluster
    }

    /// Where the Projects are found.
    pub open spec fn projects_api(self) -> ProjectsApiView {
        match self {
            ContextView::DualCluster { cluster_id } => ProjectsApiView {
                cluster: Cluster::Upstream,
                namespace: cluster_id,
            },
            ContextView::SingleCluster => ProjectsApiView {
                cluster: Cluster::Local,
                namespace: LOCAL_PROJECTS_NAMESPACE@,
            },
        }
    }

    /// What is asked of the cache, given what a reconciler wants of it:
    /// nothing where there is no cache.
    pub open spec fn cache_request(self, wanted: CacheRequestView) -> Option<CacheRequestView> {
        if self.is_downstream() {
            Some(wanted)
        } else {
            None
        }
    }
}

impl Context {
    /// The context used when the controller runs in the cluster that hosts
    /// the Projects.
    pub fn upstream_cluster() -> (ctx: Context)
        ensures
            ctx@ == ContextView::SingleCluster,
    {
        Context { upstream_cluster_ctx: None }
    }

    /// The context used when the controller runs in a downstream cluster,
    /// which the upstream cluster knows by the given identifier.
    pub fn downstream_cluster(cluster_id: &str) -> (ctx: Context)
        ensures
            ctx@ == (ContextView::DualCluster { cluster_id: cluster_id@ }),
    {
        Context { upstream_cluster_ctx: Some(UpstreamClusterContext::new(cluster_id)) }
    }

    /// Whether the controller has been deployed inside of a downstream
    /// cluster.
    pub fn is_downstream_cluster(&self) -> (downstream: bool)
        ensures
            downstream == self@.is_downstream(),
    {
        self.upstream_cluster_ctx.is_some()
    }

    /// The path to fetch from the upstream cluster to see whether it can be
    /// reached. There is none when the controller runs in the cluster that
    /// hosts the Projects: the question is meaningless there.
    pub fn upstream_probe(&self) -> (path: Option<String>)
        ensures
            path is Some <==> self@.is_downstream(),
            path matches Some(p) ==> p@ == UPSTREAM_PROBE_PATH@,
    {
        match &self.upstream_cluster_ctx {
            Some(_) => Some(UPSTREAM_PROBE_PATH.to_owned()),
            None => None,
        }
    }

    /// Whether the upstream cluster can be reached, given whether the fetch
    /// of [`Context::upstream_probe`] succeeded. Without an upstream cluster
    /// the answer is always no.
    pub fn is_upstream_cluster_reachable(&self, probe_succeeded: bool) -> (reachable: bool)
        ensures
            reachable == (self@.is_downstream() && probe_succeeded),
    {
        match &self.upstream_cluster_ctx {
            None => false,
            Some(_) => probe_succeeded,
        }
    }

    /// Where the Projects are found: in the upstream cluster, in the
    /// namespace named after this cluster's identifier, when the controller
    /// runs in a downstream cluster; in the local cluster otherwise.
    pub fn projects_api(&self) -> (api: ProjectsApi)
        ensures
            api@ == self@.projects_api(),
    {
        match &self.upstream_cluster_ctx {
            Some(upstream_ctx) => ProjectsApi {
                cluster: Cluster::Upstream,
                namespace: upstream_ctx.cluster_id.clone(),
            },
            None => ProjectsApi {
                cluster: Cluster::Local,
                namespace: LOCAL_PROJECTS_NAMESPACE.to_owned(),
            },
        }
    }

    /// Cache: remove all references of a given project. Returns what to ask
    /// of the cache; nothing when there is no cache, which counts as done.
    pub fn cache_delete_project(&self, project_name: &str) -> (request: Option<CacheRequest>)
        ensures
            option_view(request) == self@.cache_request(
                CacheRequestView::Delete { project_name: project_name@ },
            ),
    {
        match &self.upstream_cluster_ctx {
            Some(_) => Some(CacheRequest::Delete { project_name: project_name.to_owned() }),
            None => None,
        }
    }

    /// Cache: update the details of the given project. Returns what to ask
    /// of the cache; nothing when there is no cache, which counts as done.
    ///
    /// `relevant_labels` must hold only the labels that have to be
    /// propagated, their keys stripped of the propagation prefix.
    pub fn cache_update_project(&self, project_name: &str, relevant_labels: &Labels) -> (request:
        Option<CacheRequest>)
        ensures
            option_view(request) == self@.cache_request(
                CacheRequestView::Update {
                    project_name: project_name@,
                    labels: relevant_labels@,
                },
            ),
    {
        match &self.upstream_cluster_ctx {
            Some(_) => Some(
                CacheRequest::Update {
                    project_name: project_name.to_owned(),
                    labels: relevant_labels.clone(),
                },
            ),
            None => None,
        }
    }

    /// Cache: obtain the list of relevant labels of the given project.
    /// Returns what to ask of the cache; nothing when there is no cache, in
    /// which case no labels are known.
    pub fn cache_labels_to_propagate(&self, project_name: &str) -> (request: Option<CacheRequest>)
        ensures
            option_view(request) == self@.cache_request(
                CacheRequestView::Lookup { project_name: project_name@ },
            ),
    {
        match &self.upstream_cluster_ctx {
            Some(_) => Some(CacheRequest::Lookup { project_name: project_name.to_owned() }),
            None => None,
        }
    }
}

} // verus!
