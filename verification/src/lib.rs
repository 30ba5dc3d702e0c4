//! Verified core of a controller that keeps a set of labels on Kubernetes
//! Namespaces in step with the labels declared on the Project that owns them.
//!
//! The crate holds the decisions only: which labels are propagated, how they
//! are merged into a Namespace, how the fallback cache is brought up to date,
//! and what each reconciler asks of the cluster next. Talking to the cluster
//! and to the database is left to the caller.

pub mod labels;
pub mod errors;
pub mod namespace;
pub mod project;
pub mod text;
pub mod views;
pub mod cache_relations;
pub mod cache_rows;
pub mod projects_cache;
pub mod sequences;
pub mod context;
pub mod controller;
pub mod projects_controller;
pub mod namespaces_controller;
