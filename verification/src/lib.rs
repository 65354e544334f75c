//! Bailey: a layered, deny-by-default sandbox for running untrusted programs
//! on Linux.
//!
//! The library holds the parts of bailey that decide: the policy model, the
//! cascading configuration resolver, trust records, reconciliation of a
//! recorded trace against a policy, and the pure parts of the backends. The
//! parts that act on the host live in the program around it.

pub mod audit;
pub mod cgroup;
pub mod config;
pub mod enforce;
pub mod discover;
pub mod event;
pub mod hook;
pub mod hooks;
pub mod isolation;
pub mod lines;
pub mod merge;
pub mod network;
pub mod path;
pub mod policy;
pub mod probe;
pub mod profile;
pub mod profiles;
pub mod reconcile;
pub mod record;
pub mod resolve;
pub mod pathmap;
pub mod review;
pub mod schema;
pub mod seccomp;
pub mod session;
pub mod show;
pub mod size;
pub mod strmap;
pub mod text;
pub mod tomldoc;
pub mod trust;
pub mod world;
