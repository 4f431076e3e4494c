//! Coordination engine for machine-learning workloads spread across ground
//! stations and orbital compute nodes: mesh routing over inter-satellite
//! links, lossy gradient compression with error feedback, server-side
//! aggregation, model partitioning between ground and orbit, and a priority
//! scheduler for pending transfers.
use vstd::prelude::*;

pub mod auth;
pub mod errors;
pub mod federated;
pub mod intel;
pub mod intmath;
pub mod mesh;
pub mod partitioning;
pub mod sync;
pub mod text;
pub mod topology;
pub mod types;

verus! {

/// Current version of the library.
pub const VERSION: &'static str = "0.1.0";

} // verus!
