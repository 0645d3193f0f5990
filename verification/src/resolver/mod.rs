//! Working out which releases must be downloaded to install a mod.
//!
//! The walk through the dependency graph is depth first and puts every
//! release behind the releases that it requires. It never waits for the
//! catalog itself: whenever it needs the details of a mod it stops and
//! says which, and goes on once it is given them.

pub mod error;
pub mod laws;
pub mod machine;
pub mod model;
pub mod provenance;
pub mod run;

pub use crate::resolver::error::ResolveError;
pub use crate::resolver::machine::{start, PendingFetch, Progress, ResolveResult};
pub use crate::resolver::run::{resolve, resolve_with, ModSource};
