//! GitHub: the requests of its API and what their responses mean.

pub mod api;
pub mod read;
pub mod snapshot;
pub mod write;
