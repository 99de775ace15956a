//! Synchronisation core of a one-way directory replicator: it turns a stream
//! of local filesystem notifications into a short, causally equivalent list of
//! remote operations, gates uploads on size and modification time, and
//! decides how a failing batch is retried.

pub mod event;
pub mod lineage;
pub mod paths;
pub mod size;
pub mod config;
pub mod filter;
pub mod remote;
pub mod gate;
pub mod task;
pub mod manager;
pub mod endpoint;
pub mod walk;
