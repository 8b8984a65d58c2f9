//! Assembly of book archives: request fingerprinting, the task registry's
//! decisions, catalog pagination, archive planning, archive naming, the build
//! state machine and the storage retention sweep.

pub mod structures;
pub mod fingerprint;
pub mod registry;
pub mod collector;
pub mod archive;
pub mod orchestrator;
pub mod naming;
pub mod cleaner;
pub mod download;
pub mod config;
pub mod access;
