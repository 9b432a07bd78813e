//! Core of a chunk-parallel video re-encoding driver.
//!
//! The crate holds the decision logic of the driver: how a scene list becomes
//! a queue of independent encode jobs, how a quantizer is searched for each
//! job, how attempts are retried and accounted for, and how a finished run is
//! recognised and resumed. Every function states its behaviour in a contract
//! that is checked by Verus. Process spawning, file access and rendering are
//! left to the caller, which feeds plain values in and acts on plain values
//! that come back.

pub mod broker;
pub mod chunk;
pub mod context;
pub mod ledger;
pub mod params;
pub mod pipes;
pub mod planner;
pub mod progress_bar;
pub mod scenes;
pub mod settings;
pub mod target_quality;
pub mod text;
pub mod util;
