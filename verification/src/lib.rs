//! Static panic-reachability analysis for a compiled module.
//!
//! The library classifies every function of a module as able or unable to
//! reach a designated panic entry point through the call graph, projects the
//! classification of each call site back onto source lines, and aggregates
//! per-file line statistics for reporting. The walk over the module itself
//! (an IR access layer) is a collaborator outside this crate; the analysis
//! here works on a plain-data picture of the module.

pub mod analysis;
pub mod driver;
pub mod ir;
pub mod laws;
pub mod model;
pub mod report;
