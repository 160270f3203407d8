//! Core of an incremental bundler: classifying source assets into typed
//! modules through pattern-matched rules, deriving resolution contexts
//! across environment boundaries, and organizing the (possibly cyclic)
//! asset reference graph into an aggregated hierarchy for back-reference
//! analysis and directory-scoped emission.

pub mod util;
pub mod paths;
pub mod environment;
pub mod module_options;
pub mod factory;
pub mod context;
pub mod graph;
pub mod references;
pub mod emit;
