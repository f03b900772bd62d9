//! Result demultiplexing and flag aggregation for a host-monitoring pipeline.
//!
//! Remote hosts emit measurement observations into a result store. This
//! library routes each observation to the analyzers registered for its
//! measurement name, bounds every poll to results not yet seen through a
//! per-host cursor, and funnels the alerts ("flags") the analyzers raise
//! through a single consumer. Store access itself (queries, authentication,
//! persistence) is left to collaborators; the library consumes records in a
//! decoded, plain-valued form.

pub mod analyzer;
pub mod demultiplexor;
pub mod document;
pub mod error;
pub mod fetch;
pub mod flag_manager;
pub mod loader;

pub use error::TipupError;
