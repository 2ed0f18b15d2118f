//! SARIF reports.

pub mod advisory;
pub mod collector;
pub mod finding_laws;
pub mod fingerprints;
pub mod graphs;
pub mod laws;
pub mod listing_laws;
pub mod locator;
pub mod log;
pub mod log_laws;
pub mod message_laws;
pub mod model;
pub mod place_laws;
pub mod print_laws;
pub mod processors;
