//! Deadlock avoidance by the Banker's algorithm: need derivation, the safety
//! check with its lowest-id-first completion order, request evaluation with
//! commit-or-discard, and the text format of snapshots and reports.
pub mod error;
pub mod model;
pub mod need;
pub mod lemmas;
pub mod safety;
pub mod laws;
pub mod request;
pub mod state;
pub mod text;
pub mod input;
pub mod report;
