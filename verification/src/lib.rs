//! Analysis of Sieve mail-filter scripts for an editor: an editable text
//! buffer per open document, and a rule-based pass that turns the current
//! text into diagnostics.

pub mod analysis;
pub mod datastructures;
pub mod diagnostic;
pub mod documentation;
pub mod require;
pub mod rope;
pub mod rules;
pub mod server;
pub mod sieve;
pub mod store;
pub mod text;
pub mod word;
