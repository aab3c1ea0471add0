//! Process configuration, read from the environment once at startup by the
//! surrounding program and shared read-only across request handlers.

use vstd::prelude::*;

verus! {

/// The listening port and the document-store project identifier.
#[derive(Debug, Clone)]
pub struct Config {
    pub port: u16,
    pub firestore_project: String,
}

} // verus!
