//! Loopback capture of an OAuth authorization-code redirect, plus the small
//! pure decision procedures around it: query-string code extraction, the
//! single-pending-listener registry, HTTP status classification, GTK theme
//! file parsing, and keyboard-shortcut dispatch.

use vstd::prelude::*;

pub mod errors;
pub mod fetch;
pub mod listener;
pub mod shortcut;
pub mod theme;
pub mod query;
pub mod query_laws;
pub mod scan;

verus! {

} // verus!
