//! Order lifecycle engine for a vehicle service station.
//!
//! The crate models repair orders, their line items and the status state
//! machine that governs them, together with the catalog resolution and the
//! confirmation and assignment rules around it.

pub mod text;
pub mod error;
pub mod status;
pub mod decimal;
pub mod records;
pub mod lookup;
pub mod catalog;
pub mod actor;
pub mod audit;
pub mod state;
pub mod invariants;
pub mod visibility;
pub mod queries;
pub mod workshop;
pub mod laws;
pub mod users;
pub mod auth;
pub mod session;
pub mod filters;
