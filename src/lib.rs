//! A budget-bounded escrow of payments: agreements between a payer and its
//! payees, released in part up to a fixed budget before a deadline.
pub mod types;
pub mod split;
pub mod agreement;
pub mod registry;
pub mod laws;
