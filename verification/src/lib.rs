//! The decision logic of an SMB2 client: credit accounting, read-cache leases
//! and paged directory enumeration.

pub mod create_context;
pub mod credit_budget;
pub mod credit_laws;
pub mod credit_model;
pub mod credit_order_laws;
pub mod credit_spending_laws;
pub mod credits;
pub mod cursor_laws;
pub mod directory_cursor;
pub mod error;
pub mod format_laws;
pub mod lease_grant_laws;
pub mod lease_laws;
pub mod lease_model;
pub mod lease_reach_laws;
pub mod read_lease;
pub mod types;
pub mod wakeup;
pub mod wire;
