//! Reconciliation of locally recorded sales deals against a CRM pipeline
//! and an inventory service.
pub mod text;
pub mod error;
pub mod object_type;
pub mod profit;
pub mod find;
pub mod amo;
pub mod store;
pub mod engine;
pub mod laws;
pub mod notify;
pub mod pipeline;
pub mod lookup;
