//! A minimal multi-tenant record store with role-based access control.
//!
//! Principals register as patient and/or doctor, switch between an active
//! role, and doctors attach medical-record entries to a patient's history.
//! The state is a pair of in-memory tables: a user registry and a record
//! ledger, both keyed by an opaque caller identity. Every operation is
//! specified against a mathematical view of that state ([`state::StateView`])
//! and verified against it.

pub mod assoc;
pub mod laws;
pub mod service;
pub mod state;
pub mod types;
