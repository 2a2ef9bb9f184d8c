//! Core of an auditable personal ledger: accounts, monetary operations and
//! balance snapshots, each mutation recorded in a signed audit trail.

pub mod api;
pub mod crypto;
pub mod db;
pub mod sorting;
pub mod text;
