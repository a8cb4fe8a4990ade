//! The consistency engine of a terminal mail client: a local mirror of a
//! remote mailbox, the guard that shields fresh local changes from the
//! background synchronisation, and the ledger of reversible actions.

pub mod body;
pub mod clock;
pub mod config;
pub mod keyed;
pub mod labels;
pub mod laws;
pub mod mail;
pub mod models;
pub mod mutation;
pub mod priority;
pub mod ranking;
pub mod reconcile;
pub mod store;
pub mod sync;
pub mod texts;
pub mod ui;
pub mod undo;
