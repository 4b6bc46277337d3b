//! A schema-migration runner's core: migration-file discovery, the up/down
//! splitter, and the reconciliation of on-disk migrations against the ledger
//! of applied ones.

pub mod error;
pub mod text;
pub mod splitter;
pub mod scanner;
pub mod ledger;
pub mod reconcile;
pub mod up_run;
pub mod down_run;
pub mod up_laws;
pub mod down_laws;
