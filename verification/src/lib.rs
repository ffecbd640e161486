use vstd::prelude::*;

pub mod text;
pub mod datetime;
pub mod week;
pub mod export;
pub mod json;
pub mod migration;
pub mod schema;
pub mod load;
pub mod models;
pub mod store;
pub mod store_ops;
pub mod patch;
pub mod scheduler;
pub mod kb;
pub mod runtime;
pub mod telemetry;
pub mod embedding;
pub mod ai;
pub mod legacy;
pub mod validation;
pub mod service;
pub mod tasks;
pub mod reminders;
pub mod settings;

verus! {
} // verus!
