//! The verified core of `vouch`: a runtime that executes contract-checked functions and
//! reconciles prose against what they returned.

pub mod attest;
pub mod cases;
pub mod commands;
pub mod contracts;
pub mod decimal;
pub mod error;
pub mod eval;
pub mod exec;
pub mod json;
pub mod ledger;
pub mod manifest;
pub mod markdown;
pub mod registry;
pub mod scalar_map;
pub mod schema;
pub mod text;
pub mod verify;
