//! Extracts structured package metadata from a version-controlled tree of
//! build recipes: a walker that discovers package units, a two-tier recipe
//! parser (a strict assignment grammar with a degraded line-prefix
//! fallback), per-field normalization into typed records, and the
//! incremental-update decision that skips a walk when nothing changed.

pub mod context;
pub mod coordinator;
pub mod fields;
pub mod recipe;
pub mod stmt;
pub mod text;
pub mod walker;
