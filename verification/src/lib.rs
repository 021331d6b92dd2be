//! A lightweight HTTP router: route declarations, longest-prefix matching
//! and the per-request dispatch decisions, with machine-checked contracts.

pub mod dispatch;
pub mod listeners;
pub mod location;
pub mod matcher;
pub mod media;
pub mod outcome;
pub mod path;
pub mod routes;
pub mod scan;
pub mod text;
