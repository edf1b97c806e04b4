//! Audit of local browser profiles: which sites hold session cookies or saved
//! logins, how large each cache is, and the rules that govern cleaning them up.

pub mod text;
pub mod heuristics;
pub mod model;
pub mod cookies;
pub mod logins;
pub mod sqlite;
pub mod stores;
pub mod cleanup;
pub mod report;
pub mod browser;
pub mod profiles;
pub mod laws;
