//! Verified core of a per-process network sandbox: domain and IP policies,
//! proxy request handling decisions, profile and daemon state logic.
pub mod config;
pub mod ip;
pub mod profile;
pub mod proxy;
pub mod sandbox;
pub mod state;
pub mod sets;
pub mod text;
pub mod upstream;
