//! Core logic of a programmable reverse HTTP proxy: the cache object codec and
//! hit handling, the two-tier cache store, backend discovery, location
//! matching, the request plugins and the per-request state machine.

pub mod bytes_util;
pub mod cache;
pub mod config;
pub mod filters;
pub mod discovery;
pub mod limit;
pub mod location;
pub mod parse;
pub mod plugin;
pub mod request;
pub mod server;
pub mod settings;
pub mod state;
pub mod store;
pub mod text;
pub mod validity;
pub mod webhook;
