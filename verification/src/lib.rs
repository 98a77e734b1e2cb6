//! Servant: the verified core of a per-user static file server.

pub mod behaviour;
pub mod cli;
pub mod client;
pub mod config;
pub mod control;
pub mod daemon;
pub mod db;
pub mod guards;
pub mod host;
pub mod install;
pub mod laws;
pub mod lifecycle;
pub mod listing;
pub mod output;
pub mod paths;
pub mod promises;
pub mod readings;
pub mod serve;
pub mod text;
pub mod ttl;
pub mod url_alloc;
