//! Verified core of a local development proxy: configuration, proxy rules,
//! request rewriting, CORS decisions, the bounded request log and the
//! command-line dispatch.

pub mod text;
pub mod config;
pub mod logger;
pub mod proxy;
pub mod cors;
pub mod cli;
