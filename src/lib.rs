//! Request-routing and resilience primitives of an HTTP edge server:
//! virtual-host resolution, URL rewriting, admission checks, a circuit
//! breaker, FastCGI framing, proxy headers and PROXY-protocol parsing,
//! sessions, metrics, and process supervision rules.
//!
//! Every function here works on plain values; the network, the file system
//! and the clock are reached by the caller, or by the few functions that say
//! which outside library they rely on.
pub mod breaker_lemmas;
pub mod cache;
pub mod circuit_breaker;
pub mod config;
pub mod connection_pool;
pub mod dispatcher;
pub mod error;
pub mod fastcgi;
pub mod metrics;
pub mod pattern;
pub mod process;
pub mod process_manager;
pub mod proxy;
pub mod rewrite;
pub mod rewrite_engine;
pub mod security;
pub mod session;
pub mod text;
pub mod vhost;
