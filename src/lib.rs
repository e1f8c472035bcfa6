//! The telemetry core of a firewall management console: a PIN cache with
//! lockout, bounded caches of firewall logs and interface traffic, and the
//! decisions of the pollers that fill them. Running the pollers (threads,
//! clocks, network) is left to the caller.

pub mod config;
pub mod logs;
pub mod models;
pub mod poller;
pub mod secret;
pub mod text;
pub mod traffic;
