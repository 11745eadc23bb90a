//! The node agent: protocol handling, MOTD presentation, configuration and
//! firewall planning.

pub mod address;
pub mod config;
pub mod firewall;
pub mod model;
pub mod presentation;
pub mod protocol;
pub mod session;
