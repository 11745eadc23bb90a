//! Verified core of a Minecraft Java Edition MOTD service: the node agent's
//! wire protocol, presentation and firewall planning, and the panel
//! extension's state resolution, authentication and settings validation.

pub mod agent;
pub mod backend;
pub mod text;
