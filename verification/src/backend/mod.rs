//! The panel extension: state resolution, agent authentication, settings
//! and the decisions behind its HTTP routes.

pub mod auth;
pub mod routes;
pub mod settings;
pub mod state;
