//! Credential discovery for SSH hosts: enumerate candidate key/port/user
//! combinations in a fixed order, classify each connection attempt, and
//! decide when the search stops.

pub mod attempt;
pub mod combos;
pub mod config;
pub mod driver;
pub mod outcome;

pub use config::{Config, ConnectionInfo, SshConfig};
