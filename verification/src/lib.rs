//! Core logic of the GrimmNetz game-server manager.

pub mod bootstrap;
pub mod config;
pub mod countdown;
pub mod discovery;
pub mod files;
pub mod games;
pub mod ids;
pub mod install;
pub mod instances;
pub mod json;
pub mod passwords;
pub mod paths;
pub mod provisioning;
pub mod readback;
pub mod readback_ini;
pub mod records;
pub mod restarts;
pub mod servers;
pub mod session;
pub mod ssh_keys;
pub mod text;
pub mod versions;
