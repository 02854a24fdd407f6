//! Verified core of an NGINX module that starts an application on demand
//! and forwards HTTP requests to it.

pub mod prop;
pub mod summon;
pub mod timer;
pub mod types;
pub mod utils;
