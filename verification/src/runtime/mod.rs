//! Talking to the container engine: requests, responses and decisions.

pub mod containers;
pub mod create;
pub mod demux;
pub mod docker;
pub mod firewall;
pub mod http;
pub mod image;
pub mod pull;
pub mod stats;
