//! Patstrap: the verified core of the head-pat haptics server.
//!
//! The library holds the wire protocol spoken with the strap, the
//! connection state of each device, the per-device haptic configuration
//! and the decisions of the discovery and OSC services.
pub mod config;
pub mod device;
pub mod discovery;
pub mod protocol;
pub mod service;
mod text;
