//! Persistent terminal sessions for paired devices: the frame codec shared with
//! clients, the scrollback ring, the auth and rate-limit rules, pairing tokens,
//! the device and connection registries, and the decisions of the stream bridge.

pub mod auth;
pub mod bridge;
pub mod config;
pub mod devices;
pub mod frame;
pub mod ids;
pub mod ipc;
pub mod ratelimit;
pub mod scrollback;
pub mod session;
pub mod table;
pub mod tokens;
