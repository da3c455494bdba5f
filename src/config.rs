use vstd::prelude::*;

verus! {

/// Subcommands of the device-management command line.
#[derive(Debug, Clone, PartialEq, Eq)]
pub enum DeviceAction {
    /// List paired devices.
    List,
    /// Revoke a paired device.
    Revoke { id: String },
}

/// Limits on connections and failed auths per source address.
#[derive(Debug, Clone, Copy, PartialEq, Eq, Structural)]
pub struct RateLimitConfig {
    /// Connections allowed per source within the connection window.
    pub connection_limit: usize,
    pub connection_window_secs: u64,
    /// Failed auths allowed per source within the failure window.
    pub auth_failure_limit: usize,
    pub auth_failure_window_secs: u64,
}

impl Default for RateLimitConfig {
    fn default() -> (r: RateLimitConfig)
        ensures
            r.connection_limit == 5,
            r.connection_window_secs == 60,
            r.auth_failure_limit == 3,
            r.auth_failure_window_secs == 300,
    {
        RateLimitConfig {
            connection_limit: 5,
            connection_window_secs: 60,
            auth_failure_limit: 3,
            auth_failure_window_secs: 300,
        }
    }
}

/// Session settings.
#[derive(Debug, Clone, Copy, PartialEq, Eq, Structural)]
pub struct SessionConfig {
    /// Scrollback capacity in bytes.
    pub scrollback_bytes: usize,
    /// Seconds between reaper sweeps.
    pub reaper_interval_secs: u64,
}

impl Default for SessionConfig {
    fn default() -> (r: SessionConfig)
        ensures
            r.scrollback_bytes == 65536,
            r.reaper_interval_secs == 5,
    {
        SessionConfig { scrollback_bytes: 65536, reaper_interval_secs: 5 }
    }
}

/// Daemon settings, as read from the configuration file.
#[derive(Debug, Clone)]
pub struct DaemonConfig {
    pub bind: Option<String>,
    pub rate_limit: RateLimitConfig,
    pub session: SessionConfig,
}

impl Default for DaemonConfig {
    fn default() -> (r: DaemonConfig)
        ensures
            r.bind is None,
            r.rate_limit.connection_limit == 5,
            r.rate_limit.connection_window_secs == 60,
            r.rate_limit.auth_failure_limit == 3,
            r.rate_limit.auth_failure_window_secs == 300,
            r.session.scrollback_bytes == 65536,
            r.session.reaper_interval_secs == 5,
    {
        DaemonConfig {
            bind: None,
            rate_limit: RateLimitConfig::default(),
            session: SessionConfig::default(),
        }
    }
}

/// What a pairing QR code or manual entry carries.
#[derive(Debug, Clone)]
pub struct PairingData {
    pub qr_payload_json: String,
    pub token: String,
    pub host: String,
    pub port: u16,
    pub fingerprint: String,
    pub expires_in_secs: u64,
}

/// Nothing to hold off on platforms without a sleep-prevention primitive.
pub fn prevent_sleep() {
}

/// Nothing to release on platforms without a sleep-prevention primitive.
pub fn allow_sleep() {
}

} // verus!
