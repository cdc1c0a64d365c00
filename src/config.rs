//! Application settings, their defaults, and the rules they must meet.
use vstd::prelude::*;
use crate::util::{owned, same_text};

verus! {

#[derive(Debug)]
pub struct ServerConfig {
    pub port: u16,
    pub max_connections: usize,
    pub enable_discovery: bool,
    pub discovery_port: u16,
}

#[derive(Debug)]
pub struct ClientConfig {
    pub auto_connect: bool,
    pub preferred_quality: String,
    pub fullscreen_on_connect: bool,
    pub show_connection_info: bool,
}

#[derive(Debug)]
pub struct SecurityConfig {
    pub enable_encryption: bool,
    pub require_authentication: bool,
    pub session_timeout_minutes: u32,
    pub max_failed_attempts: u32,
}

#[derive(Debug)]
pub struct CaptureConfig {
    pub fps: u32,
    pub quality: u8,
    pub capture_cursor: bool,
    pub monitor_index: usize,
}

#[derive(Debug)]
pub struct CodecConfig {
    pub format: String,
    pub quality: u8,
    pub enable_hardware_acceleration: bool,
}

#[derive(Debug)]
pub struct NetworkConfig {
    pub buffer_size: usize,
    pub connection_timeout_seconds: u32,
    pub heartbeat_interval_seconds: u32,
}

#[derive(Debug)]
pub struct UiConfig {
    pub theme: String,
    pub window_width: u32,
    pub window_height: u32,
    pub minimize_to_tray: bool,
    pub start_minimized: bool,
}

#[derive(Debug)]
pub struct AppConfig {
    pub server: ServerConfig,
    pub client: ClientConfig,
    pub security: SecurityConfig,
    pub capture: CaptureConfig,
    pub codec: CodecConfig,
    pub network: NetworkConfig,
    pub ui: UiConfig,
}

/// The first rule, in the order checked, that a configuration breaks.
#[derive(Debug, Clone, Copy, PartialEq, Eq, Structural)]
pub enum ConfigError {
    ServerPortZero,
    MaxConnectionsZero,
    PortsCollide,
    FpsOutOfRange,
    CaptureQualityOutOfRange,
    CodecQualityOutOfRange,
    UnknownCodecFormat,
    SessionTimeoutZero,
    ConnectionTimeoutZero,
    HeartbeatIntervalZero,
    WindowTooSmall,
    UnknownTheme,
}

pub open spec fn known_format(f: Seq<char>) -> bool {
    f == "jpeg"@ || f == "png"@ || f == "webp"@
}

pub open spec fn known_theme(t: Seq<char>) -> bool {
    t == "light"@ || t == "dark"@ || t == "system"@
}

/// The first rule that `c` breaks, if any: ports non-zero and distinct, at
/// least one connection, 1 to 120 fps, qualities 1 to 100, a known codec
/// format, non-zero timeouts and heartbeat, a window of at least 400 × 300,
/// and a known theme.
pub open spec fn config_problem(c: &AppConfig) -> Option<ConfigError> {
    if c.server.port == 0 {
        Some(ConfigError::ServerPortZero)
    } else if c.server.max_connections == 0 {
        Some(ConfigError::MaxConnectionsZero)
    } else if c.server.port == c.server.discovery_port {
        Some(ConfigError::PortsCollide)
    } else if c.capture.fps == 0 || c.capture.fps > 120 {
        Some(ConfigError::FpsOutOfRange)
    } else if c.capture.quality == 0 || c.capture.quality > 100 {
        Some(ConfigError::CaptureQualityOutOfRange)
    } else if c.codec.quality == 0 || c.codec.quality > 100 {
        Some(ConfigError::CodecQualityOutOfRange)
    } else if !known_format(c.codec.format@) {
        Some(ConfigError::UnknownCodecFormat)
    } else if c.security.session_timeout_minutes == 0 {
        Some(ConfigError::SessionTimeoutZero)
    } else if c.network.connection_timeout_seconds == 0 {
        Some(ConfigError::ConnectionTimeoutZero)
    } else if c.network.heartbeat_interval_seconds == 0 {
        Some(ConfigError::HeartbeatIntervalZero)
    } else if c.ui.window_width < 400 || c.ui.window_height < 300 {
        Some(ConfigError::WindowTooSmall)
    } else if !known_theme(c.ui.theme@) {
        Some(ConfigError::UnknownTheme)
    } else {
        None
    }
}

/// The settings used when none are stored.
pub open spec fn is_default(c: &AppConfig) -> bool {
    &&& c.server.port == 7878 && c.server.max_connections == 10 && c.server.enable_discovery
    &&& c.server.discovery_port == 7879
    &&& !c.client.auto_connect && c.client.preferred_quality@ == "high"@ && !c.client.fullscreen_on_connect
    &&& c.client.show_connection_info
    &&& c.security.enable_encryption && c.security.require_authentication
    &&& c.security.session_timeout_minutes == 60 && c.security.max_failed_attempts == 5
    &&& c.capture.fps == 30 && c.capture.quality == 80 && c.capture.capture_cursor && c.capture.monitor_index == 0
    &&& c.codec.format@ == "jpeg"@ && c.codec.quality == 80 && c.codec.enable_hardware_acceleration
    &&& c.network.buffer_size == 65536 && c.network.connection_timeout_seconds == 30
    &&& c.network.heartbeat_interval_seconds == 30
    &&& c.ui.theme@ == "system"@ && c.ui.window_width == 1200 && c.ui.window_height == 800
    &&& c.ui.minimize_to_tray && !c.ui.start_minimized
}

impl AppConfig {
    pub fn default_config() -> (r: Self)
        ensures
            is_default(&r),
    {
        AppConfig {
            server: ServerConfig { port: 7878, max_connections: 10, enable_discovery: true, discovery_port: 7879 },
            client: ClientConfig {
                auto_connect: false,
                preferred_quality: owned("high"),
                fullscreen_on_connect: false,
                show_connection_info: true,
            },
            security: SecurityConfig {
                enable_encryption: true,
                require_authentication: true,
                session_timeout_minutes: 60,
                max_failed_attempts: 5,
            },
            capture: CaptureConfig { fps: 30, quality: 80, capture_cursor: true, monitor_index: 0 },
            codec: CodecConfig { format: owned("jpeg"), quality: 80, enable_hardware_acceleration: true },
            network: NetworkConfig { buffer_size: 65536, connection_timeout_seconds: 30, heartbeat_interval_seconds: 30 },
            ui: UiConfig {
                theme: owned("system"),
                window_width: 1200,
                window_height: 800,
                minimize_to_tray: true,
                start_minimized: false,
            },
        }
    }

    /// Checks the rules in order and reports the first one broken.
    pub fn validate(&self) -> (r: Result<(), ConfigError>)
        ensures
            match config_problem(self) {
                None => r is Ok,
                Some(e) => r == Err::<(), ConfigError>(e),
            },
    {
        if self.server.port == 0 {
            return Err(ConfigError::ServerPortZero);
        }
        if self.server.max_connections == 0 {
            return Err(ConfigError::MaxConnectionsZero);
        }
        if self.server.port == self.server.discovery_port {
            return Err(ConfigError::PortsCollide);
        }
        if self.capture.fps == 0 || self.capture.fps > 120 {
            return Err(ConfigError::FpsOutOfRange);
        }
        if self.capture.quality == 0 || self.capture.quality > 100 {
            return Err(ConfigError::CaptureQualityOutOfRange);
        }
        if self.codec.quality == 0 || self.codec.quality > 100 {
            return Err(ConfigError::CodecQualityOutOfRange);
        }
        let f = self.codec.format.as_str();
        if !(same_text(f, "jpeg") || same_text(f, "png") || same_text(f, "webp")) {
            return Err(ConfigError::UnknownCodecFormat);
        }
        if self.security.session_timeout_minutes == 0 {
            return Err(ConfigError::SessionTimeoutZero);
        }
        if self.network.connection_timeout_seconds == 0 {
            return Err(ConfigError::ConnectionTimeoutZero);
        }
        if self.network.heartbeat_interval_seconds == 0 {
            return Err(ConfigError::HeartbeatIntervalZero);
        }
        if self.ui.window_width < 400 || self.ui.window_height < 300 {
            return Err(ConfigError::WindowTooSmall);
        }
        let t = self.ui.theme.as_str();
        if !(same_text(t, "light") || same_text(t, "dark") || same_text(t, "system")) {
            return Err(ConfigError::UnknownTheme);
        }
        Ok(())
    }

    /// Puts every setting back to its default; storing them is the caller's.
    pub fn reset_to_defaults(&mut self)
        ensures
            is_default(final(self)),
    {
        *self = Self::default_config();
    }
}

/// The defaults pass every rule.
pub proof fn lemma_default_is_valid(c: &AppConfig)
    requires
        is_default(c),
    ensures
        config_problem(c) is None,
{
    assert(c.codec.format@ == "jpeg"@);
    assert(c.ui.theme@ == "system"@);
}

} // verus!
