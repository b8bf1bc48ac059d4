//! Server configuration: a file's settings, environment and command-line
//! overrides, and how they resolve into the settings the server runs with.

use vstd::prelude::*;
use crate::error::concat_str;
use crate::text::{decimal, parse_u16, parse_u16_spec, push_decimal, IntErrorKind};

verus! {

/// The address listened on when nothing else is set.
pub const DEFAULT_HOST: &'static str = "127.0.0.1";

/// The port listened on when nothing else is set.
pub const DEFAULT_PORT: u16 = 4002;

/// The baud rate of new connections when the file sets none.
pub const DEFAULT_SERIAL_BAUD_RATE: u32 = 115_200;

/// The line delimiter of new connections when the file sets none.
pub const DEFAULT_SERIAL_DELIMITER: &'static str = "\r\n";

/// The configuration file looked for in the working directory.
pub const LOCAL_CONFIG_FILE_NAME: &'static str = "serialport-api.toml";

/// The `[storage]` section of a configuration file. Paths are kept as text.
#[derive(Debug, Default, PartialEq, Eq)]
pub struct StorageConfig {
    pub preset_db: Option<String>,
}

/// The `[server]` section of a configuration file.
#[derive(Debug, Default, PartialEq, Eq)]
pub struct ServerConfig {
    pub host: Option<String>,
    pub port: Option<u16>,
}

/// The `[serial]` section of a configuration file.
#[derive(Debug, Default, PartialEq, Eq)]
pub struct SerialConfig {
    pub default_port: Option<String>,
    pub default_baud_rate: Option<u32>,
    pub default_delimiter: Option<String>,
    pub real_serial: Option<bool>,
    pub mock_device: Option<bool>,
    pub mock_script: Option<String>,
}

/// A configuration file; a missing section has no settings.
#[derive(Debug, Default, PartialEq, Eq)]
pub struct FileConfig {
    pub server: ServerConfig,
    pub serial: SerialConfig,
    pub storage: StorageConfig,
}

/// Why a configuration could not be read or used.
#[derive(Debug, PartialEq, Eq)]
pub enum ConfigError {
    /// The file at `path` could not be read; `message` says why.
    Read { path: String, message: String },
    /// The file at `path` is not valid configuration; `message` says why.
    ParseFile { path: String, message: String },
    /// Configuration text is not valid; the message says why.
    Parse(String),
    /// `SERIALPORT_API_PORT` is not a port number.
    InvalidEnvPort { value: String, source: IntErrorKind },
    /// Real serial mode together with a mock device or a mock script.
    IncompatibleModes,
}

/// What the command line sets for `serve`.
#[derive(Debug, Default, PartialEq, Eq)]
pub struct CliServeOverrides {
    pub host: Option<String>,
    pub port: Option<u16>,
    pub mock_device: bool,
    pub mock_script: Option<String>,
    pub real_serial: bool,
    pub preset_db: Option<String>,
}

/// What the environment sets for `serve`.
#[derive(Debug, Default, PartialEq, Eq)]
pub struct EnvServeConfig {
    pub host: Option<String>,
    pub port: Option<u16>,
}

/// Defaults for new serial connections.
#[derive(Debug, PartialEq, Eq)]
pub struct SerialDefaults {
    pub default_port: Option<String>,
    pub default_baud_rate: u32,
    pub default_delimiter: String,
}

/// The settings the server runs with.
#[derive(Debug, PartialEq, Eq)]
pub struct ResolvedServeConfig {
    pub host: String,
    pub port: u16,
    pub mock_device: bool,
    pub mock_script: Option<String>,
    pub real_serial: bool,
    pub serial_defaults: SerialDefaults,
    pub preset_db: Option<String>,
}

impl Default for SerialDefaults {
    /// No default port, 115200 baud, `\r\n` as delimiter.
    fn default() -> (r: SerialDefaults)
        ensures
            r.default_port is None,
            r.default_baud_rate == DEFAULT_SERIAL_BAUD_RATE,
            r.default_delimiter@ == DEFAULT_SERIAL_DELIMITER@,
    {
        SerialDefaults {
            default_port: None,
            default_baud_rate: DEFAULT_SERIAL_BAUD_RATE,
            default_delimiter: String::from_str(DEFAULT_SERIAL_DELIMITER),
        }
    }
}

impl ResolvedServeConfig {
    /// The address to listen on, `host:port` (what `Display` shows).
    pub fn address(&self) -> (r: String)
        ensures
            r@ == self.host@ + ":"@ + decimal(self.port as nat),
    {
        let mut s = concat_str(self.host.as_str(), ":");
        push_decimal(&mut s, self.port as u64);
        s
    }
}

impl EnvServeConfig {
    /// The environment's settings from the values of `SERIALPORT_API_HOST`
    /// and `SERIALPORT_API_PORT`; a port that is not a `u16` in decimal is
    /// an error.
    pub fn from_vars(host: Option<String>, port: Option<String>) -> (r: Result<EnvServeConfig, ConfigError>)
        ensures
            match port {
                None => r == Ok::<EnvServeConfig, ConfigError>(EnvServeConfig { host, port: None }),
                Some(value) => match parse_u16_spec(value@) {
                    Ok(p) => r == Ok::<EnvServeConfig, ConfigError>(EnvServeConfig { host, port: Some(p) }),
                    Err(kind) => r matches Err(ConfigError::InvalidEnvPort { value: v, source }) && v == value && source == kind,
                },
            },
    {
        let port = match port {
            Some(value) => match parse_u16(value.as_str()) {
                Ok(p) => Some(p),
                Err(kind) => return Err(ConfigError::InvalidEnvPort { value, source: kind }),
            },
            None => None,
        };
        Ok(EnvServeConfig { host, port })
    }
}

/// The first of three optional values that is set.
pub open spec fn first_set<T>(a: Option<T>, b: Option<T>, c: Option<T>) -> Option<T> {
    if a is Some {
        a
    } else if b is Some {
        b
    } else {
        c
    }
}

/// What the settings resolve to before they are checked: the command line
/// wins over the environment, which wins over the file, which wins over the
/// built-in defaults; a mock script (from the command line, else the file)
/// implies a mock device; real serial mode is on if the command line or the
/// file turns it on.
pub open spec fn resolved_fields(cli: CliServeOverrides, env: EnvServeConfig, file: FileConfig, r: ResolvedServeConfig) -> bool {
    let mock_script = if cli.mock_script is Some { cli.mock_script } else { file.serial.mock_script };
    &&& r.host@ == (match first_set(cli.host, env.host, file.server.host) {
        Some(h) => h@,
        None => DEFAULT_HOST@,
    })
    &&& r.port == (match first_set(cli.port, env.port, file.server.port) {
        Some(p) => p,
        None => DEFAULT_PORT,
    })
    &&& r.mock_script == mock_script
    &&& r.mock_device == (cli.mock_device || file.serial.mock_device == Some(true) || mock_script is Some)
    &&& r.real_serial == (cli.real_serial || file.serial.real_serial == Some(true))
    &&& r.preset_db == (if cli.preset_db is Some { cli.preset_db } else { file.storage.preset_db })
    &&& r.serial_defaults.default_port == file.serial.default_port
    &&& r.serial_defaults.default_baud_rate == (match file.serial.default_baud_rate {
        Some(b) => b,
        None => DEFAULT_SERIAL_BAUD_RATE,
    })
    &&& r.serial_defaults.default_delimiter@ == (match file.serial.default_delimiter {
        Some(d) => d@,
        None => DEFAULT_SERIAL_DELIMITER@,
    })
}

/// Real serial mode cannot be combined with a mock device or script.
pub open spec fn modes_compatible(config: ResolvedServeConfig) -> bool {
    !(config.real_serial && (config.mock_device || config.mock_script is Some))
}

/// The first of three optional values that is set.
fn first_of<T>(a: Option<T>, b: Option<T>, c: Option<T>) -> (r: Option<T>)
    ensures
        r == first_set(a, b, c),
{
    match a {
        Some(x) => Some(x),
        None => match b {
            Some(x) => Some(x),
            None => c,
        },
    }
}

/// Resolves the settings the server runs with (see `resolved_fields`) and
/// checks them: an incompatible combination of modes is an error.
pub fn resolve_serve_config(cli: CliServeOverrides, env: EnvServeConfig, file: FileConfig) -> (r: Result<ResolvedServeConfig, ConfigError>)
    ensures
        match r {
            Ok(c) => resolved_fields(cli, env, file, c) && modes_compatible(c),
            Err(e) => e == ConfigError::IncompatibleModes && exists|c: ResolvedServeConfig| resolved_fields(cli, env, file, c) && !modes_compatible(c),
        },
{
    let ghost (cli0, env0, file0) = (cli, env, file);
    let mock_script = match cli.mock_script {
        Some(s) => Some(s),
        None => file.serial.mock_script,
    };
    let mock_device = cli.mock_device || match file.serial.mock_device {
        Some(b) => b,
        None => false,
    } || mock_script.is_some();
    let real_serial = cli.real_serial || match file.serial.real_serial {
        Some(b) => b,
        None => false,
    };
    let host = match first_of(cli.host, env.host, file.server.host) {
        Some(h) => h,
        None => String::from_str(DEFAULT_HOST),
    };
    let port = match first_of(cli.port, env.port, file.server.port) {
        Some(p) => p,
        None => DEFAULT_PORT,
    };
    let preset_db = match cli.preset_db {
        Some(p) => Some(p),
        None => file.storage.preset_db,
    };
    let default_baud_rate = match file.serial.default_baud_rate {
        Some(b) => b,
        None => DEFAULT_SERIAL_BAUD_RATE,
    };
    let default_delimiter = match file.serial.default_delimiter {
        Some(d) => d,
        None => String::from_str(DEFAULT_SERIAL_DELIMITER),
    };
    let resolved = ResolvedServeConfig {
        host,
        port,
        mock_device,
        mock_script,
        real_serial,
        preset_db,
        serial_defaults: SerialDefaults {
            default_port: file.serial.default_port,
            default_baud_rate,
            default_delimiter,
        },
    };
    assert(resolved_fields(cli0, env0, file0, resolved));
    match validate_resolved_serve_config(&resolved) {
        Ok(()) => Ok(resolved),
        Err(e) => Err(e),
    }
}

/// Checks that real serial mode is not combined with a mock device or a
/// mock script.
pub fn validate_resolved_serve_config(config: &ResolvedServeConfig) -> (r: Result<(), ConfigError>)
    ensures
        modes_compatible(*config) <==> r is Ok,
        r matches Err(e) ==> e == ConfigError::IncompatibleModes,
{
    if config.real_serial && (config.mock_device || config.mock_script.is_some()) {
        Err(ConfigError::IncompatibleModes)
    } else {
        Ok(())
    }
}

} // verus!
