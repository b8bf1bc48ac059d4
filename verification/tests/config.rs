use serialport_api::config::{
    resolve_serve_config, validate_resolved_serve_config, CliServeOverrides, ConfigError,
    EnvServeConfig, FileConfig, ResolvedServeConfig, SerialConfig, SerialDefaults, ServerConfig,
    StorageConfig, DEFAULT_HOST, DEFAULT_PORT,
};
use serialport_api::text::IntErrorKind;

fn file_with_server(host: Option<&str>, port: Option<u16>) -> FileConfig {
    FileConfig {
        server: ServerConfig {
            host: host.map(|h| h.to_string()),
            port,
        },
        ..FileConfig::default()
    }
}

#[test]
fn config_values_fill_built_in_defaults() {
    let file = FileConfig {
        server: ServerConfig {
            host: Some("0.0.0.0".to_string()),
            port: Some(5000),
        },
        serial: SerialConfig {
            default_port: Some("/dev/ttyUSB0".to_string()),
            default_baud_rate: Some(9600),
            default_delimiter: Some("\n".to_string()),
            mock_device: Some(true),
            ..SerialConfig::default()
        },
        storage: StorageConfig::default(),
    };

    let resolved =
        resolve_serve_config(CliServeOverrides::default(), EnvServeConfig::default(), file)
            .unwrap();

    assert_eq!(resolved.host, "0.0.0.0");
    assert_eq!(resolved.port, 5000);
    assert!(resolved.mock_device);
    assert_eq!(
        resolved.serial_defaults.default_port.as_deref(),
        Some("/dev/ttyUSB0")
    );
    assert_eq!(resolved.serial_defaults.default_baud_rate, 9600);
    assert_eq!(resolved.serial_defaults.default_delimiter, "\n");
}

#[test]
fn env_overrides_config_for_host_and_port() {
    let file = file_with_server(Some("0.0.0.0"), Some(5000));
    let env = EnvServeConfig::from_vars(Some("127.0.0.3".to_string()), Some("6000".to_string()))
        .unwrap();

    let resolved = resolve_serve_config(CliServeOverrides::default(), env, file).unwrap();

    assert_eq!(resolved.host, "127.0.0.3");
    assert_eq!(resolved.port, 6000);
}

#[test]
fn cli_overrides_env_and_config_for_host_and_port() {
    let file = file_with_server(Some("0.0.0.0"), Some(5000));
    let env = EnvServeConfig::from_vars(Some("127.0.0.3".to_string()), Some("6000".to_string()))
        .unwrap();
    let cli = CliServeOverrides {
        host: Some("127.0.0.4".to_string()),
        port: Some(7000),
        ..CliServeOverrides::default()
    };

    let resolved = resolve_serve_config(cli, env, file).unwrap();

    assert_eq!(resolved.host, "127.0.0.4");
    assert_eq!(resolved.port, 7000);
}

#[test]
fn mock_script_implies_mock_device() {
    let file = FileConfig {
        serial: SerialConfig {
            mock_script: Some("./script.json".to_string()),
            ..SerialConfig::default()
        },
        ..FileConfig::default()
    };

    let resolved =
        resolve_serve_config(CliServeOverrides::default(), EnvServeConfig::default(), file)
            .unwrap();

    assert!(resolved.mock_device);
    assert_eq!(resolved.mock_script, Some("./script.json".to_string()));
}

#[test]
fn real_serial_with_mock_device_or_script_is_rejected_after_resolution() {
    let file = FileConfig {
        serial: SerialConfig {
            real_serial: Some(true),
            mock_device: Some(true),
            ..SerialConfig::default()
        },
        ..FileConfig::default()
    };

    let error =
        resolve_serve_config(CliServeOverrides::default(), EnvServeConfig::default(), file)
            .unwrap_err();

    assert!(matches!(error, ConfigError::IncompatibleModes));
}

#[test]
fn built_in_defaults_are_preserved_without_config_cli_or_env() {
    let resolved = resolve_serve_config(
        CliServeOverrides::default(),
        EnvServeConfig::default(),
        FileConfig::default(),
    )
    .unwrap();

    assert_eq!(resolved.host, DEFAULT_HOST);
    assert_eq!(resolved.port, DEFAULT_PORT);
    assert!(!resolved.mock_device);
    assert!(resolved.mock_script.is_none());
    assert!(!resolved.real_serial);
    assert_eq!(resolved.serial_defaults, SerialDefaults::default());
    assert!(resolved.preset_db.is_none());
}

#[test]
fn storage_config_resolves_preset_db_and_cli_override_wins() {
    let file = FileConfig {
        storage: StorageConfig {
            preset_db: Some("./from-config.db".to_string()),
        },
        ..FileConfig::default()
    };
    let resolved =
        resolve_serve_config(CliServeOverrides::default(), EnvServeConfig::default(), file)
            .unwrap();
    assert_eq!(resolved.preset_db, Some("./from-config.db".to_string()));

    let cli = CliServeOverrides {
        preset_db: Some("./from-cli.db".to_string()),
        ..CliServeOverrides::default()
    };
    let file = FileConfig {
        storage: StorageConfig {
            preset_db: Some("./from-config.db".to_string()),
        },
        ..FileConfig::default()
    };
    let resolved = resolve_serve_config(cli, EnvServeConfig::default(), file).unwrap();
    assert_eq!(resolved.preset_db, Some("./from-cli.db".to_string()));
}

#[test]
fn env_port_parse_errors_name_the_value_and_kind() {
    let empty = EnvServeConfig::from_vars(None, Some(String::new())).unwrap_err();
    assert_eq!(
        empty,
        ConfigError::InvalidEnvPort {
            value: String::new(),
            source: IntErrorKind::Empty
        }
    );
    let letters = EnvServeConfig::from_vars(None, Some("40a2".to_string())).unwrap_err();
    assert_eq!(
        letters,
        ConfigError::InvalidEnvPort {
            value: "40a2".to_string(),
            source: IntErrorKind::InvalidDigit
        }
    );
    let too_big = EnvServeConfig::from_vars(None, Some("65536".to_string())).unwrap_err();
    assert_eq!(
        too_big,
        ConfigError::InvalidEnvPort {
            value: "65536".to_string(),
            source: IntErrorKind::PosOverflow
        }
    );
    let minus = EnvServeConfig::from_vars(None, Some("-1".to_string())).unwrap_err();
    assert!(matches!(
        minus,
        ConfigError::InvalidEnvPort {
            source: IntErrorKind::InvalidDigit,
            ..
        }
    ));
}

#[test]
fn env_port_accepts_plus_sign_and_extremes() {
    let plus = EnvServeConfig::from_vars(Some("h".to_string()), Some("+80".to_string())).unwrap();
    assert_eq!(plus.port, Some(80));
    assert_eq!(plus.host.as_deref(), Some("h"));
    let max = EnvServeConfig::from_vars(None, Some("65535".to_string())).unwrap();
    assert_eq!(max.port, Some(65535));
    let zero = EnvServeConfig::from_vars(None, Some("0".to_string())).unwrap();
    assert_eq!(zero.port, Some(0));
    let none = EnvServeConfig::from_vars(None, None).unwrap();
    assert_eq!(none, EnvServeConfig::default());
}

#[test]
fn cli_real_serial_with_cli_mock_device_is_rejected() {
    let cli = CliServeOverrides {
        real_serial: true,
        mock_device: true,
        ..CliServeOverrides::default()
    };
    let error =
        resolve_serve_config(cli, EnvServeConfig::default(), FileConfig::default()).unwrap_err();
    assert_eq!(error, ConfigError::IncompatibleModes);
}

#[test]
fn validate_accepts_real_serial_alone() {
    let config = ResolvedServeConfig {
        host: "127.0.0.1".to_string(),
        port: 4002,
        mock_device: false,
        mock_script: None,
        real_serial: true,
        serial_defaults: SerialDefaults::default(),
        preset_db: None,
    };
    assert_eq!(validate_resolved_serve_config(&config), Ok(()));
    let with_script = ResolvedServeConfig {
        mock_script: Some("x.json".to_string()),
        ..config
    };
    assert_eq!(
        validate_resolved_serve_config(&with_script),
        Err(ConfigError::IncompatibleModes)
    );
}

#[test]
fn serial_defaults_are_115200_and_crlf() {
    let defaults = SerialDefaults::default();
    assert_eq!(defaults.default_port, None);
    assert_eq!(defaults.default_baud_rate, 115_200);
    assert_eq!(defaults.default_delimiter, "\r\n");
}

#[test]
fn resolved_config_address_is_host_and_port() {
    let config = resolve_serve_config(
        CliServeOverrides::default(),
        EnvServeConfig::default(),
        FileConfig::default(),
    )
    .unwrap();
    assert_eq!(config.address(), "127.0.0.1:4002");
}
