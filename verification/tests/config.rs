use keycounter::{Config, ConfigError, IpcConfig, KeyboardConfig, LoggingConfig, PrivacyConfig, StorageConfig};

fn config(minutes: u64, seq: bool, chars: bool, times: bool) -> Config {
    Config {
        logging: LoggingConfig { interval_minutes: minutes },
        storage: StorageConfig { directory: "C:\\ProgramData\\KeyCounter".to_string() },
        keyboard: KeyboardConfig { layout: "jis109".to_string() },
        ipc: IpcConfig { pipe_name: "\\\\.\\pipe\\keycounter".to_string() },
        privacy: PrivacyConfig { record_key_sequence: seq, record_characters: chars, record_timestamps: times },
    }
}

#[test]
fn valid_config_accepted() {
    let c = config(10, false, false, false).validate().expect("valid");
    assert_eq!(c.logging.interval_minutes, 10);
    assert_eq!(c.ipc.pipe_name, "\\\\.\\pipe\\keycounter");
}

#[test]
fn zero_interval_rejected() {
    assert_eq!(config(0, false, false, false).validate().unwrap_err(), ConfigError::ZeroInterval);
    assert_eq!(config(0, true, false, false).validate().unwrap_err(), ConfigError::ZeroInterval);
}

#[test]
fn privacy_options_rejected() {
    assert_eq!(config(10, true, false, false).validate().unwrap_err(), ConfigError::PrivacyViolation);
    assert_eq!(config(10, false, true, false).validate().unwrap_err(), ConfigError::PrivacyViolation);
    assert_eq!(config(10, false, false, true).validate().unwrap_err(), ConfigError::PrivacyViolation);
}

#[test]
fn interval_in_seconds() {
    assert_eq!(config(10, false, false, false).interval_seconds(), 600);
}
