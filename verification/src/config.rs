//! The configuration shared by the collector and the service, and the rules
//! that a loaded configuration must meet.
use vstd::prelude::*;

verus! {

/// How often the collector sends its counts.
#[derive(Debug, Clone)]
pub struct LoggingConfig {
    /// Minutes between two sends; must not be zero.
    pub interval_minutes: u64,
}

/// Where the service keeps its record file.
#[derive(Debug, Clone)]
pub struct StorageConfig {
    /// Directory of `keyboard.kbd`.
    pub directory: String,
}

/// The keyboard whose layout the viewer draws.
#[derive(Debug, Clone)]
pub struct KeyboardConfig {
    /// Name of the layout.
    pub layout: String,
}

/// The named pipe between collector and service.
#[derive(Debug, Clone)]
pub struct IpcConfig {
    /// Name of the pipe.
    pub pipe_name: String,
}

/// What may be recorded beyond per-key counts; all of it must stay off.
#[derive(Debug, Clone)]
pub struct PrivacyConfig {
    /// Record the order in which keys were pressed.
    pub record_key_sequence: bool,
    /// Record the characters typed.
    pub record_characters: bool,
    /// Record when keys were pressed.
    pub record_timestamps: bool,
}

/// The whole configuration.
#[derive(Debug, Clone)]
pub struct Config {
    pub logging: LoggingConfig,
    pub storage: StorageConfig,
    pub keyboard: KeyboardConfig,
    pub ipc: IpcConfig,
    pub privacy: PrivacyConfig,
}

/// Why a configuration was refused.
#[derive(Debug, Clone, Copy, PartialEq, Eq, Structural)]
pub enum ConfigError {
    /// `logging.interval_minutes` is zero.
    ZeroInterval,
    /// One of the privacy options that record more than counts is on.
    PrivacyViolation,
}

/// Whether any privacy option that records more than counts is on.
pub open spec fn records_more_than_counts(p: PrivacyConfig) -> bool {
    p.record_key_sequence || p.record_characters || p.record_timestamps
}

impl Config {
    /// Accepts the configuration unless its interval is zero or it asks to
    /// record key sequences, characters or timestamps; the interval is
    /// checked first.
    pub fn validate(self) -> (r: Result<Config, ConfigError>)
        ensures
            self.logging.interval_minutes == 0 ==> r == Err::<Config, ConfigError>(
                ConfigError::ZeroInterval,
            ),
            self.logging.interval_minutes != 0 && records_more_than_counts(self.privacy) ==> r
                == Err::<Config, ConfigError>(ConfigError::PrivacyViolation),
            self.logging.interval_minutes != 0 && !records_more_than_counts(self.privacy) ==> r
                == Ok::<Config, ConfigError>(self),
    {
        if self.logging.interval_minutes == 0 {
            return Err(ConfigError::ZeroInterval);
        }
        if self.privacy.record_key_sequence || self.privacy.record_characters
            || self.privacy.record_timestamps {
            return Err(ConfigError::PrivacyViolation);
        }
        Ok(self)
    }

    /// Seconds between two sends of the collector.
    pub fn interval_seconds(&self) -> (secs: u64)
        requires
            self.logging.interval_minutes * 60 <= u64::MAX,
        ensures
            secs == self.logging.interval_minutes * 60,
    {
        self.logging.interval_minutes * 60
    }
}

/// Any one privacy option that records more than counts is enough to refuse
/// a configuration, whatever the others say; only with all three off does
/// the privacy rule let it through.
pub proof fn law_any_privacy_option_refuses(p: PrivacyConfig)
    ensures
        p.record_key_sequence ==> records_more_than_counts(p),
        p.record_characters ==> records_more_than_counts(p),
        p.record_timestamps ==> records_more_than_counts(p),
        !p.record_key_sequence && !p.record_characters && !p.record_timestamps
            ==> !records_more_than_counts(p),
{
}

} // verus!
