//! Key-press counting: the snapshot protocol between the collector and the
//! service, the `.kbd` record file, the collector's counters, configuration
//! checks, the named-pipe transfer decisions, and what the heat-map viewer
//! computes before it draws.

pub mod words;
pub mod protocol;
pub mod records;
pub mod counter;
pub mod config;
pub mod text;
pub mod heatmap;
pub mod pipe;

pub use config::{Config, ConfigError, IpcConfig, KeyboardConfig, LoggingConfig, PrivacyConfig, StorageConfig};
pub use counter::{is_ack, is_idle, KeyCounter, ACK_MESSAGE, HOOK_ACTION, MESSAGE_KEY_DOWN, MESSAGE_SYS_KEY_DOWN};
pub use heatmap::{heat_max, select_counts, total_keys, ViewError};
pub use pipe::{client_connected, PipeError, Transfer, ERROR_PIPE_CONNECTED};
pub use protocol::{decode_snapshot, encode_snapshot, SnapshotError, FILE_MAGIC, KEY_COUNT, PROTOCOL_MAGIC, PROTOCOL_VERSION, SNAPSHOT_LEN};
pub use records::{append_record_bytes, parse_records, RecordFileError, FILE_HEADER_LEN, FILE_VERSION, RECORD_LEN};
pub use text::{esc, hex_color, wide};
