//! Server configuration: its model, sizes, and validation.
pub mod laws;
pub mod model;
pub mod problems;
pub mod size;
pub mod validate;

pub use model::{
    BootConfig, Client, ClientDefaults, Config, Disk, DiskMode, DiskType, WritebackPolicy,
};
pub use size::{parse_size, ByteSize, SizeParseError};
pub use validate::{is_valid_mac, validate, ValidationError, ValidationErrors};
