//! Verified core of the Logitech direct-drive wheel userspace tools.

pub mod text;
pub mod floatbits;
pub mod setting;
pub mod sysfs;
pub mod device;
pub mod fftest;
pub mod telemetry_helpers;
pub mod relay;
pub mod assettocorsa;
pub mod games;
pub mod relay_cli;
pub mod tfstream;
pub mod error;
pub mod telemetry;
pub mod beamng;
pub mod init_data;
