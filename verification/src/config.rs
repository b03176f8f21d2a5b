//! The service's configuration.
//!
//! Loaded once at process start from the environment, immutable afterwards,
//! and handed to the store and the serving layer at construction. The
//! environment lookup itself happens outside the library; this module owns
//! the configuration's shape.

use vstd::prelude::*;

verus! {

/// The configuration the process runs with.
pub struct Config {
    /// Path of the primary data file.
    pub data_file_path: String,
    /// Path of the backup file.
    pub backup_file_path: String,
    /// Seconds between two runs of the periodic backup.
    pub backup_interval: u64,
    /// Address the service binds to.
    pub service_ip: String,
    /// Port the service binds to.
    pub service_port: u16,
}

} // verus!
