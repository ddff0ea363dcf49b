//! Tool configuration: execution mode and fixed targets.

use vstd::prelude::*;
use vstd::string::*;

verus! {

/// Configuration for the RAID provisioning tool.
#[derive(Debug, Clone, PartialEq)]
pub struct Config {
    pub dry_run: bool,
    pub log_level: String,
    pub backup_existing_configs: bool,
    pub target_mount: String,
    pub grub_timeout: u32,
}

impl Default for Config {
    /// The safe defaults: dry-run on, backups on, mount at `/target`.
    fn default() -> (c: Config)
        ensures
            c.dry_run == true,
            c.log_level@ == "info"@,
            c.backup_existing_configs == true,
            c.target_mount@ == "/target"@,
            c.grub_timeout == 5,
    {
        Config {
            dry_run: true,
            log_level: String::from_str("info"),
            backup_existing_configs: true,
            target_mount: String::from_str("/target"),
            grub_timeout: 5,
        }
    }
}

} // verus!
