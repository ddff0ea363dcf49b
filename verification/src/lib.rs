//! Verified core of a RAID provisioning tool: device catalog filtering,
//! RAID-level policy, plan validation, execution-step construction, and a
//! marker-delimited configuration-block manager for the bootloader file.

pub mod blocks;
pub mod chars;
pub mod config;
pub mod device;
pub mod error;
pub mod execution;
pub mod filesystem;
pub mod grub;
pub mod mdstat;
pub mod planner;
pub mod raid_level;
pub mod size;
pub mod sizefmt;
pub mod strutil;

pub use blocks::RaidEntry;
pub use config::Config;
pub use device::Device;
pub use error::RaidError;
pub use execution::ExecStep;
pub use execution::ProvisioningPlan;
pub use execution::execution_steps;
pub use filesystem::Filesystem;
pub use grub::RaidCtlApp;
pub use planner::ListingEntry;
pub use planner::Planner;
pub use raid_level::RaidLevel;
pub use raid_level::RaidLevelCli;
pub use size::parse_size;
pub use sizefmt::format_size;
