//! RAID levels and the static policy attached to each: minimum disk count,
//! display name, and a short description.

use vstd::prelude::*;

verus! {

/// The closed set of supported RAID levels.
#[derive(Clone, Copy, Debug, PartialEq, Eq, Hash, Structural)]
pub enum RaidLevel {
    /// No RAID (single disk)
    Single,
    /// RAID 0 (striping)
    Raid0,
    /// RAID 1 (mirroring)
    Raid1,
    /// RAID 5 (striping with parity)
    Raid5,
    /// RAID 6 (striping with double parity)
    Raid6,
    /// RAID 10 (mirrored stripes)
    Raid10,
}

impl RaidLevel {
    /// The fewest disks an array of this level can be built from.
    pub open spec fn spec_min_disks(self) -> usize {
        match self {
            RaidLevel::Single => 1,
            RaidLevel::Raid0 => 2,
            RaidLevel::Raid1 => 2,
            RaidLevel::Raid5 => 3,
            RaidLevel::Raid6 => 4,
            RaidLevel::Raid10 => 4,
        }
    }

    /// Get the minimum number of disks required for this RAID level.
    pub fn min_disks(&self) -> (n: usize)
        ensures
            n == self.spec_min_disks(),
    {
        match self {
            RaidLevel::Single => 1,
            RaidLevel::Raid0 => 2,
            RaidLevel::Raid1 => 2,
            RaidLevel::Raid5 => 3,
            RaidLevel::Raid6 => 4,
            RaidLevel::Raid10 => 4,
        }
    }

    /// The stable ordering in which the levels are offered to a caller.
    pub open spec fn spec_all() -> Seq<RaidLevel> {
        seq![
            RaidLevel::Single,
            RaidLevel::Raid0,
            RaidLevel::Raid1,
            RaidLevel::Raid5,
            RaidLevel::Raid6,
            RaidLevel::Raid10,
        ]
    }

    /// Get a list of all supported RAID levels, in stable order.
    pub fn all() -> (levels: Vec<RaidLevel>)
        ensures
            levels@ == RaidLevel::spec_all(),
    {
        let mut levels: Vec<RaidLevel> = Vec::new();
        levels.push(RaidLevel::Single);
        levels.push(RaidLevel::Raid0);
        levels.push(RaidLevel::Raid1);
        levels.push(RaidLevel::Raid5);
        levels.push(RaidLevel::Raid6);
        levels.push(RaidLevel::Raid10);
        proof {
            assert(levels@ =~= RaidLevel::spec_all());
        }
        levels
    }

    /// The human-readable name of the level.
    pub open spec fn spec_display_name(self) -> Seq<char> {
        match self {
            RaidLevel::Single => "None"@,
            RaidLevel::Raid0 => "RAID 0"@,
            RaidLevel::Raid1 => "RAID 1"@,
            RaidLevel::Raid5 => "RAID 5"@,
            RaidLevel::Raid6 => "RAID 6"@,
            RaidLevel::Raid10 => "RAID 10"@,
        }
    }

    /// Get display name for the RAID level.
    pub fn display_name(&self) -> (name: &'static str)
        ensures
            name@ == self.spec_display_name(),
    {
        match self {
            RaidLevel::Single => "None",
            RaidLevel::Raid0 => "RAID 0",
            RaidLevel::Raid1 => "RAID 1",
            RaidLevel::Raid5 => "RAID 5",
            RaidLevel::Raid6 => "RAID 6",
            RaidLevel::Raid10 => "RAID 10",
        }
    }

    /// The bare variant tag, as validation errors report it.
    pub open spec fn spec_variant_name(self) -> Seq<char> {
        match self {
            RaidLevel::Single => "None"@,
            RaidLevel::Raid0 => "Raid0"@,
            RaidLevel::Raid1 => "Raid1"@,
            RaidLevel::Raid5 => "Raid5"@,
            RaidLevel::Raid6 => "Raid6"@,
            RaidLevel::Raid10 => "Raid10"@,
        }
    }

    /// The bare variant tag used in validation errors.
    pub fn variant_name(&self) -> (name: &'static str)
        ensures
            name@ == self.spec_variant_name(),
    {
        match self {
            RaidLevel::Single => "None",
            RaidLevel::Raid0 => "Raid0",
            RaidLevel::Raid1 => "Raid1",
            RaidLevel::Raid5 => "Raid5",
            RaidLevel::Raid6 => "Raid6",
            RaidLevel::Raid10 => "Raid10",
        }
    }

    /// The short fixed description of the level.
    pub open spec fn spec_description(self) -> Seq<char> {
        match self {
            RaidLevel::Single => "Single disk, no redundancy"@,
            RaidLevel::Raid0 => "Striping for performance, no redundancy"@,
            RaidLevel::Raid1 => "Mirroring for redundancy and performance"@,
            RaidLevel::Raid5 => "Striping with parity, fault tolerant"@,
            RaidLevel::Raid6 => "Striping with double parity protection"@,
            RaidLevel::Raid10 => "Mirrored stripes, high performance redundancy"@,
        }
    }

    /// Get short description for the RAID level (6 words max).
    pub fn description(&self) -> (text: &'static str)
        ensures
            text@ == self.spec_description(),
    {
        match self {
            RaidLevel::Single => "Single disk, no redundancy",
            RaidLevel::Raid0 => "Striping for performance, no redundancy",
            RaidLevel::Raid1 => "Mirroring for redundancy and performance",
            RaidLevel::Raid5 => "Striping with parity, fault tolerant",
            RaidLevel::Raid6 => "Striping with double parity protection",
            RaidLevel::Raid10 => "Mirrored stripes, high performance redundancy",
        }
    }
}

/// The RAID levels as a command line names them.
#[derive(Clone, Copy, Debug, PartialEq, Eq, Structural)]
pub enum RaidLevelCli {
    Single,
    Raid0,
    Raid1,
    Raid5,
    Raid6,
    Raid10,
}

/// What each command-line name selects.
pub open spec fn spec_level_of_cli(level: RaidLevelCli) -> RaidLevel {
    match level {
        RaidLevelCli::Single => RaidLevel::Single,
        RaidLevelCli::Raid0 => RaidLevel::Raid0,
        RaidLevelCli::Raid1 => RaidLevel::Raid1,
        RaidLevelCli::Raid5 => RaidLevel::Raid5,
        RaidLevelCli::Raid6 => RaidLevel::Raid6,
        RaidLevelCli::Raid10 => RaidLevel::Raid10,
    }
}

impl core::convert::From<RaidLevelCli> for RaidLevel {
    fn from(level: RaidLevelCli) -> (r: RaidLevel) {
        match level {
            RaidLevelCli::Single => RaidLevel::Single,
            RaidLevelCli::Raid0 => RaidLevel::Raid0,
            RaidLevelCli::Raid1 => RaidLevel::Raid1,
            RaidLevelCli::Raid5 => RaidLevel::Raid5,
            RaidLevelCli::Raid6 => RaidLevel::Raid6,
            RaidLevelCli::Raid10 => RaidLevel::Raid10,
        }
    }
}

impl vstd::std_specs::convert::FromSpecImpl<RaidLevelCli> for RaidLevel {
    open spec fn obeys_from_spec() -> bool {
        true
    }

    open spec fn from_spec(level: RaidLevelCli) -> RaidLevel {
        spec_level_of_cli(level)
    }
}

} // verus!
