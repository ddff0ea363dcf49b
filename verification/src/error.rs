//! Errors that can occur during RAID provisioning.

use vstd::prelude::*;
use vstd::string::*;
use crate::chars::dec_digits;
use crate::chars::usize_to_string;

verus! {

/// Why discovery, validation, or execution failed.
#[derive(Debug, Clone, PartialEq)]
pub enum RaidError {
    /// A requested device path is not in the catalog.
    DeviceNotFound(String),
    /// A RAID level name was not recognized.
    InvalidRaidLevel(String),
    /// Too few disks for the requested level.
    InsufficientDisks { level: String, required: usize, found: usize },
    /// An input/output failure, with its description.
    IoError(String),
}

impl RaidError {
    /// The message the error prints.
    pub open spec fn spec_message(self) -> Seq<char> {
        match self {
            RaidError::DeviceNotFound(p) => "Device not found: "@ + p@,
            RaidError::InvalidRaidLevel(l) => "Invalid RAID level: "@ + l@,
            RaidError::InsufficientDisks { level, required, found } =>
                "Insufficient disks for RAID level "@ + level@ + ": required "@ + dec_digits(
                    required as int,
                ) + ", found "@ + dec_digits(found as int),
            RaidError::IoError(e) => "IO error: "@ + e@,
        }
    }

    /// Render the error as text.
    pub fn message(&self) -> (r: String)
        ensures
            r@ == self.spec_message(),
    {
        let mut r = String::new();
        match self {
            RaidError::DeviceNotFound(p) => {
                r.append("Device not found: ");
                r.append(p.as_str());
            },
            RaidError::InvalidRaidLevel(l) => {
                r.append("Invalid RAID level: ");
                r.append(l.as_str());
            },
            RaidError::InsufficientDisks { level, required, found } => {
                r.append("Insufficient disks for RAID level ");
                r.append(level.as_str());
                r.append(": required ");
                let req = usize_to_string(*required);
                r.append(req.as_str());
                r.append(", found ");
                let fnd = usize_to_string(*found);
                r.append(fnd.as_str());
            },
            RaidError::IoError(e) => {
                r.append("IO error: ");
                r.append(e.as_str());
            },
        }
        proof {
            assert(r@ =~= self.spec_message());
        }
        r
    }
}

} // verus!
