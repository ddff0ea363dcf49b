//! A discovered block device and its human-readable presentation.

use vstd::prelude::*;
use vstd::string::*;
use crate::chars::u64_to_string;
use crate::sizefmt::device_size_spec;
use crate::sizefmt::hundredths_string;

verus! {

/// One discovered storage device.  Immutable once discovered: a fresh
/// discovery produces a wholly new collection.
#[derive(Debug, Clone, PartialEq)]
pub struct Device {
    pub id: String,
    pub path: String,
    pub size: u64,
    pub model: Option<String>,
    pub serial: Option<String>,
}

/// The mathematical image of a `Device`.
pub struct DeviceView {
    pub id: Seq<char>,
    pub path: Seq<char>,
    pub size: u64,
    pub model: Option<Seq<char>>,
    pub serial: Option<Seq<char>>,
}

impl View for Device {
    type V = DeviceView;

    open spec fn view(&self) -> DeviceView {
        DeviceView {
            id: self.id@,
            path: self.path@,
            size: self.size,
            model: self.model.deep_view(),
            serial: self.serial.deep_view(),
        }
    }
}

impl DeepView for Device {
    type V = DeviceView;

    open spec fn deep_view(&self) -> DeviceView {
        self.view()
    }
}

impl Device {
    /// The device's size with two decimals and a binary unit.
    pub fn format_size(&self) -> (r: String)
        ensures
            r@ == device_size_spec(self.size as int),
    {
        if self.size >= 0x100_0000_0000 {
            hundredths_string(self.size, 0x100_0000_0000, " TB")
        } else if self.size >= 0x4000_0000 {
            hundredths_string(self.size, 0x4000_0000, " GB")
        } else if self.size >= 0x10_0000 {
            hundredths_string(self.size, 0x10_0000, " MB")
        } else if self.size >= 0x400 {
            hundredths_string(self.size, 0x400, " KB")
        } else {
            let mut r = u64_to_string(self.size);
            r.append(" B");
            proof {
                assert(r@ =~= device_size_spec(self.size as int));
            }
            r
        }
    }

    /// What a chooser shows for the device: path, model when known, size.
    pub open spec fn spec_display_name(dv: DeviceView) -> Seq<char> {
        match dv.model {
            Some(m) => dv.path + " ("@ + m + ") - "@ + device_size_spec(dv.size as int),
            None => dv.path + " - "@ + device_size_spec(dv.size as int),
        }
    }

    /// Get a display name for the device.
    pub fn display_name(&self) -> (r: String)
        ensures
            r@ == Device::spec_display_name(self@),
    {
        let size_part = self.format_size();
        let mut r = String::new();
        r.append(self.path.as_str());
        match &self.model {
            Some(m) => {
                r.append(" (");
                r.append(m.as_str());
                r.append(") - ");
            },
            None => {
                r.append(" - ");
            },
        }
        r.append(size_part.as_str());
        proof {
            assert(r@ =~= Device::spec_display_name(self@));
        }
        r
    }
}

} // verus!
