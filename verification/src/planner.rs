//! Device catalog construction and plan validation.
//!
//! Discovery itself — running the external device lister and decoding its
//! structured output — is the caller's part; it hands over one
//! `ListingEntry` per reported block device.  The verified filter applies
//! the catalog policy: mounted entries and entries that are not plain disks
//! never appear, sizes are parsed, zero-size entries are dropped, and the
//! device path is the device directory prefix plus the reported name.

use vstd::prelude::*;
use vstd::string::*;
use crate::config::Config;
use crate::device::Device;
use crate::device::DeviceView;
use crate::error::RaidError;
use crate::execution::ProvisioningPlan;
use crate::filesystem::Filesystem;
use crate::raid_level::RaidLevel;
use crate::size::parse_size;
use crate::size::parse_size_spec;
use crate::strutil::str_eq;
use crate::strutil::str_trim;
use crate::strutil::trim_spec;

verus! {

/// One record of the external device listing, as plain optional fields.
#[derive(Debug, Clone, PartialEq)]
pub struct ListingEntry {
    pub name: Option<String>,
    pub size: Option<String>,
    pub model: Option<String>,
    pub serial: Option<String>,
    pub kind: Option<String>,
    pub mountpoint: Option<String>,
}

/// The mathematical image of a listing entry.
pub struct ListingEntryView {
    pub name: Option<Seq<char>>,
    pub size: Option<Seq<char>>,
    pub model: Option<Seq<char>>,
    pub serial: Option<Seq<char>>,
    pub kind: Option<Seq<char>>,
    pub mountpoint: Option<Seq<char>>,
}

impl View for ListingEntry {
    type V = ListingEntryView;

    open spec fn view(&self) -> ListingEntryView {
        ListingEntryView {
            name: self.name.deep_view(),
            size: self.size.deep_view(),
            model: self.model.deep_view(),
            serial: self.serial.deep_view(),
            kind: self.kind.deep_view(),
            mountpoint: self.mountpoint.deep_view(),
        }
    }
}

impl DeepView for ListingEntry {
    type V = ListingEntryView;

    open spec fn deep_view(&self) -> ListingEntryView {
        self.view()
    }
}

/// An entry with a non-empty mount point is in use and never offered.
pub open spec fn entry_mounted(e: ListingEntryView) -> bool {
    match e.mountpoint {
        Some(m) => m.len() > 0,
        None => false,
    }
}

/// Only entries whose reported type is exactly `disk` are offered.
pub open spec fn entry_is_disk(e: ListingEntryView) -> bool {
    e.kind == Some("disk"@)
}

/// The reported name; a missing name counts as empty.
pub open spec fn entry_name(e: ListingEntryView) -> Seq<char> {
    match e.name {
        Some(n) => n,
        None => Seq::empty(),
    }
}

/// The reported size text; a missing size counts as `"0"`.
pub open spec fn entry_size_text(e: ListingEntryView) -> Seq<char> {
    match e.size {
        Some(s) => s,
        None => "0"@,
    }
}

/// The entry's size in bytes.
pub open spec fn entry_size(e: ListingEntryView) -> int {
    parse_size_spec(entry_size_text(e))
}

/// Whether the entry survives the catalog filter: not mounted, a plain
/// disk, and of non-zero parsed size.
pub open spec fn entry_kept(e: ListingEntryView) -> bool {
    !entry_mounted(e) && entry_is_disk(e) && entry_size(e) != 0
}

/// The device a kept entry becomes.
pub open spec fn entry_device(e: ListingEntryView) -> DeviceView {
    DeviceView {
        id: entry_name(e),
        path: "/dev/"@ + entry_name(e),
        size: entry_size(e) as u64,
        model: match e.model {
            Some(m) => Some(trim_spec(m)),
            None => None,
        },
        serial: match e.serial {
            Some(s) => Some(trim_spec(s)),
            None => None,
        },
    }
}

/// The catalog the listing yields, in listing order.
pub open spec fn spec_catalog(es: Seq<ListingEntryView>) -> Seq<DeviceView>
    decreases es.len(),
{
    if es.len() == 0 {
        Seq::empty()
    } else if entry_kept(es[0]) {
        seq![entry_device(es[0])] + spec_catalog(es.drop_first())
    } else {
        spec_catalog(es.drop_first())
    }
}

/// Apply the catalog policy to a device listing.
pub fn catalog_from_listing(entries: &Vec<ListingEntry>) -> (devices: Vec<Device>)
    ensures
        devices.deep_view() == spec_catalog(entries.deep_view()),
{
    let ghost evs = entries.deep_view();
    let mut devices: Vec<Device> = Vec::new();
    proof {
        assert(evs.subrange(0, evs.len() as int) =~= evs);
        assert(Seq::<DeviceView>::empty() + spec_catalog(evs) =~= spec_catalog(evs));
        assert(devices.deep_view() =~= Seq::<DeviceView>::empty());
    }
    let mut i: usize = 0;
    while i < entries.len()
        invariant
            i <= entries@.len(),
            evs == entries.deep_view(),
            evs.len() == entries@.len(),
            spec_catalog(evs) == devices.deep_view() + spec_catalog(
                evs.subrange(i as int, evs.len() as int),
            ),
        decreases entries@.len() - i,
    {
        let ghost suf = evs.subrange(i as int, evs.len() as int);
        proof {
            assert(suf[0] == evs[i as int]);
            assert(suf.drop_first() =~= evs.subrange(i + 1, evs.len() as int));
        }
        let e = &entries[i];
        let mounted = match &e.mountpoint {
            Some(m) => !m.as_str().is_empty(),
            None => false,
        };
        let is_disk = match &e.kind {
            Some(k) => str_eq(k.as_str(), "disk"),
            None => false,
        };
        if !mounted && is_disk {
            let name = match &e.name {
                Some(n) => n.clone(),
                None => String::new(),
            };
            let size_text = match &e.size {
                Some(s) => s.clone(),
                None => String::from_str("0"),
            };
            let size = parse_size(size_text.as_str());
            if size != 0 {
                let mut path = String::from_str("/dev/");
                path.append(name.as_str());
                let model = match &e.model {
                    Some(m) => Some(str_trim(m.as_str())),
                    None => None,
                };
                let serial = match &e.serial {
                    Some(s) => Some(str_trim(s.as_str())),
                    None => None,
                };
                let ghost before = devices.deep_view();
                devices.push(Device { id: name, path, size, model, serial });
                proof {
                    assert(devices.deep_view() =~= before.push(entry_device(evs[i as int])));
                    assert(before + (seq![entry_device(evs[i as int])] + spec_catalog(
                        suf.drop_first(),
                    )) =~= before.push(entry_device(evs[i as int])) + spec_catalog(
                        suf.drop_first(),
                    ));
                }
            }
        }
        i = i + 1;
    }
    proof {
        assert(evs.subrange(evs.len() as int, evs.len() as int) =~= Seq::<
            ListingEntryView,
        >::empty());
        assert(devices.deep_view() + Seq::<DeviceView>::empty() =~= devices.deep_view());
    }
    devices
}

/// A requested path occurs in the catalog, by exact string equality.
pub open spec fn in_catalog(devices: Seq<DeviceView>, path: Seq<char>) -> bool {
    exists|j: int| 0 <= j < devices.len() && devices[j].path == path
}

/// `i` is the first requested index whose path is absent from the catalog.
pub open spec fn first_missing_at(devices: Seq<DeviceView>, paths: Seq<Seq<char>>, i: int) -> bool {
    &&& 0 <= i < paths.len()
    &&& !in_catalog(devices, paths[i])
    &&& forall|j: int| 0 <= j < i ==> in_catalog(devices, paths[j])
}

/// RAID provisioning planner, bound to a discovered catalog and a
/// configuration.
pub struct Planner {
    pub devices: Vec<Device>,
    pub config: Config,
}

impl Planner {
    /// Create a new planner with the given devices and configuration.
    pub fn new(devices: Vec<Device>, config: Config) -> (p: Planner)
        ensures
            p.devices == devices,
            p.config == config,
    {
        Planner { devices, config }
    }

    /// Whether some catalog device has exactly this path.
    fn contains_path(&self, path: &String) -> (r: bool)
        ensures
            r == in_catalog(self.devices.deep_view(), path@),
    {
        let mut j: usize = 0;
        while j < self.devices.len()
            invariant
                j <= self.devices@.len(),
                forall|q: int|
                    0 <= q < j ==> self.devices.deep_view()[q].path != path@,
            decreases self.devices@.len() - j,
        {
            if str_eq(self.devices[j].path.as_str(), path.as_str()) {
                proof {
                    assert(self.devices.deep_view()[j as int].path == path@);
                }
                return true;
            }
            j = j + 1;
        }
        false
    }

    /// Plan a RAID configuration.
    ///
    /// Validation order: the disk count is checked against the level's
    /// minimum first, so a short request fails with `InsufficientDisks`
    /// whether or not the named disks exist; then each requested path, in
    /// request order, must be in the catalog, and the first absent one
    /// fails with `DeviceNotFound`.  A successful plan copies the request
    /// order exactly, defaults the filesystem to ext4, and takes its mount
    /// point from the bound configuration, never from the request.
    pub fn plan(
        &self,
        raid_level: RaidLevel,
        disks: &Vec<String>,
        filesystem: Option<Filesystem>,
    ) -> (r: Result<ProvisioningPlan, RaidError>)
        ensures
            match r {
                Ok(p) => {
                    &&& disks@.len() >= raid_level.spec_min_disks()
                    &&& forall|i: int|
                        0 <= i < disks@.len() ==> in_catalog(
                            self.devices.deep_view(),
                            disks.deep_view()[i],
                        )
                    &&& p.raid_level == raid_level
                    &&& p.disks.deep_view() == disks.deep_view()
                    &&& p.filesystem == (match filesystem {
                        Some(f) => f,
                        None => Filesystem::Ext4,
                    })
                    &&& p.mount_point@ == self.config.target_mount@
                },
                Err(e) => match e {
                    RaidError::InsufficientDisks { level, required, found } => {
                        &&& disks@.len() < raid_level.spec_min_disks()
                        &&& level@ == raid_level.spec_variant_name()
                        &&& required == raid_level.spec_min_disks()
                        &&& found == disks@.len()
                    },
                    RaidError::DeviceNotFound(p) => {
                        &&& disks@.len() >= raid_level.spec_min_disks()
                        &&& exists|i: int|
                            #[trigger] first_missing_at(
                                self.devices.deep_view(),
                                disks.deep_view(),
                                i,
                            ) && p@ == disks.deep_view()[i]
                    },
                    _ => false,
                },
            },
    {
        let min_disks = raid_level.min_disks();

        if disks.len() < min_disks {
            return Err(
                RaidError::InsufficientDisks {
                    level: String::from_str(raid_level.variant_name()),
                    required: min_disks,
                    found: disks.len(),
                },
            );
        }

        let mut valid_disks: Vec<String> = Vec::new();
        let mut i: usize = 0;
        proof {
            assert(valid_disks.deep_view() =~= disks.deep_view().subrange(0, 0));
        }
        while i < disks.len()
            invariant
                i <= disks@.len(),
                disks@.len() >= raid_level.spec_min_disks(),
                forall|j: int|
                    0 <= j < i ==> in_catalog(self.devices.deep_view(), disks.deep_view()[j]),
                valid_disks.deep_view() == disks.deep_view().subrange(0, i as int),
            decreases disks@.len() - i,
        {
            if !self.contains_path(&disks[i]) {
                proof {
                    assert(disks.deep_view()[i as int] == disks@[i as int]@);
                    assert(first_missing_at(
                        self.devices.deep_view(),
                        disks.deep_view(),
                        i as int,
                    ));
                }
                return Err(RaidError::DeviceNotFound(disks[i].clone()));
            }
            let ghost before = valid_disks.deep_view();
            valid_disks.push(disks[i].clone());
            proof {
                assert(valid_disks.deep_view() =~= before.push(disks.deep_view()[i as int]));
                assert(before.push(disks.deep_view()[i as int]) =~= disks.deep_view().subrange(
                    0,
                    i + 1,
                ));
            }
            i = i + 1;
        }
        proof {
            assert(disks.deep_view().subrange(0, disks@.len() as int) =~= disks.deep_view());
        }

        Ok(
            ProvisioningPlan {
                raid_level,
                disks: valid_disks,
                filesystem: match filesystem {
                    Some(f) => f,
                    None => Filesystem::Ext4,
                },
                mount_point: self.config.target_mount.clone(),
            },
        )
    }
}

} // verus!
