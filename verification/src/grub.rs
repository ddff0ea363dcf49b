//! The application state around the configuration-block manager: the text
//! buffer of the bootloader configuration, the blocks detected in it, block
//! removal with whitespace normalization, and the generated configuration
//! and setup-script text.

use vstd::prelude::*;
use vstd::string::*;
use crate::blocks::collapse_trailing;
use crate::blocks::collapse_trailing_blanks;
use crate::blocks::lemma_parse_entry_bounds;
use crate::blocks::parse_entry_list;
use crate::blocks::remove_line_range;
use crate::blocks::remove_lines;
use crate::blocks::spec_parse_from;
use crate::blocks::RaidEntry;
use crate::chars::dec_digits;
use crate::chars::usize_to_string;
use crate::device::Device;
use crate::error::RaidError;
use crate::raid_level::RaidLevel;
use crate::strutil::ascii_lower;
use crate::strutil::join_lines;
use crate::strutil::join_lines_spec;
use crate::strutil::join_spaces;
use crate::strutil::join_spaces_spec;
use crate::strutil::lines_of;
use crate::strutil::split_lines;
use crate::strutil::starts_with_seq;
use crate::strutil::str_eq;
use crate::strutil::str_find_char;
use crate::strutil::str_rfind_char;
use crate::strutil::str_starts_with;
use crate::strutil::str_to_ascii_lowercase;
use crate::strutil::str_trim;
use crate::strutil::trim_spec;

verus! {

/// Which partitioning tools the surrounding system offers.
#[derive(Debug, Clone, Copy)]
pub struct AvailableTools {
    pub fdisk: bool,
    pub parted: bool,
    pub gparted: bool,
    pub gnome_disks: bool,
}

/// The state the provisioning surface works on.  Everything here is a
/// plain value; discovery results and environment probes are filled in by
/// the caller.
#[derive(Debug)]
pub struct RaidCtlApp {
    pub devices: Vec<Device>,
    pub selected_devices: Vec<String>,
    pub selected_raid_level: Option<RaidLevel>,
    pub selected_filesystem: Option<String>,
    pub bootable_flag: bool,
    pub status: String,
    pub grub_config: String,
    pub show_grub_config: bool,
    pub refresh_requested: bool,
    pub current_plan: Option<(RaidLevel, Vec<String>, String, bool)>,
    pub detected_raid_entries: Vec<RaidEntry>,
    pub is_live_environment: bool,
    pub available_tools: AvailableTools,
}

/// The placeholder array identifier written into generated configuration.
pub open spec fn spec_raid_uuid() -> Seq<char> {
    "xxxxxxxx-xxxx-xxxx-xxxx-xxxxxxxxxxxx"@
}

/// Position of the first quote character, `-1` when none.
pub open spec fn first_quote(l: Seq<char>) -> int
    decreases l.len(),
{
    if l.len() == 0 {
        -1
    } else if l[0] == '"' {
        0
    } else {
        let r = first_quote(l.drop_first());
        if r < 0 {
            -1
        } else {
            1 + r
        }
    }
}

proof fn lemma_first_quote(l: Seq<char>)
    ensures
        -1 <= first_quote(l) < l.len(),
        first_quote(l) == -1 ==> forall|q: int| 0 <= q < l.len() ==> l[q] != '"',
        first_quote(l) >= 0 ==> l[first_quote(l)] == '"' && (forall|q: int|
            0 <= q < first_quote(l) ==> l[q] != '"'),
    decreases l.len(),
{
    if l.len() > 0 && l[0] != '"' {
        lemma_first_quote(l.drop_first());
        let rest = l.drop_first();
        let r = first_quote(rest);
        if r == -1 {
            assert forall|q: int| 0 <= q < l.len() implies l[q] != '"' by {
                if q > 0 {
                    assert(rest[q - 1] == l[q]);
                }
            }
        } else {
            assert(rest[r] == l[1 + r]);
            assert forall|q: int| 0 <= q < 1 + r implies l[q] != '"' by {
                if q > 0 {
                    assert(rest[q - 1] == l[q]);
                }
            }
        }
    }
}

/// Position of the last quote character, `-1` when none.
pub open spec fn last_quote(l: Seq<char>) -> int
    decreases l.len(),
{
    if l.len() == 0 {
        -1
    } else if l.last() == '"' {
        l.len() - 1
    } else {
        last_quote(l.drop_last())
    }
}

proof fn lemma_last_quote(l: Seq<char>)
    ensures
        -1 <= last_quote(l) < l.len(),
        last_quote(l) == -1 ==> forall|q: int| 0 <= q < l.len() ==> l[q] != '"',
        last_quote(l) >= 0 ==> l[last_quote(l)] == '"' && (forall|q: int|
            last_quote(l) < q < l.len() ==> l[q] != '"'),
    decreases l.len(),
{
    if l.len() > 0 && l.last() != '"' {
        lemma_last_quote(l.drop_last());
        let rest = l.drop_last();
        let r = last_quote(rest);
        if r == -1 {
            assert forall|q: int| 0 <= q < l.len() implies l[q] != '"' by {
                if q < l.len() - 1 {
                    assert(rest[q] == l[q]);
                }
            }
        } else {
            assert(rest[r] == l[r]);
            assert forall|q: int| r < q < l.len() implies l[q] != '"' by {
                if q < l.len() - 1 {
                    assert(rest[q] == l[q]);
                }
            }
        }
    }
}

/// The value a configuration line assigns to the kernel command line:
/// present when the line starts with the assignment prefix and holds two
/// distinct quotes, and then the text between the first and last quote.
pub open spec fn cmdline_of_line(l: Seq<char>) -> Option<Seq<char>> {
    if starts_with_seq(l, "GRUB_CMDLINE_LINUX="@) {
        let f = first_quote(l);
        let g = last_quote(l);
        if 0 <= f && f < g {
            Some(l.subrange(f + 1, g))
        } else {
            None
        }
    } else {
        None
    }
}

/// The current kernel command line: the first line that assigns one, else
/// the common default.
pub open spec fn spec_extract_cmdline(lines: Seq<Seq<char>>, i: int) -> Seq<char>
    decreases lines.len() - i,
{
    if i < 0 || i >= lines.len() {
        "rhgb quiet"@
    } else {
        match cmdline_of_line(lines[i]) {
            Some(v) => v,
            None => spec_extract_cmdline(lines, i + 1),
        }
    }
}

/// The minimal bootable configuration generated for a plan: nothing unless
/// the bootable flag is set; otherwise the command line extended with the
/// array identifier, the preload modules, and fixed defaults.
pub open spec fn spec_grub_config(bootable: bool, cur: Seq<char>) -> Seq<char> {
    if !bootable {
        Seq::empty()
    } else {
        let cmdline = if cur.len() == 0 {
            "rd.md.uuid="@ + spec_raid_uuid()
        } else {
            cur + " rd.md.uuid="@ + spec_raid_uuid()
        };
        "GRUB_CMDLINE_LINUX=\""@ + cmdline + "\"\n"@ + "GRUB_PRELOAD_MODULES=\"mdraid09 mdraid1x\"\n"@
            + "GRUB_TIMEOUT=5\n"@ + "GRUB_DEFAULT=0\n"@ + "GRUB_DISTRIBUTOR=\"RAID Provision\"\n"@
    }
}

/// The numeric level tag written into the setup script.
pub open spec fn spec_script_level_tag(level: RaidLevel) -> Seq<char> {
    match level {
        RaidLevel::Raid0 => "0"@,
        RaidLevel::Raid1 => "1"@,
        RaidLevel::Raid5 => "5"@,
        RaidLevel::Raid6 => "6"@,
        RaidLevel::Raid10 => "10"@,
        RaidLevel::Single => "0"@,
    }
}

/// The numeric level tag written into the setup script.
pub fn script_level_tag(level: &RaidLevel) -> (tag: &'static str)
    ensures
        tag@ == spec_script_level_tag(*level),
{
    match level {
        RaidLevel::Raid0 => "0",
        RaidLevel::Raid1 => "1",
        RaidLevel::Raid5 => "5",
        RaidLevel::Raid6 => "6",
        RaidLevel::Raid10 => "10",
        RaidLevel::Single => "0",
    }
}

/// The whole setup script for an array: create, wait, format, mount, and
/// record in fstab, echoing each stage.
pub open spec fn spec_raid_script(
    level: RaidLevel,
    n_devices: int,
    uuids: Seq<Seq<char>>,
    fs: Seq<char>,
) -> Seq<char> {
    "#!/bin/bash\n# RAID Setup Script\n# Generated by RAID Provisioning Tool\n\nset -e\n\n"@
        + "echo \"Creating "@ + level.spec_display_name() + " array...\"\n"@
        + "mdadm --create /dev/md0 --level="@ + spec_script_level_tag(level) + " --raid-devices="@
        + dec_digits(n_devices) + " "@ + join_spaces_spec(uuids) + "\n\n"@
        + "echo \"Waiting for RAID array to initialize...\"\nsleep 5\n\n"@ + "echo \"Creating "@
        + fs + " filesystem...\"\n"@ + "mkfs."@ + fs + " /dev/md0\n\n"@
        + "echo \"Creating mount point...\"\nmkdir -p /mnt/raid\n\n"@
        + "echo \"Mounting RAID array...\"\nmount /dev/md0 /mnt/raid\n\n"@
        + "echo \"Adding to fstab...\"\necho '/dev/md0 /mnt/raid "@ + fs
        + " defaults 0 2' >> /etc/fstab\n\n"@
        + "echo \"RAID setup completed successfully!\"\necho \"RAID array mounted at /mnt/raid\"\n"@
}

/// The filesystem name the generated script and fstab entry use: the
/// selection, or ext4 when none, folded to lower case.
pub open spec fn spec_selected_fs(selected: Option<Seq<char>>) -> Seq<char> {
    match selected {
        Some(s) => ascii_lower(s),
        None => ascii_lower("ext4"@),
    }
}

/// The mount-point suffix for a level, its display name lowered and
/// unspaced.
pub open spec fn spec_mount_tag(level: RaidLevel) -> Seq<char> {
    match level {
        RaidLevel::Single => "none"@,
        RaidLevel::Raid0 => "raid0"@,
        RaidLevel::Raid1 => "raid1"@,
        RaidLevel::Raid5 => "raid5"@,
        RaidLevel::Raid6 => "raid6"@,
        RaidLevel::Raid10 => "raid10"@,
    }
}

/// The mount-point suffix for a level.
pub fn mount_tag(level: &RaidLevel) -> (tag: &'static str)
    ensures
        tag@ == spec_mount_tag(*level),
{
    match level {
        RaidLevel::Single => "none",
        RaidLevel::Raid0 => "raid0",
        RaidLevel::Raid1 => "raid1",
        RaidLevel::Raid5 => "raid5",
        RaidLevel::Raid6 => "raid6",
        RaidLevel::Raid10 => "raid10",
    }
}

/// The mount options recorded for a filesystem name.
pub open spec fn spec_fstab_options(fs: Seq<char>) -> Seq<char> {
    if fs == "ext4"@ || fs == "ext3"@ || fs == "ext2"@ {
        "defaults"@
    } else if fs == "xfs"@ {
        "defaults,noatime"@
    } else if fs == "btrfs"@ {
        "defaults,compress=zstd"@
    } else if fs == "ntfs"@ {
        "defaults,uid=1000,gid=1000"@
    } else if fs == "fat32"@ {
        "defaults,uid=1000,gid=1000,umask=022"@
    } else {
        "defaults"@
    }
}

/// The mount options recorded for a filesystem name.
pub fn fstab_options(fs: &str) -> (opts: &'static str)
    ensures
        opts@ == spec_fstab_options(fs@),
{
    if str_eq(fs, "ext4") || str_eq(fs, "ext3") || str_eq(fs, "ext2") {
        "defaults"
    } else if str_eq(fs, "xfs") {
        "defaults,noatime"
    } else if str_eq(fs, "btrfs") {
        "defaults,compress=zstd"
    } else if str_eq(fs, "ntfs") {
        "defaults,uid=1000,gid=1000"
    } else if str_eq(fs, "fat32") {
        "defaults,uid=1000,gid=1000,umask=022"
    } else {
        "defaults"
    }
}

/// The fstab entry recorded for a plan: a descriptive comment and the
/// mount line for the array device.
pub open spec fn spec_fstab_entry(
    level: RaidLevel,
    fs_label: Seq<char>,
    n_devices: int,
) -> Seq<char> {
    let fs = ascii_lower(fs_label);
    "\n# RAID "@ + level.spec_display_name() + " Configuration - "@ + fs_label
        + " filesystem on "@ + dec_digits(n_devices) + " devices\n"@ + "/dev/md0 /mnt/raid_"@
        + spec_mount_tag(level) + " "@ + fs + " "@ + spec_fstab_options(fs) + " 0 2\n"@
}

/// The identifier a device is recorded under: its filesystem identifier
/// when the probe returned one, else the device path itself.
pub fn uuid_identifier(device: &String, probed: &Option<String>) -> (r: String)
    ensures
        r@ == match probed.deep_view() {
            Some(u) => if trim_spec(u).len() > 0 {
                "UUID="@ + trim_spec(u)
            } else {
                device@
            },
            None => device@,
        },
{
    match probed {
        Some(u) => {
            let t = str_trim(u.as_str());
            if t.as_str().is_empty() {
                device.clone()
            } else {
                let mut r = String::from_str("UUID=");
                r.append(t.as_str());
                r
            }
        },
        None => device.clone(),
    }
}

impl RaidCtlApp {
    /// Fresh state: nothing discovered, nothing selected but the default
    /// filesystem, an empty buffer, safe flags.
    pub fn new() -> (app: RaidCtlApp)
        ensures
            app.devices@.len() == 0,
            app.selected_devices@.len() == 0,
            app.selected_raid_level is None,
            app.selected_filesystem.deep_view() == Some("ext4"@),
            app.bootable_flag == false,
            app.status@ == "Ready"@,
            app.grub_config@ == Seq::<char>::empty(),
            app.show_grub_config == false,
            app.refresh_requested == true,
            app.current_plan is None,
            app.detected_raid_entries@.len() == 0,
            app.is_live_environment == false,
            app.available_tools.fdisk == false && app.available_tools.parted == false
                && app.available_tools.gparted == false && app.available_tools.gnome_disks
                == false,
    {
        RaidCtlApp {
            devices: Vec::new(),
            selected_devices: Vec::new(),
            selected_raid_level: None,
            selected_filesystem: Some(String::from_str("ext4")),
            bootable_flag: false,
            status: String::from_str("Ready"),
            grub_config: String::new(),
            show_grub_config: false,
            refresh_requested: true,
            current_plan: None,
            detected_raid_entries: Vec::new(),
            is_live_environment: false,
            available_tools: AvailableTools {
                fdisk: false,
                parted: false,
                gparted: false,
                gnome_disks: false,
            },
        }
    }

    /// Scan the buffer for configuration blocks and remember them.
    /// Everything but the detected list is left as it was, and the list is
    /// a function of the buffer alone: scanning an unchanged buffer again
    /// finds the identical blocks.
    pub fn parse_raid_entries(&mut self)
        ensures
            final(self).detected_raid_entries.deep_view() == spec_parse_from(
                lines_of(old(self).grub_config@),
                0,
            ),
            final(self).grub_config == old(self).grub_config,
            final(self).devices == old(self).devices,
            final(self).selected_devices == old(self).selected_devices,
            final(self).selected_raid_level == old(self).selected_raid_level,
            final(self).selected_filesystem == old(self).selected_filesystem,
            final(self).bootable_flag == old(self).bootable_flag,
            final(self).status == old(self).status,
            final(self).show_grub_config == old(self).show_grub_config,
            final(self).refresh_requested == old(self).refresh_requested,
            final(self).current_plan == old(self).current_plan,
            final(self).is_live_environment == old(self).is_live_environment,
            final(self).available_tools == old(self).available_tools,
    {
        let lines = split_lines(self.grub_config.as_str());
        self.detected_raid_entries = parse_entry_list(&lines);
    }

    /// Remove the block at `entry_index` from the buffer: its lines from
    /// start through end go, trailing blank lines collapse to at most one,
    /// the plan is cleared, the buffer is re-scanned, and the status names
    /// the removed block.  An index outside the detected list is a silent
    /// no-op: nothing at all changes.  The detected list must come from a
    /// scan of the current buffer: offsets of a stale scan are invalid.
    pub fn remove_raid_entry(&mut self, entry_index: usize)
        requires
            old(self).detected_raid_entries.deep_view() == spec_parse_from(
                lines_of(old(self).grub_config@),
                0,
            ),
        ensures
            entry_index >= old(self).detected_raid_entries@.len() ==> *final(self) == *old(
                self,
            ),
            entry_index < old(self).detected_raid_entries@.len() ==> {
                let v = old(self).detected_raid_entries.deep_view()[entry_index as int];
                let out = collapse_trailing(
                    remove_lines(lines_of(old(self).grub_config@), v.start_line, v.end_line),
                );
                &&& final(self).grub_config@ == join_lines_spec(out)
                &&& final(self).detected_raid_entries.deep_view() == spec_parse_from(
                    lines_of(final(self).grub_config@),
                    0,
                )
                &&& final(self).current_plan is None
                &&& final(self).status@ == "Removed RAID entry: "@ + v.header_comment
                &&& final(self).devices == old(self).devices
                &&& final(self).selected_devices == old(self).selected_devices
                &&& final(self).selected_raid_level == old(self).selected_raid_level
                &&& final(self).selected_filesystem == old(self).selected_filesystem
                &&& final(self).bootable_flag == old(self).bootable_flag
                &&& final(self).show_grub_config == old(self).show_grub_config
                &&& final(self).refresh_requested == old(self).refresh_requested
                &&& final(self).is_live_environment == old(self).is_live_environment
                &&& final(self).available_tools == old(self).available_tools
            },
    {
        if entry_index < self.detected_raid_entries.len() {
            let entry_header = self.detected_raid_entries[entry_index].header_comment.clone();
            let start_line = self.detected_raid_entries[entry_index].start_line;
            let end_line = self.detected_raid_entries[entry_index].end_line;

            let lines = split_lines(self.grub_config.as_str());
            proof {
                lemma_parse_entry_bounds(lines_of(self.grub_config@), 0);
                assert(self.detected_raid_entries.deep_view()[entry_index as int]
                    == self.detected_raid_entries@[entry_index as int]@);
            }
            let mut new_lines = remove_line_range(&lines, start_line, end_line);
            collapse_trailing_blanks(&mut new_lines);
            self.grub_config = join_lines(&new_lines);
            self.current_plan = None;
            self.parse_raid_entries();
            let mut status = String::from_str("Removed RAID entry: ");
            status.append(entry_header.as_str());
            self.status = status;
        }
    }

    /// The current kernel command line of the buffer, or the common
    /// default when no line assigns one.
    pub fn extract_grub_cmdline(&self) -> (r: String)
        ensures
            r@ == spec_extract_cmdline(lines_of(self.grub_config@), 0),
    {
        let lines = split_lines(self.grub_config.as_str());
        let ghost lv = lines_of(self.grub_config@);
        let n = lines.len();
        let mut i: usize = 0;
        while i < n
            invariant
                i <= n,
                n == lines@.len(),
                lines.deep_view() == lv,
                lv == lines_of(self.grub_config@),
                lv.len() == n,
                spec_extract_cmdline(lv, 0) == spec_extract_cmdline(lv, i as int),
            decreases n - i,
        {
            proof {
                assert(lv[i as int] == lines@[i as int]@);
            }
            let l = lines[i].as_str();
            if str_starts_with(l, "GRUB_CMDLINE_LINUX=") {
                let fo = str_find_char(l, '"');
                let go = str_rfind_char(l, '"');
                proof {
                    lemma_first_quote(lv[i as int]);
                    lemma_last_quote(lv[i as int]);
                }
                match (fo, go) {
                    (Some(f), Some(g)) => {
                        proof {
                            let fq = first_quote(lv[i as int]);
                            if fq < f {
                                assert(l@[fq] == '"');
                            }
                            if fq > f {
                                assert(l@[f as int] != '"');
                            }
                            assert(fq == f as int);
                            let gq = last_quote(lv[i as int]);
                            if gq > g {
                                assert(l@[gq] == '"');
                            }
                            if gq < g {
                                assert(l@[g as int] != '"');
                            }
                            assert(gq == g as int);
                        }
                        if f < g {
                            let r = String::from_str(l.substring_char(f + 1, g));
                            proof {
                                assert(r@ == lv[i as int].subrange(f + 1, g as int));
                                assert(cmdline_of_line(lv[i as int]) == Some(r@));
                                assert(spec_extract_cmdline(lv, i as int) == r@);
                            }
                            return r;
                        }
                    },
                    (None, _) => {
                        proof {
                            assert(first_quote(lv[i as int]) == -1);
                        }
                    },
                    (Some(f), None) => {
                        proof {
                            assert(l@[f as int] == '"');
                            assert(false);
                        }
                    },
                }
            }
            proof {
                assert(cmdline_of_line(lv[i as int]) is None);
            }
            i = i + 1;
        }
        proof {
            reveal_strlit("rhgb quiet");
        }
        String::from_str("rhgb quiet")
    }

    /// The placeholder array identifier for generated configuration.
    pub fn generate_raid_uuid(&self) -> (r: String)
        ensures
            r@ == spec_raid_uuid(),
    {
        String::from_str("xxxxxxxx-xxxx-xxxx-xxxx-xxxxxxxxxxxx")
    }

    /// Generate the minimal bootable configuration for the current state:
    /// empty unless the bootable flag is set.  Never fails; the state is
    /// left untouched.
    pub fn generate_grub_config(
        &mut self,
        raid_level: &RaidLevel,
        devices: &Vec<String>,
    ) -> (r: Result<String, RaidError>)
        ensures
            *final(self) == *old(self),
            match r {
                Ok(s) => s@ == spec_grub_config(
                    old(self).bootable_flag,
                    spec_extract_cmdline(lines_of(old(self).grub_config@), 0),
                ),
                Err(_) => false,
            },
    {
        let mut config = String::new();
        if self.bootable_flag {
            let raid_uuid = self.generate_raid_uuid();
            let current_cmdline = self.extract_grub_cmdline();
            let mut new_cmdline = String::new();
            if current_cmdline.as_str().is_empty() {
                new_cmdline.append("rd.md.uuid=");
                new_cmdline.append(raid_uuid.as_str());
            } else {
                new_cmdline.append(current_cmdline.as_str());
                new_cmdline.append(" rd.md.uuid=");
                new_cmdline.append(raid_uuid.as_str());
            }
            config.append("GRUB_CMDLINE_LINUX=\"");
            config.append(new_cmdline.as_str());
            config.append("\"\n");
            config.append("GRUB_PRELOAD_MODULES=\"mdraid09 mdraid1x\"\n");
            config.append("GRUB_TIMEOUT=5\n");
            config.append("GRUB_DEFAULT=0\n");
            config.append("GRUB_DISTRIBUTOR=\"RAID Provision\"\n");
            proof {
                assert(config@ =~= spec_grub_config(
                    self.bootable_flag,
                    spec_extract_cmdline(lines_of(self.grub_config@), 0),
                ));
            }
        } else {
            proof {
                assert(config@ =~= spec_grub_config(
                    self.bootable_flag,
                    spec_extract_cmdline(lines_of(self.grub_config@), 0),
                ));
            }
        }
        Ok(config)
    }

    /// Generate the setup script for an array over the given devices,
    /// recorded under the given identifiers.  Never fails; the state is
    /// left untouched.
    pub fn generate_raid_script(
        &self,
        raid_level: &RaidLevel,
        devices: &Vec<String>,
        device_uuids: &Vec<String>,
    ) -> (r: Result<String, RaidError>)
        ensures
            match r {
                Ok(s) => s@ == spec_raid_script(
                    *raid_level,
                    devices@.len() as int,
                    device_uuids.deep_view(),
                    spec_selected_fs(self.selected_filesystem.deep_view()),
                ),
                Err(_) => false,
            },
    {
        let filesystem = match &self.selected_filesystem {
            Some(s) => str_to_ascii_lowercase(s.as_str()),
            None => str_to_ascii_lowercase("ext4"),
        };
        let mut script = String::new();
        script.append("#!/bin/bash\n# RAID Setup Script\n# Generated by RAID Provisioning Tool\n\nset -e\n\n");
        script.append("echo \"Creating ");
        script.append(raid_level.display_name());
        script.append(" array...\"\n");
        script.append("mdadm --create /dev/md0 --level=");
        script.append(script_level_tag(raid_level));
        script.append(" --raid-devices=");
        let n_str = usize_to_string(devices.len());
        script.append(n_str.as_str());
        script.append(" ");
        let joined = join_spaces(device_uuids);
        script.append(joined.as_str());
        script.append("\n\n");
        script.append("echo \"Waiting for RAID array to initialize...\"\nsleep 5\n\n");
        script.append("echo \"Creating ");
        script.append(filesystem.as_str());
        script.append(" filesystem...\"\n");
        script.append("mkfs.");
        script.append(filesystem.as_str());
        script.append(" /dev/md0\n\n");
        script.append("echo \"Creating mount point...\"\nmkdir -p /mnt/raid\n\n");
        script.append("echo \"Mounting RAID array...\"\nmount /dev/md0 /mnt/raid\n\n");
        script.append("echo \"Adding to fstab...\"\necho '/dev/md0 /mnt/raid ");
        script.append(filesystem.as_str());
        script.append(" defaults 0 2' >> /etc/fstab\n\n");
        script.append(
            "echo \"RAID setup completed successfully!\"\necho \"RAID array mounted at /mnt/raid\"\n",
        );
        proof {
            assert(script@ =~= spec_raid_script(
                *raid_level,
                devices@.len() as int,
                device_uuids.deep_view(),
                spec_selected_fs(self.selected_filesystem.deep_view()),
            ));
        }
        Ok(script)
    }

    /// The fstab entry for the current plan: a comment naming the level,
    /// filesystem, and device count, then the mount line.  Without a plan
    /// there is nothing to record and the call fails.
    pub fn fstab_entry(&self) -> (r: Result<String, RaidError>)
        ensures
            match r {
                Ok(s) => self.current_plan is Some && s@ == spec_fstab_entry(
                    (self.current_plan->0).0,
                    (self.current_plan->0).2@,
                    (self.current_plan->0).1@.len() as int,
                ),
                Err(e) => self.current_plan is None && (e matches RaidError::IoError(m)
                    && m@ == "No RAID configuration available to write to fstab"@),
            },
    {
        match &self.current_plan {
            Some(plan) => {
                let fs_label = &plan.2;
                let fs = str_to_ascii_lowercase(fs_label.as_str());
                let mut entry = String::new();
                entry.append("\n# RAID ");
                entry.append(plan.0.display_name());
                entry.append(" Configuration - ");
                entry.append(fs_label.as_str());
                entry.append(" filesystem on ");
                let n_str = usize_to_string(plan.1.len());
                entry.append(n_str.as_str());
                entry.append(" devices\n");
                entry.append("/dev/md0 /mnt/raid_");
                entry.append(mount_tag(&plan.0));
                entry.append(" ");
                entry.append(fs.as_str());
                entry.append(" ");
                entry.append(fstab_options(fs.as_str()));
                entry.append(" 0 2\n");
                proof {
                    assert(entry@ =~= spec_fstab_entry(
                        (self.current_plan->0).0,
                        (self.current_plan->0).2@,
                        (self.current_plan->0).1@.len() as int,
                    ));
                }
                Ok(entry)
            },
            None => Err(
                RaidError::IoError(String::from_str("No RAID configuration available to write to fstab")),
            ),
        }
    }
}

} // verus!
