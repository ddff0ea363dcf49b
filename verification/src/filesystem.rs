//! The closed set of supported filesystems, each with its fixed format
//! command template, display name, and description.

use vstd::prelude::*;
use vstd::string::*;

verus! {

/// A filesystem the array can be formatted with.
#[derive(Clone, Copy, Debug, PartialEq, Eq, Structural)]
pub enum Filesystem {
    Ext4,
    Ext3,
    Ext2,
    Xfs,
    Btrfs,
    ReiserFs,
    Jfs,
    Ntfs,
    Fat32,
    ExFat,
}

/// Lower-cased code point: ASCII letters fold, everything else is itself.
pub open spec fn lower_code(c: char) -> int {
    if 'A' <= c && c <= 'Z' {
        c as int + 32
    } else {
        c as int
    }
}

/// Equality up to ASCII case.
pub open spec fn ascii_eq_ignore_case(a: Seq<char>, b: Seq<char>) -> bool {
    a.len() == b.len() && forall|i: int| 0 <= i < a.len() ==> lower_code(a[i]) == lower_code(
        b[i],
    )
}

/// Compare two strings up to ASCII case.
pub fn str_eq_ignore_ascii_case(a: &str, b: &str) -> (r: bool)
    ensures
        r == ascii_eq_ignore_case(a@, b@),
{
    let n = a.unicode_len();
    let m = b.unicode_len();
    if n != m {
        return false;
    }
    let mut i: usize = 0;
    while i < n
        invariant
            n == a@.len(),
            n == b@.len(),
            i <= n,
            forall|j: int| 0 <= j < i ==> lower_code(a@[j]) == lower_code(b@[j]),
        decreases n - i,
    {
        let ca = a.get_char(i);
        let cb = b.get_char(i);
        let xa = ca as u32;
        let xb = cb as u32;
        let la: u32 = if 'A' <= ca && ca <= 'Z' {
            xa + 32
        } else {
            xa
        };
        let lb: u32 = if 'A' <= cb && cb <= 'Z' {
            xb + 32
        } else {
            xb
        };
        if la != lb {
            return false;
        }
        i = i + 1;
    }
    true
}

impl Filesystem {
    /// The argument list that formats `dev` with this filesystem.
    pub open spec fn spec_format_command(self, dev: Seq<char>) -> Seq<Seq<char>> {
        match self {
            Filesystem::Ext4 => seq!["mkfs.ext4"@, "-F"@, dev],
            Filesystem::Ext3 => seq!["mkfs.ext3"@, "-F"@, dev],
            Filesystem::Ext2 => seq!["mkfs.ext2"@, "-F"@, dev],
            Filesystem::Xfs => seq!["mkfs.xfs"@, "-f"@, dev],
            Filesystem::Btrfs => seq!["mkfs.btrfs"@, "-f"@, dev],
            Filesystem::ReiserFs => seq!["mkfs.reiserfs"@, "-f"@, dev],
            Filesystem::Jfs => seq!["mkfs.jfs"@, "-f"@, dev],
            Filesystem::Ntfs => seq!["mkfs.ntfs"@, "-f"@, dev],
            Filesystem::Fat32 => seq!["mkfs.fat"@, "-F32"@, dev],
            Filesystem::ExFat => seq!["mkfs.exfat"@, dev],
        }
    }

    /// Get the command to format a device with this filesystem.
    pub fn format_command(&self, device: &str) -> (cmd: Vec<String>)
        ensures
            cmd.deep_view() == self.spec_format_command(device@),
    {
        let mut cmd: Vec<String> = Vec::new();
        match self {
            Filesystem::Ext4 => {
                cmd.push(String::from_str("mkfs.ext4"));
                cmd.push(String::from_str("-F"));
            },
            Filesystem::Ext3 => {
                cmd.push(String::from_str("mkfs.ext3"));
                cmd.push(String::from_str("-F"));
            },
            Filesystem::Ext2 => {
                cmd.push(String::from_str("mkfs.ext2"));
                cmd.push(String::from_str("-F"));
            },
            Filesystem::Xfs => {
                cmd.push(String::from_str("mkfs.xfs"));
                cmd.push(String::from_str("-f"));
            },
            Filesystem::Btrfs => {
                cmd.push(String::from_str("mkfs.btrfs"));
                cmd.push(String::from_str("-f"));
            },
            Filesystem::ReiserFs => {
                cmd.push(String::from_str("mkfs.reiserfs"));
                cmd.push(String::from_str("-f"));
            },
            Filesystem::Jfs => {
                cmd.push(String::from_str("mkfs.jfs"));
                cmd.push(String::from_str("-f"));
            },
            Filesystem::Ntfs => {
                cmd.push(String::from_str("mkfs.ntfs"));
                cmd.push(String::from_str("-f"));
            },
            Filesystem::Fat32 => {
                cmd.push(String::from_str("mkfs.fat"));
                cmd.push(String::from_str("-F32"));
            },
            Filesystem::ExFat => {
                cmd.push(String::from_str("mkfs.exfat"));
            },
        }
        cmd.push(String::from_str(device));
        proof {
            assert(cmd.deep_view() =~= self.spec_format_command(device@));
        }
        cmd
    }

    /// The lower-case name of the filesystem.
    pub open spec fn spec_display_name(self) -> Seq<char> {
        match self {
            Filesystem::Ext4 => "ext4"@,
            Filesystem::Ext3 => "ext3"@,
            Filesystem::Ext2 => "ext2"@,
            Filesystem::Xfs => "xfs"@,
            Filesystem::Btrfs => "btrfs"@,
            Filesystem::ReiserFs => "reiserfs"@,
            Filesystem::Jfs => "jfs"@,
            Filesystem::Ntfs => "ntfs"@,
            Filesystem::Fat32 => "fat32"@,
            Filesystem::ExFat => "exfat"@,
        }
    }

    /// Get the display name for this filesystem.
    pub fn display_name(&self) -> (name: &'static str)
        ensures
            name@ == self.spec_display_name(),
    {
        match self {
            Filesystem::Ext4 => "ext4",
            Filesystem::Ext3 => "ext3",
            Filesystem::Ext2 => "ext2",
            Filesystem::Xfs => "xfs",
            Filesystem::Btrfs => "btrfs",
            Filesystem::ReiserFs => "reiserfs",
            Filesystem::Jfs => "jfs",
            Filesystem::Ntfs => "ntfs",
            Filesystem::Fat32 => "fat32",
            Filesystem::ExFat => "exfat",
        }
    }

    /// The short fixed description.
    pub open spec fn spec_description(self) -> Seq<char> {
        match self {
            Filesystem::Ext4 => "Modern Linux journaling filesystem"@,
            Filesystem::Ext3 => "Legacy Linux journaling filesystem"@,
            Filesystem::Ext2 => "Basic Linux filesystem, no journaling"@,
            Filesystem::Xfs => "High performance journaling filesystem"@,
            Filesystem::Btrfs => "Advanced filesystem with snapshots"@,
            Filesystem::ReiserFs => "Legacy journaling filesystem for Linux"@,
            Filesystem::Jfs => "IBM journaled filesystem for Linux"@,
            Filesystem::Ntfs => "Windows native filesystem format"@,
            Filesystem::Fat32 => "Universal compatibility filesystem format"@,
            Filesystem::ExFat => "Extended FAT for large files"@,
        }
    }

    /// Get short description for the filesystem (6 words max).
    pub fn description(&self) -> (text: &'static str)
        ensures
            text@ == self.spec_description(),
    {
        match self {
            Filesystem::Ext4 => "Modern Linux journaling filesystem",
            Filesystem::Ext3 => "Legacy Linux journaling filesystem",
            Filesystem::Ext2 => "Basic Linux filesystem, no journaling",
            Filesystem::Xfs => "High performance journaling filesystem",
            Filesystem::Btrfs => "Advanced filesystem with snapshots",
            Filesystem::ReiserFs => "Legacy journaling filesystem for Linux",
            Filesystem::Jfs => "IBM journaled filesystem for Linux",
            Filesystem::Ntfs => "Windows native filesystem format",
            Filesystem::Fat32 => "Universal compatibility filesystem format",
            Filesystem::ExFat => "Extended FAT for large files",
        }
    }

    /// Which filesystem a name denotes, up to ASCII case.
    pub open spec fn spec_from_str(s: Seq<char>) -> Option<Filesystem> {
        if ascii_eq_ignore_case(s, "ext4"@) {
            Some(Filesystem::Ext4)
        } else if ascii_eq_ignore_case(s, "ext3"@) {
            Some(Filesystem::Ext3)
        } else if ascii_eq_ignore_case(s, "ext2"@) {
            Some(Filesystem::Ext2)
        } else if ascii_eq_ignore_case(s, "xfs"@) {
            Some(Filesystem::Xfs)
        } else if ascii_eq_ignore_case(s, "btrfs"@) {
            Some(Filesystem::Btrfs)
        } else if ascii_eq_ignore_case(s, "reiserfs"@) {
            Some(Filesystem::ReiserFs)
        } else if ascii_eq_ignore_case(s, "jfs"@) {
            Some(Filesystem::Jfs)
        } else if ascii_eq_ignore_case(s, "ntfs"@) {
            Some(Filesystem::Ntfs)
        } else if ascii_eq_ignore_case(s, "fat32"@) {
            Some(Filesystem::Fat32)
        } else if ascii_eq_ignore_case(s, "exfat"@) {
            Some(Filesystem::ExFat)
        } else {
            None
        }
    }

    /// Parse filesystem from string, case-insensitively.
    pub fn from_str(s: &str) -> (r: Option<Filesystem>)
        ensures
            r == Filesystem::spec_from_str(s@),
    {
        if str_eq_ignore_ascii_case(s, "ext4") {
            Some(Filesystem::Ext4)
        } else if str_eq_ignore_ascii_case(s, "ext3") {
            Some(Filesystem::Ext3)
        } else if str_eq_ignore_ascii_case(s, "ext2") {
            Some(Filesystem::Ext2)
        } else if str_eq_ignore_ascii_case(s, "xfs") {
            Some(Filesystem::Xfs)
        } else if str_eq_ignore_ascii_case(s, "btrfs") {
            Some(Filesystem::Btrfs)
        } else if str_eq_ignore_ascii_case(s, "reiserfs") {
            Some(Filesystem::ReiserFs)
        } else if str_eq_ignore_ascii_case(s, "jfs") {
            Some(Filesystem::Jfs)
        } else if str_eq_ignore_ascii_case(s, "ntfs") {
            Some(Filesystem::Ntfs)
        } else if str_eq_ignore_ascii_case(s, "fat32") {
            Some(Filesystem::Fat32)
        } else if str_eq_ignore_ascii_case(s, "exfat") {
            Some(Filesystem::ExFat)
        } else {
            None
        }
    }

    /// The stable ordering in which the filesystems are offered.
    pub open spec fn spec_all() -> Seq<Filesystem> {
        seq![
            Filesystem::Ext4,
            Filesystem::Ext3,
            Filesystem::Ext2,
            Filesystem::Xfs,
            Filesystem::Btrfs,
            Filesystem::ReiserFs,
            Filesystem::Jfs,
            Filesystem::Ntfs,
            Filesystem::Fat32,
            Filesystem::ExFat,
        ]
    }

    /// Get all supported filesystem types, in stable order.
    pub fn all() -> (list: Vec<Filesystem>)
        ensures
            list@ == Filesystem::spec_all(),
    {
        let mut list: Vec<Filesystem> = Vec::new();
        list.push(Filesystem::Ext4);
        list.push(Filesystem::Ext3);
        list.push(Filesystem::Ext2);
        list.push(Filesystem::Xfs);
        list.push(Filesystem::Btrfs);
        list.push(Filesystem::ReiserFs);
        list.push(Filesystem::Jfs);
        list.push(Filesystem::Ntfs);
        list.push(Filesystem::Fat32);
        list.push(Filesystem::ExFat);
        proof {
            assert(list@ =~= Filesystem::spec_all());
        }
        list
    }
}

} // verus!
