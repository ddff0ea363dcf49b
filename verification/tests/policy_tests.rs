use raidctl::Config;
use raidctl::Filesystem;
use raidctl::RaidError;
use raidctl::RaidLevel;
use raidctl::RaidLevelCli;

#[test]
fn min_disks_per_level() {
    assert_eq!(RaidLevel::Single.min_disks(), 1);
    assert_eq!(RaidLevel::Raid0.min_disks(), 2);
    assert_eq!(RaidLevel::Raid1.min_disks(), 2);
    assert_eq!(RaidLevel::Raid5.min_disks(), 3);
    assert_eq!(RaidLevel::Raid6.min_disks(), 4);
    assert_eq!(RaidLevel::Raid10.min_disks(), 4);
}

#[test]
fn all_levels_in_stable_order() {
    let all = RaidLevel::all();
    assert_eq!(
        all,
        vec![
            RaidLevel::Single,
            RaidLevel::Raid0,
            RaidLevel::Raid1,
            RaidLevel::Raid5,
            RaidLevel::Raid6,
            RaidLevel::Raid10,
        ]
    );
}

#[test]
fn level_display_names_and_descriptions() {
    assert_eq!(RaidLevel::Single.display_name(), "None");
    assert_eq!(RaidLevel::Raid0.display_name(), "RAID 0");
    assert_eq!(RaidLevel::Raid10.display_name(), "RAID 10");
    assert_eq!(RaidLevel::Single.description(), "Single disk, no redundancy");
    assert_eq!(
        RaidLevel::Raid5.description(),
        "Striping with parity, fault tolerant"
    );
}

#[test]
fn cli_levels_convert() {
    assert_eq!(RaidLevel::from(RaidLevelCli::Single), RaidLevel::Single);
    assert_eq!(RaidLevel::from(RaidLevelCli::Raid0), RaidLevel::Raid0);
    assert_eq!(RaidLevel::from(RaidLevelCli::Raid10), RaidLevel::Raid10);
}

#[test]
fn filesystem_format_commands() {
    assert_eq!(
        Filesystem::Ext4.format_command("/dev/md0"),
        vec!["mkfs.ext4", "-F", "/dev/md0"]
    );
    assert_eq!(
        Filesystem::Xfs.format_command("/dev/md0"),
        vec!["mkfs.xfs", "-f", "/dev/md0"]
    );
    assert_eq!(
        Filesystem::Fat32.format_command("/dev/md1"),
        vec!["mkfs.fat", "-F32", "/dev/md1"]
    );
    assert_eq!(
        Filesystem::ExFat.format_command("/dev/md0"),
        vec!["mkfs.exfat", "/dev/md0"]
    );
}

#[test]
fn filesystem_names_and_descriptions() {
    assert_eq!(Filesystem::Ext4.display_name(), "ext4");
    assert_eq!(Filesystem::ReiserFs.display_name(), "reiserfs");
    assert_eq!(Filesystem::Ext4.description(), "Modern Linux journaling filesystem");
    assert_eq!(Filesystem::ExFat.description(), "Extended FAT for large files");
}

#[test]
fn filesystem_from_str_is_case_insensitive() {
    assert_eq!(Filesystem::from_str("ext4"), Some(Filesystem::Ext4));
    assert_eq!(Filesystem::from_str("EXT4"), Some(Filesystem::Ext4));
    assert_eq!(Filesystem::from_str("ExFaT"), Some(Filesystem::ExFat));
    assert_eq!(Filesystem::from_str("Btrfs"), Some(Filesystem::Btrfs));
    assert_eq!(Filesystem::from_str("zfs"), None);
    assert_eq!(Filesystem::from_str(""), None);
}

#[test]
fn all_filesystems_in_stable_order() {
    let all = Filesystem::all();
    assert_eq!(all.len(), 10);
    assert_eq!(all[0], Filesystem::Ext4);
    assert_eq!(all[9], Filesystem::ExFat);
}

#[test]
fn default_config_is_safe() {
    let c = Config::default();
    assert!(c.dry_run);
    assert_eq!(c.log_level, "info");
    assert!(c.backup_existing_configs);
    assert_eq!(c.target_mount, "/target");
    assert_eq!(c.grub_timeout, 5);
}

#[test]
fn error_messages() {
    assert_eq!(
        RaidError::DeviceNotFound("/dev/sdz".to_string()).message(),
        "Device not found: /dev/sdz"
    );
    assert_eq!(
        RaidError::InvalidRaidLevel("raid7".to_string()).message(),
        "Invalid RAID level: raid7"
    );
    assert_eq!(
        RaidError::InsufficientDisks {
            level: "Raid5".to_string(),
            required: 3,
            found: 2,
        }
        .message(),
        "Insufficient disks for RAID level Raid5: required 3, found 2"
    );
    assert_eq!(
        RaidError::IoError("broken pipe".to_string()).message(),
        "IO error: broken pipe"
    );
}
