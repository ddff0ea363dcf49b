use raidctl::grub::uuid_identifier;
use raidctl::mdstat::parse_mdstat_arrays;
use raidctl::mdstat::parse_member_devices;
use raidctl::RaidCtlApp;
use raidctl::RaidLevel;

fn app_with(buffer: &str) -> RaidCtlApp {
    let mut app = RaidCtlApp::new();
    app.grub_config = buffer.to_string();
    app.parse_raid_entries();
    app
}

const ONE_BLOCK: &str = "GRUB_DEFAULT=0\n# Provisioned RAID1 EXT4 2x Setup #\nGRUB_CMDLINE_LINUX=\"quiet\"\n# EOP\nGRUB_TIMEOUT=5\n";

#[test]
fn parse_finds_a_marked_block() {
    let app = app_with(ONE_BLOCK);
    assert_eq!(app.detected_raid_entries.len(), 1);
    let e = &app.detected_raid_entries[0];
    assert_eq!(e.start_line, 1);
    assert_eq!(e.end_line, 3);
    assert_eq!(e.raid_level, "RAID1");
    assert_eq!(e.filesystem, "EXT4");
    assert_eq!(e.device_count, 2);
    assert_eq!(e.header_comment, "# Provisioned RAID1 EXT4 2x Setup #");
}

#[test]
fn parse_without_markers_yields_no_blocks_and_is_stable() {
    let plain = "GRUB_DEFAULT=0\nGRUB_TIMEOUT=5\nGRUB_CMDLINE_LINUX=\"quiet splash\"\n";
    let mut app = app_with(plain);
    assert!(app.detected_raid_entries.is_empty());
    // parse, change nothing, parse again: the block list is identical
    let first = app.detected_raid_entries.clone();
    app.parse_raid_entries();
    assert_eq!(app.detected_raid_entries, first);
    assert_eq!(app.grub_config, plain);
}

#[test]
fn reparsing_an_unchanged_buffer_is_identical() {
    let mut app = app_with(ONE_BLOCK);
    let first = app.detected_raid_entries.clone();
    app.parse_raid_entries();
    assert_eq!(app.detected_raid_entries, first);
}

#[test]
fn block_without_end_marker_is_single_line() {
    let app = app_with("# Provision raid5 XFS 4x #\nplain line\n");
    assert_eq!(app.detected_raid_entries.len(), 1);
    let e = &app.detected_raid_entries[0];
    assert_eq!(e.start_line, 0);
    assert_eq!(e.end_line, 0);
    assert_eq!(e.raid_level, "raid5");
    assert_eq!(e.filesystem, "XFS");
    assert_eq!(e.device_count, 4);
}

#[test]
fn header_defaults_when_tokens_are_absent() {
    let app = app_with("# Provision of the raid thing #\nx\n# End\n");
    assert_eq!(app.detected_raid_entries.len(), 1);
    let e = &app.detected_raid_entries[0];
    assert_eq!(e.raid_level, "raid");
    assert_eq!(e.filesystem, "Unknown");
    assert_eq!(e.device_count, 0);
}

#[test]
fn removing_the_only_block_leaves_none() {
    let mut app = app_with(ONE_BLOCK);
    assert_eq!(app.detected_raid_entries.len(), 1);
    app.remove_raid_entry(0);
    assert!(app.detected_raid_entries.is_empty());
    assert_eq!(app.grub_config, "GRUB_DEFAULT=0\nGRUB_TIMEOUT=5");
    assert!(app.current_plan.is_none());
    assert_eq!(
        app.status,
        "Removed RAID entry: # Provisioned RAID1 EXT4 2x Setup #"
    );
    // at most one trailing blank line remains
    let lines: Vec<&str> = app.grub_config.lines().collect();
    let n = lines.len();
    assert!(!(n > 1 && lines[n - 1].trim().is_empty() && lines[n - 2].trim().is_empty()));
}

#[test]
fn removal_collapses_trailing_blank_lines() {
    let buffer = "keep\n# Provision RAID0 2x #\n# EOP\n\n\n\n";
    let mut app = app_with(buffer);
    assert_eq!(app.detected_raid_entries.len(), 1);
    app.remove_raid_entry(0);
    assert!(app.detected_raid_entries.is_empty());
    assert_eq!(app.grub_config, "keep\n");
}

#[test]
fn out_of_range_removal_is_a_no_op() {
    let mut app = app_with(ONE_BLOCK);
    let entries_before = app.detected_raid_entries.clone();
    let buffer_before = app.grub_config.clone();
    let status_before = app.status.clone();
    app.remove_raid_entry(7);
    assert_eq!(app.grub_config, buffer_before);
    assert_eq!(app.detected_raid_entries, entries_before);
    assert_eq!(app.status, status_before);
    // a fresh parse sees the same blocks, byte for byte the same buffer
    app.parse_raid_entries();
    assert_eq!(app.detected_raid_entries, entries_before);
}

#[test]
fn two_blocks_parse_and_remove_first() {
    let buffer = "# Provision RAID1 EXT4 2x #\nline a\n# EOP\nmiddle\n# Provision RAID5 XFS 3x #\nline b\n# End of block\nrest\n";
    let mut app = app_with(buffer);
    assert_eq!(app.detected_raid_entries.len(), 2);
    assert_eq!(app.detected_raid_entries[0].raid_level, "RAID1");
    assert_eq!(app.detected_raid_entries[1].raid_level, "RAID5");
    assert_eq!(app.detected_raid_entries[1].start_line, 4);
    assert_eq!(app.detected_raid_entries[1].end_line, 6);
    app.remove_raid_entry(0);
    assert_eq!(app.detected_raid_entries.len(), 1);
    assert_eq!(app.detected_raid_entries[0].raid_level, "RAID5");
    assert_eq!(
        app.grub_config,
        "middle\n# Provision RAID5 XFS 3x #\nline b\n# End of block\nrest"
    );
}

#[test]
fn extract_cmdline_between_quotes() {
    let mut app = RaidCtlApp::new();
    app.grub_config =
        "GRUB_DEFAULT=0\nGRUB_CMDLINE_LINUX_DEFAULT=\"quiet splash\"\nGRUB_CMDLINE_LINUX=\"quiet splash mitigations=off\"\n"
            .to_string();
    assert_eq!(app.extract_grub_cmdline(), "quiet splash mitigations=off");
}

#[test]
fn extract_cmdline_default_when_absent() {
    let mut app = RaidCtlApp::new();
    app.grub_config = "GRUB_DEFAULT=0\n".to_string();
    assert_eq!(app.extract_grub_cmdline(), "rhgb quiet");
    // a matching line without two quotes is passed over
    app.grub_config = "GRUB_CMDLINE_LINUX=unquoted\n".to_string();
    assert_eq!(app.extract_grub_cmdline(), "rhgb quiet");
}

#[test]
fn generated_grub_config_empty_unless_bootable() {
    let mut app = RaidCtlApp::new();
    let devices = vec!["/dev/sda".to_string(), "/dev/sdb".to_string()];
    let config = app
        .generate_grub_config(&RaidLevel::Raid1, &devices)
        .unwrap();
    assert_eq!(config, "");
}

#[test]
fn generated_grub_config_extends_cmdline() {
    let mut app = RaidCtlApp::new();
    app.bootable_flag = true;
    app.grub_config = "GRUB_CMDLINE_LINUX=\"quiet\"\n".to_string();
    let devices = vec!["/dev/sda".to_string(), "/dev/sdb".to_string()];
    let config = app
        .generate_grub_config(&RaidLevel::Raid1, &devices)
        .unwrap();
    let expected = "GRUB_CMDLINE_LINUX=\"quiet rd.md.uuid=xxxxxxxx-xxxx-xxxx-xxxx-xxxxxxxxxxxx\"\nGRUB_PRELOAD_MODULES=\"mdraid09 mdraid1x\"\nGRUB_TIMEOUT=5\nGRUB_DEFAULT=0\nGRUB_DISTRIBUTOR=\"RAID Provision\"\n";
    assert_eq!(config, expected);
}

#[test]
fn generated_script_lists_stages() {
    let app = RaidCtlApp::new();
    let devices = vec!["/dev/sda".to_string(), "/dev/sdb".to_string()];
    let uuids = vec!["UUID=1111".to_string(), "/dev/sdb".to_string()];
    let script = app
        .generate_raid_script(&RaidLevel::Raid1, &devices, &uuids)
        .unwrap();
    let expected = format!(
        "#!/bin/bash\n# RAID Setup Script\n# Generated by RAID Provisioning Tool\n\nset -e\n\n\
         echo \"Creating RAID 1 array...\"\n\
         mdadm --create /dev/md0 --level=1 --raid-devices=2 UUID=1111 /dev/sdb\n\n\
         echo \"Waiting for RAID array to initialize...\"\nsleep 5\n\n\
         echo \"Creating ext4 filesystem...\"\nmkfs.ext4 /dev/md0\n\n\
         echo \"Creating mount point...\"\nmkdir -p /mnt/raid\n\n\
         echo \"Mounting RAID array...\"\nmount /dev/md0 /mnt/raid\n\n\
         echo \"Adding to fstab...\"\necho '/dev/md0 /mnt/raid ext4 defaults 0 2' >> /etc/fstab\n\n\
         echo \"RAID setup completed successfully!\"\necho \"RAID array mounted at /mnt/raid\"\n"
    );
    assert_eq!(script, expected);
}

#[test]
fn fstab_entry_for_current_plan() {
    let mut app = RaidCtlApp::new();
    app.current_plan = Some((
        RaidLevel::Raid1,
        vec!["/dev/sda".to_string(), "/dev/sdb".to_string()],
        "EXT4".to_string(),
        false,
    ));
    let entry = app.fstab_entry().unwrap();
    assert_eq!(
        entry,
        "\n# RAID RAID 1 Configuration - EXT4 filesystem on 2 devices\n/dev/md0 /mnt/raid_raid1 ext4 defaults 0 2\n"
    );
}

#[test]
fn fstab_entry_options_vary_with_filesystem() {
    let mut app = RaidCtlApp::new();
    app.current_plan = Some((
        RaidLevel::Raid10,
        vec!["a".to_string(), "b".to_string(), "c".to_string(), "d".to_string()],
        "btrfs".to_string(),
        true,
    ));
    let entry = app.fstab_entry().unwrap();
    assert_eq!(
        entry,
        "\n# RAID RAID 10 Configuration - btrfs filesystem on 4 devices\n/dev/md0 /mnt/raid_raid10 btrfs defaults,compress=zstd 0 2\n"
    );
}

#[test]
fn fstab_entry_without_plan_fails() {
    let app = RaidCtlApp::new();
    let err = app.fstab_entry().unwrap_err();
    assert_eq!(
        err.message(),
        "IO error: No RAID configuration available to write to fstab"
    );
}

#[test]
fn mdstat_reports_active_arrays() {
    let text = "Personalities : [raid1] [raid6]\nmd0 : active raid1 sdb[1] sda[0]\n      976630464 blocks super 1.2 [2/2] [UU]\nmd127 : active raid5 sdc[0] sdd[1] sde[2]\nunused devices: <none>\n";
    let arrays = parse_mdstat_arrays(text);
    assert_eq!(arrays, vec!["/dev/md0".to_string(), "/dev/md127".to_string()]);
}

#[test]
fn mdstat_ignores_idle_and_other_lines() {
    let text = "Personalities :\nmd2 : idle sda[0]\nsomething active elsewhere\n";
    let arrays = parse_mdstat_arrays(text);
    assert!(arrays.is_empty());
}

#[test]
fn detail_lists_member_devices() {
    let text = "    Number   Major   Minor   RaidDevice State\n       0       8        0        0      active sync   /dev/sda\n       1       8       16        1      active sync   /dev/sdb\n       2       8       32        -      spare   /dev/sdc\n       3       8       48        2      faulty   /dev/sdd\n";
    let members = parse_member_devices(text);
    assert_eq!(
        members,
        vec!["/dev/sda".to_string(), "/dev/sdb".to_string(), "/dev/sdc".to_string()]
    );
}

#[test]
fn empty_buffer_has_no_blocks() {
    let app = app_with("");
    assert!(app.detected_raid_entries.is_empty());
}

#[test]
fn fresh_state_defaults() {
    let app = RaidCtlApp::new();
    assert!(app.devices.is_empty());
    assert_eq!(app.selected_filesystem, Some("ext4".to_string()));
    assert!(!app.bootable_flag);
    assert_eq!(app.status, "Ready");
    assert_eq!(app.grub_config, "");
    assert!(app.refresh_requested);
    assert!(app.current_plan.is_none());
}

#[test]
fn unparsable_count_tokens_default_to_zero() {
    // digits too large for a count
    let app = app_with("# Provision RAID1 99999999999999999999x EXT2 #\n# EOP\n");
    assert_eq!(app.detected_raid_entries[0].device_count, 0);
    // not digits at all
    let app = app_with("# Provision RAID1 abx EXT2 #\n# EOP\n");
    assert_eq!(app.detected_raid_entries[0].device_count, 0);
    // a bare multiplier character
    let app = app_with("# Provision RAID1 x EXT2 #\n# EOP\n");
    assert_eq!(app.detected_raid_entries[0].device_count, 0);
}

#[test]
fn uuid_identifier_falls_back_to_the_path() {
    let dev = "/dev/sda".to_string();
    assert_eq!(
        uuid_identifier(&dev, &Some("  ab-12  ".to_string())),
        "UUID=ab-12"
    );
    assert_eq!(uuid_identifier(&dev, &Some("   ".to_string())), "/dev/sda");
    assert_eq!(uuid_identifier(&dev, &None), "/dev/sda");
}
