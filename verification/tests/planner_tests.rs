use raidctl::planner::catalog_from_listing;
use raidctl::planner::ListingEntry;
use raidctl::Config;
use raidctl::Device;
use raidctl::ExecStep;
use raidctl::execution_steps;
use raidctl::Filesystem;
use raidctl::Planner;
use raidctl::ProvisioningPlan;
use raidctl::RaidError;
use raidctl::RaidLevel;

fn device(name: &str) -> Device {
    Device {
        id: name.to_string(),
        path: format!("/dev/{}", name),
        size: 1024 * 1024 * 1024,
        model: None,
        serial: None,
    }
}

fn entry(
    name: Option<&str>,
    size: Option<&str>,
    kind: Option<&str>,
    mountpoint: Option<&str>,
) -> ListingEntry {
    ListingEntry {
        name: name.map(|s| s.to_string()),
        size: size.map(|s| s.to_string()),
        model: None,
        serial: None,
        kind: kind.map(|s| s.to_string()),
        mountpoint: mountpoint.map(|s| s.to_string()),
    }
}

#[test]
fn catalog_filters_mounted_non_disk_and_zero_size() {
    let entries = vec![
        entry(Some("sda"), Some("800G"), Some("disk"), None),
        entry(Some("sda1"), Some("100G"), Some("part"), None),
        entry(Some("sdb"), Some("1T"), Some("disk"), Some("/boot")),
        entry(Some("sdc"), Some("0"), Some("disk"), None),
        entry(Some("sdd"), Some("junk"), Some("disk"), None),
        entry(Some("sde"), Some("2T"), Some("disk"), Some("")),
    ];
    let devices = catalog_from_listing(&entries);
    assert_eq!(devices.len(), 2);
    assert_eq!(devices[0].id, "sda");
    assert_eq!(devices[0].path, "/dev/sda");
    assert_eq!(devices[0].size, 800 * 1024u64.pow(3));
    // an empty mount point does not count as mounted
    assert_eq!(devices[1].id, "sde");
    assert_eq!(devices[1].size, 2 * 1024u64.pow(4));
}

#[test]
fn catalog_trims_model_and_serial() {
    let mut e = entry(Some("sda"), Some("1G"), Some("disk"), None);
    e.model = Some("  Samsung SSD 970  ".to_string());
    e.serial = Some("\tZ123\n".to_string());
    let devices = catalog_from_listing(&vec![e]);
    assert_eq!(devices.len(), 1);
    assert_eq!(devices[0].model, Some("Samsung SSD 970".to_string()));
    assert_eq!(devices[0].serial, Some("Z123".to_string()));
}

#[test]
fn catalog_defaults_for_missing_fields() {
    // a missing type is never a disk
    let devices = catalog_from_listing(&vec![entry(Some("sda"), Some("1G"), None, None)]);
    assert!(devices.is_empty());
    // a missing size counts as zero and is filtered
    let devices = catalog_from_listing(&vec![entry(Some("sdb"), None, Some("disk"), None)]);
    assert!(devices.is_empty());
}

#[test]
fn plan_insufficient_disks_checked_before_existence() {
    // The requested disks do not exist anywhere, yet the count check fires
    // first.
    let planner = Planner::new(Vec::new(), Config::default());
    let disks = vec!["/dev/nope1".to_string(), "/dev/nope2".to_string()];
    let err = planner.plan(RaidLevel::Raid5, &disks, None).unwrap_err();
    assert_eq!(
        err,
        RaidError::InsufficientDisks {
            level: "Raid5".to_string(),
            required: 3,
            found: 2,
        }
    );
}

#[test]
fn plan_insufficient_disks_for_single_reports_none_tag() {
    let planner = Planner::new(Vec::new(), Config::default());
    let err = planner.plan(RaidLevel::Single, &Vec::new(), None).unwrap_err();
    assert_eq!(
        err,
        RaidError::InsufficientDisks {
            level: "None".to_string(),
            required: 1,
            found: 0,
        }
    );
}

#[test]
fn plan_reports_first_missing_device() {
    let planner = Planner::new(vec![device("sda"), device("sdb")], Config::default());
    let disks = vec!["/dev/sda".to_string(), "/dev/sdc".to_string()];
    let err = planner.plan(RaidLevel::Raid1, &disks, None).unwrap_err();
    assert_eq!(err, RaidError::DeviceNotFound("/dev/sdc".to_string()));
}

#[test]
fn plan_preserves_request_order_and_takes_config_mount() {
    let planner = Planner::new(
        vec![device("sda"), device("sdb"), device("sdc")],
        Config::default(),
    );
    let disks = vec!["/dev/sdb".to_string(), "/dev/sda".to_string()];
    let plan = planner.plan(RaidLevel::Raid1, &disks, None).unwrap();
    assert_eq!(plan.raid_level, RaidLevel::Raid1);
    assert_eq!(plan.disks, vec!["/dev/sdb".to_string(), "/dev/sda".to_string()]);
    assert_eq!(plan.filesystem, Filesystem::Ext4);
    assert_eq!(plan.mount_point, "/target");
}

#[test]
fn plan_keeps_an_explicit_filesystem() {
    let planner = Planner::new(vec![device("sda")], Config::default());
    let disks = vec!["/dev/sda".to_string()];
    let plan = planner
        .plan(RaidLevel::Single, &disks, Some(Filesystem::Btrfs))
        .unwrap();
    assert_eq!(plan.filesystem, Filesystem::Btrfs);
}

#[test]
fn dry_run_invokes_nothing() {
    let plan = ProvisioningPlan {
        raid_level: RaidLevel::Raid1,
        disks: vec!["/dev/sda".to_string(), "/dev/sdb".to_string()],
        filesystem: Filesystem::Ext4,
        mount_point: "/target".to_string(),
    };
    let config = Config::default();
    assert!(config.dry_run);
    let steps = execution_steps(&plan, &config);
    assert!(steps.is_empty());
}

#[test]
fn execution_steps_in_order() {
    let plan = ProvisioningPlan {
        raid_level: RaidLevel::Raid1,
        disks: vec!["/dev/sda".to_string(), "/dev/sdb".to_string()],
        filesystem: Filesystem::Ext4,
        mount_point: "/target".to_string(),
    };
    let mut config = Config::default();
    config.dry_run = false;
    let steps = execution_steps(&plan, &config);
    assert_eq!(steps.len(), 4);
    assert_eq!(
        steps[0],
        ExecStep::Invoke(
            vec!["mdadm", "--create", "/dev/md0", "--level", "1", "--raid-devices", "2", "/dev/sda", "/dev/sdb"]
                .into_iter()
                .map(|s| s.to_string())
                .collect()
        )
    );
    assert_eq!(
        steps[1],
        ExecStep::Invoke(
            vec!["mkfs.ext4", "-F", "/dev/md0"]
                .into_iter()
                .map(|s| s.to_string())
                .collect()
        )
    );
    assert_eq!(steps[2], ExecStep::EnsureDir("/target".to_string()));
    assert_eq!(
        steps[3],
        ExecStep::Invoke(
            vec!["mount", "/dev/md0", "/target"]
                .into_iter()
                .map(|s| s.to_string())
                .collect()
        )
    );
}

#[test]
fn linear_level_flag_for_single_disk_array() {
    let plan = ProvisioningPlan {
        raid_level: RaidLevel::Single,
        disks: vec!["/dev/sda".to_string()],
        filesystem: Filesystem::Xfs,
        mount_point: "/mnt/data".to_string(),
    };
    let mut config = Config::default();
    config.dry_run = false;
    let steps = execution_steps(&plan, &config);
    match &steps[0] {
        ExecStep::Invoke(args) => {
            assert_eq!(args[4], "linear");
            assert_eq!(args[6], "1");
        }
        _ => panic!("expected an invocation"),
    }
}
