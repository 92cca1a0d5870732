use vela::device::{command_outcome, mount_command, mountpoint_for, scan_is_safe, scan_report, shorten_mount, truncate, unmount_command, DeviceError, DeviceRecord};

fn dev(name: &str, part: bool, parent: Option<&str>) -> DeviceRecord {
    DeviceRecord {
        name: name.to_string(),
        fullname: format!("/dev/{}", name),
        partuuid: if part { Some("uuid".to_string()) } else { None },
        label: None,
        parent: parent.map(|p| p.to_string()),
        capacity: None,
        removable: None,
        read_only: None,
    }
}

#[test]
fn mount_commands() {
    assert_eq!(mountpoint_for("usb"), "/mnt/usb");
    let c = mount_command("/dev/sdb1", "/mnt/usb", true);
    assert_eq!(c.program, "sudo");
    assert_eq!(c.args, vec!["mount", "-o", "ro", "/dev/sdb1", "/mnt/usb"]);
    let c = mount_command("/dev/sdb1", "/mnt/usb", false);
    assert_eq!(c.args, vec!["mount", "/dev/sdb1", "/mnt/usb"]);
    let c = unmount_command("/mnt/usb");
    assert_eq!((c.program.as_str(), c.args.clone()), ("sudo", vec!["umount".to_string(), "/mnt/usb".to_string()]));
    assert!(command_outcome(true, true).is_ok());
    assert_eq!(command_outcome(true, false).unwrap_err().message(), "Failed to mount device");
    assert_eq!(command_outcome(false, false).unwrap_err().message(), "Failed to unmount device");
    assert_eq!(DeviceError::MountFailed.message(), "Failed to mount device");
}

#[test]
fn truncation() {
    assert_eq!(truncate("short", 12), "short");
    assert_eq!(truncate("exactlytwelv", 12), "exactlytwelv");
    assert_eq!(truncate("VeryLongLabelName", 12), "VeryLongLa..");
    assert_eq!(truncate("ééééééé", 12), "ééééé..");
    assert_eq!(shorten_mount("/mnt/short"), "/mnt/short");
    assert_eq!(shorten_mount("/run/media/user/VeryLongName"), "...er/VeryLongName");
}

#[test]
fn scan_table() {
    let mut sda = dev("sda", false, None);
    sda.capacity = Some(1073741824);
    sda.removable = Some("0\n".to_string());
    sda.read_only = Some("0\n".to_string());
    let mut sda1 = dev("sda1", true, Some("sda"));
    sda1.label = Some("DATA".to_string());
    sda1.capacity = Some(2048);
    sda1.removable = Some("1\n".to_string());
    sda1.read_only = Some("1\n".to_string());
    let devs = vec![
        dev("sdb", false, None),
        sda1,
        dev("loop0", false, None),
        dev("sda2", true, Some("sda")),
        sda,
        dev("nvme0n1p1", true, Some("nvme0n1")),
    ];
    let mounts = vec![
        ("/dev/sda1".to_string(), "/mnt/old".to_string()),
        ("/dev/sda1".to_string(), "/mnt/data".to_string()),
    ];
    assert!(scan_is_safe(&devs, &mounts));
    let lines = scan_report(&devs, &mounts);
    let row = |a: &str, b: &str, c: &str, d: &str, e: &str, f: &str, g: &str| {
        format!("{:<18} {:<12} {:<10} {:<5} {:<18} {:<5} {}", a, b, c, d, e, f, g)
    };
    assert_eq!(
        lines,
        vec![
            row("NAME", "LABEL", "SIZE", "TYPE", "MOUNT", "REM", "PERM"),
            format!("{:-<18} {:-<12} {:-<10} {:-<5} {:-<18} {:-<5} {:-<10}", "", "", "", "", "", "", ""),
            row("/dev/sda", "-", "1.00GiB", "disk", "-", "F", "RW"),
            row("├─sda1", "DATA", "2.00KiB", "part", "/mnt/data", "T", "RO"),
            row("└─sda2", "-", "-", "part", "-", "-", "RW"),
            row("/dev/sdb", "-", "-", "disk", "-", "-", "RW"),
        ]
    );
}

#[test]
fn unsafe_labels_detected() {
    let mut d = dev("sdc", false, None);
    d.label = Some("aaaaaaaaaé12".to_string());
    assert!(!scan_is_safe(&vec![d], &vec![]));
}
