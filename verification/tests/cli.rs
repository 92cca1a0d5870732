use vela::cli::{Action, Cli, Command};

#[test]
fn actions() {
    let a = Cli { command: Command::Mount { device: "/dev/sdb1".into(), mount_name: "usb".into(), mode: "r".into() } }.action();
    match a {
        Action::Mount { device, mountpoint, read_only } => {
            assert_eq!((device.as_str(), mountpoint.as_str(), read_only), ("/dev/sdb1", "/mnt/usb", true))
        }
        _ => panic!(),
    }
    let a = Cli { command: Command::Serve { mount_name: "usb".into(), mode: "w".into(), no_auth: true } }.action();
    match a {
        Action::Serve { root, read_only, no_auth } => assert_eq!((root.as_str(), read_only, no_auth), ("/mnt/usb", false, true)),
        _ => panic!(),
    }
    let a = Cli { command: Command::Serve { mount_name: "usb".into(), mode: "x".into(), no_auth: false } }.action();
    assert!(matches!(a, Action::Serve { read_only: false, .. }));
    assert!(matches!(Cli { command: Command::Scan }.action(), Action::Scan));
    match (Cli { command: Command::Unmount { mountpoint: "/mnt/usb".into() } }).action() {
        Action::Unmount { mountpoint } => assert_eq!(mountpoint, "/mnt/usb"),
        _ => panic!(),
    }
}
