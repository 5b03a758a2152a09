use mount_watcher::mount::{parse_proc_mounts, LinuxMount};

fn vec_str(values: &[&str]) -> Vec<String> {
    values.into_iter().map(|s| s.to_string()).collect()
}

#[test]
fn parsing() {
    let content = "
sysfs /sys sysfs rw,nosuid,nodev,noexec,relatime 0 0
tmpfs /run tmpfs rw,nosuid,nodev,noexec,relatime,size=1599352k,mode=755,inode64 1 2
cgroup2 /sys/fs/cgroup cgroup2 rw,nosuid,nodev,noexec,relatime,nsdelegate,memory_recursiveprot 0 0
/dev/nvme0n1p1 /boot/efi vfat rw,relatime,errors=remount-ro 0 0";
    let mut mounts = Vec::new();
    parse_proc_mounts(&content, &mut mounts).unwrap();

    let expected = vec![
        LinuxMount {
            fs_spec: String::from("sysfs"),
            mount_point: String::from("/sys"),
            fs_type: String::from("sysfs"),
            mount_options: vec_str(&["rw", "nosuid", "nodev", "noexec", "relatime"]),
            dump_fs_freq: 0,
            fsck_fs_passno: 0,
        },
        LinuxMount {
            fs_spec: String::from("tmpfs"),
            mount_point: String::from("/run"),
            fs_type: String::from("tmpfs"),
            mount_options: vec_str(&[
                "rw",
                "nosuid",
                "nodev",
                "noexec",
                "relatime",
                "size=1599352k",
                "mode=755",
                "inode64",
            ]),
            dump_fs_freq: 1,
            fsck_fs_passno: 2,
        },
        LinuxMount {
            fs_spec: String::from("cgroup2"),
            mount_point: String::from("/sys/fs/cgroup"),
            fs_type: String::from("cgroup2"),
            mount_options: vec_str(&[
                "rw",
                "nosuid",
                "nodev",
                "noexec",
                "relatime",
                "nsdelegate",
                "memory_recursiveprot",
            ]),
            dump_fs_freq: 0,
            fsck_fs_passno: 0,
        },
        LinuxMount {
            fs_spec: String::from("/dev/nvme0n1p1"),
            mount_point: String::from("/boot/efi"),
            fs_type: String::from("vfat"),
            mount_options: vec_str(&["rw", "relatime", "errors=remount-ro"]),
            dump_fs_freq: 0,
            fsck_fs_passno: 0,
        },
    ];
    assert_eq!(expected, mounts);
}

#[test]
fn parsing_error() {
    let mut mounts = Vec::new();
    parse_proc_mounts("badbad", &mut mounts).unwrap_err();
    parse_proc_mounts("croup2 /sys/fs/cgroup", &mut mounts).unwrap_err();
}

#[test]
fn parsing_comments() {
    let mut mounts = Vec::new();
    parse_proc_mounts("\n# badbad\n", &mut mounts).unwrap();
    assert!(mounts.is_empty());
}

#[test]
fn parsing_error_identifies_line_and_keeps_no_partial_output() {
    let mut mounts = Vec::new();
    let err = parse_proc_mounts(
        "sysfs /sys sysfs rw 0 0\n  broken line\ntmpfs /run tmpfs rw 0 0",
        &mut mounts,
    )
    .unwrap_err();
    assert_eq!(err.input, "broken line");
    assert!(mounts.is_empty());
    assert_eq!(err.message(), "invalid mount line: broken line");
}

#[test]
fn parsing_single_line() {
    let m = LinuxMount::parse("proc /proc proc rw,relatime 3 4").unwrap();
    assert_eq!(m.fs_spec, "proc");
    assert_eq!(m.mount_point, "/proc");
    assert_eq!(m.fs_type, "proc");
    assert_eq!(m.mount_options, vec_str(&["rw", "relatime"]));
    assert_eq!(m.dump_fs_freq, 3);
    assert_eq!(m.fsck_fs_passno, 4);
}

#[test]
fn parsing_rejects_wrong_field_counts() {
    assert!(LinuxMount::parse("a b c d 0").is_none());
    assert!(LinuxMount::parse("a b c d 0 0 extra").is_none());
    assert!(LinuxMount::parse("").is_none());
}

#[test]
fn parsing_integer_fields() {
    assert!(LinuxMount::parse("a b c d x 0").is_none());
    assert!(LinuxMount::parse("a b c d 0 4294967296").is_none());
    let m = LinuxMount::parse("a b c d +7 4294967295").unwrap();
    assert_eq!(m.dump_fs_freq, 7);
    assert_eq!(m.fsck_fs_passno, 4294967295);
    assert!(LinuxMount::parse("a b c d + 0").is_none());
    assert!(LinuxMount::parse("a b c d -1 0").is_none());
}

#[test]
fn parsing_empty_option_pieces_kept() {
    let m = LinuxMount::parse("a b c rw,,relatime 0 0").unwrap();
    assert_eq!(m.mount_options, vec_str(&["rw", "", "relatime"]));
}
