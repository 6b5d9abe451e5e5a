use lroot::procfs::{
    fake_maps_line, fake_proc_cmdline, fake_proc_id_map, fake_proc_maps, fake_proc_mountinfo,
    fake_proc_status, fake_proc_version, fake_status_line, read_cstring, to_guest,
    try_proc_fake_open, FakeFile,
};

fn fixed(f: Option<FakeFile>) -> Vec<u8> {
    match f {
        Some(FakeFile::Fixed(v)) => v,
        _ => panic!("not a fixed file"),
    }
}

#[test]
fn version_names_the_release() {
    assert_eq!(
        fake_proc_version(Some(b"5.10.0"), b"6.1.0\0\0"),
        b"Linux version 5.10.0 (lroot) #1 SMP Tue Jan 1 00:00:00 UTC 2019\n".to_vec()
    );
    assert_eq!(
        fake_proc_version(None, b"6.1.0-android\0junk"),
        b"Linux version 6.1.0-android (lroot) #1 SMP Tue Jan 1 00:00:00 UTC 2019\n".to_vec()
    );
}

#[test]
fn version_is_cut_at_blanks_and_needs_text() {
    assert_eq!(
        fake_proc_version(Some(b"5.10 rc1"), b""),
        b"Linux version 5.10 (lroot) #1 SMP Tue Jan 1 00:00:00 UTC 2019\n".to_vec()
    );
    assert_eq!(
        fake_proc_version(Some(b"5\t6"), b""),
        b"Linux version 5 (lroot) #1 SMP Tue Jan 1 00:00:00 UTC 2019\n".to_vec()
    );
    assert_eq!(
        fake_proc_version(Some(&[0xff, 0xfe]), b""),
        b"Linux version 0.0.0 (lroot) #1 SMP Tue Jan 1 00:00:00 UTC 2019\n".to_vec()
    );
}

#[test]
fn cstrings_end_at_the_first_zero() {
    assert_eq!(read_cstring(b"ab\0cd\0"), b"ab".to_vec());
    assert_eq!(read_cstring(b"abc"), b"abc".to_vec());
    assert_eq!(read_cstring(b"\0"), b"".to_vec());
}

#[test]
fn maps_hide_the_rootfs() {
    let raw = b"7f00-7f10 r-xp 0000 08:01 42    /srv/root/lib/libc.so\n7f10-7f20 rw-p 0000 00:00 0\n7f20-7f30 r--p 0000 08:01 43 /srv/rootkit (deleted)\n";
    let want = b"7f00-7f10 r-xp 0000 08:01 42    /lib/libc.so\n7f10-7f20 rw-p 0000 00:00 0\n7f20-7f30 r--p 0000 08:01 43 /srv/rootkit (deleted)\n";
    assert_eq!(fake_proc_maps(b"/srv/root", raw), want.to_vec());
    assert_eq!(fake_proc_maps(b"", raw), raw.to_vec());
}

#[test]
fn maps_lines_need_five_fields_before_the_path() {
    assert_eq!(fake_maps_line(b"/r", b"a b c d /r/x"), b"a b c d /r/x".to_vec());
    assert_eq!(fake_maps_line(b"/r", b"a b c d e /r/x /r/y"), b"a b c d e /x /r/y".to_vec());
    assert_eq!(fake_maps_line(b"/r", b"a b c d e /r"), b"a b c d e /".to_vec());
    assert_eq!(fake_maps_line(b"/r", b"a b c d e [heap]\n"), b"a b c d e [heap]\n".to_vec());
}

#[test]
fn status_shows_root() {
    let raw = b"Name:\tsh\nUid:\t1000\t1000\t1000\t1000\nGid:\t100\t100\t100\t100\nGroups:\t100";
    let want = b"Name:\tsh\nUid:\t0\t0\t0\t0\nGid:\t0\t0\t0\t0\nGroups:\t100";
    assert_eq!(fake_proc_status(true, raw), want.to_vec());
    assert_eq!(fake_proc_status(false, raw), raw.to_vec());
    let once = fake_proc_status(true, raw);
    assert_eq!(fake_proc_status(true, &once), once);
    assert_eq!(fake_status_line(b"Uid:\t7"), b"Uid:\t0\t0\t0\t0\n".to_vec());
    assert_eq!(fake_status_line(b"PUid:\t7\n"), b"PUid:\t7\n".to_vec());
}

#[test]
fn cmdline_arguments_are_rewritten_one_by_one() {
    assert_eq!(
        fake_proc_cmdline(b"/srv/root", b"/srv/root/bin/sh\0-c\0/srv/root\0/srv/rootkit\0"),
        b"/bin/sh\0-c\0/\0/srv/rootkit\0".to_vec()
    );
    assert_eq!(fake_proc_cmdline(b"/r", b"a\0\0b"), b"a\0\0b\0".to_vec());
    assert_eq!(fake_proc_cmdline(b"", b"a\0\0b"), b"a\0\0b".to_vec());
    assert_eq!(fake_proc_cmdline(b"r", b"r/x\0"), b"r/x\0".to_vec());
}

#[test]
fn mounts_hide_the_rootfs() {
    let raw = b"36 35 98:0 / /srv/root/proc rw - ext4 /dev/sda1\n37 35 0:1 / /srv/root rw\n38 35 0:1 / /srv/rootkit x/srv/root";
    let want = b"36 35 98:0 / /proc rw - ext4 /dev/sda1\n37 35 0:1 / / rw\n38 35 0:1 / /srv/rootkit x/srv/root";
    assert_eq!(fake_proc_mountinfo(b"/srv/root", raw), want.to_vec());
    assert_eq!(fake_proc_mountinfo(b"", raw), raw.to_vec());
    assert_eq!(fake_proc_mountinfo(b"/nowhere", raw), raw.to_vec());
    assert_eq!(fake_proc_mountinfo(b"/srv/root", b"/srv/root"), b"/".to_vec());
}

#[test]
fn guest_paths_need_a_whole_component() {
    assert_eq!(to_guest(b"/r", b"/r"), b"/".to_vec());
    assert_eq!(to_guest(b"/r", b"/r/a"), b"/a".to_vec());
    assert_eq!(to_guest(b"/r", b"/rx"), b"/rx".to_vec());
    assert_eq!(to_guest(b"/r", b"/"), b"/".to_vec());
}

#[test]
fn id_maps_are_faked_only_for_root() {
    assert!(fake_proc_id_map(false).is_none());
    assert_eq!(fixed(fake_proc_id_map(true)), b"         0          0 4294967295\n".to_vec());
    assert!(try_proc_fake_open(false, b"/proc/self/uid_map").is_none());
    assert_eq!(
        fixed(try_proc_fake_open(true, b"/proc/self/gid_map")),
        b"         0          0 4294967295\n".to_vec()
    );
}

#[test]
fn faked_files_are_found_by_their_full_path() {
    for p in ["/proc/version", "/proc/sys/kernel/version", "/proc/sys/kernel/osrelease"] {
        assert!(matches!(try_proc_fake_open(false, p.as_bytes()), Some(FakeFile::Version)));
    }
    assert!(matches!(try_proc_fake_open(false, b"/proc/self/maps"), Some(FakeFile::Maps)));
    assert!(matches!(try_proc_fake_open(false, b"/proc/self/status"), Some(FakeFile::Status)));
    assert!(matches!(
        try_proc_fake_open(false, b"/proc/self/mountinfo"),
        Some(FakeFile::Mountinfo)
    ));
    assert!(matches!(try_proc_fake_open(false, b"/proc/self/mounts"), Some(FakeFile::Mountinfo)));
    assert!(matches!(try_proc_fake_open(false, b"/proc/self/cmdline"), Some(FakeFile::Cmdline)));
    assert_eq!(fixed(try_proc_fake_open(false, b"/proc/self/setgroups")), b"allow\n".to_vec());
    assert_eq!(
        fixed(try_proc_fake_open(false, b"/proc/self/attr/current")),
        b"kernel=unconfined\n".to_vec()
    );
    assert_eq!(
        fixed(try_proc_fake_open(false, b"/proc/filesystems")),
        b"nodev\tsysfs\nnodev\tproc\nnodev\tdevtmpfs\nnodev\tdevpts\nnodev\ttmpfs\nnodev\tsecurityfs\nnodev\tcgroup2\n\text4\n\tbtrfs\n\txfs\n\tvfat\n".to_vec()
    );
    for p in ["proc/version", "/proc/self/map", "/proc/self/maps2", ""] {
        assert!(try_proc_fake_open(true, p.as_bytes()).is_none());
    }
}

#[test]
fn translated_paths_are_shown_as_they_were_named() {
    let c = lroot::config::Config::from_env(Some(b"/srv/root"), None, None);
    for p in ["/etc/hosts", "/bin/sh", "/"] {
        let moved = lroot::translate::translate(&c, p.as_bytes());
        assert_eq!(to_guest(&c.rootfs, &moved), p.as_bytes().to_vec());
        assert!(!moved.contains(&0));
        let mut shown = p.as_bytes().to_vec();
        shown.push(0);
        let mut raw = moved.clone();
        raw.push(0);
        assert_eq!(fake_proc_cmdline(&c.rootfs, &raw), shown);
    }
}
