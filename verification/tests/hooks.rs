use lroot::call::{Access, Arg, Call, OpenMode, Sys, AT_FDCWD, AT_REMOVEDIR, AT_SYMLINK_NOFOLLOW};
use lroot::config::Config;
use lroot::hooks::{self, Action, LinkStart};
use lroot::procfs::FakeFile;

fn setup() -> Config {
    Config::from_env(Some(b"/r"), Some(b"/home:/mnt"), None)
}

fn shown(a: &Arg) -> String {
    match a {
        Arg::Num(n) => format!("{n}"),
        Arg::Path(None) => "null".to_string(),
        Arg::Path(Some(p)) => String::from_utf8(p.clone()).unwrap(),
        Arg::Caller(k) => format!("${k}"),
        Arg::Mode(_) => "mode".to_string(),
        Arg::Directory => "directory".to_string(),
        Arg::Scratch => "scratch".to_string(),
        Arg::Times(a, m) => format!("{}.{} {}.{}", a.0, a.1, m.0, m.1),
    }
}

fn check(call: Call, sys: Sys, args: &[&str]) {
    assert!(call.sys == sys);
    let got: Vec<String> = call.args.iter().map(shown).collect();
    assert_eq!(got, args);
}

fn call_in(a: Action) -> Call {
    match a {
        Action::Call(c) => c,
        Action::Fake(_) => panic!("made up"),
    }
}

#[test]
fn open_translates_or_fakes() {
    let c = setup();
    check(call_in(hooks::open(&c, Some(b"/etc/hosts"))), Sys::Openat, &["-100", "/r/etc/hosts", "$1", "$2"]);
    check(call_in(hooks::open(&c, None)), Sys::Openat, &["-100", "null", "$1", "$2"]);
    assert!(matches!(hooks::open(&c, Some(b"/proc/version")), Action::Fake(FakeFile::Version)));
    check(hooks::open64(&c, Some(b"/proc/version")), Sys::Openat, &["-100", "/proc/version", "$1", "$2"]);
}

#[test]
fn openat_fakes_absolute_paths_from_anywhere() {
    let c = setup();
    assert!(matches!(hooks::openat(&c, 7, Some(b"/proc/self/maps")), Action::Fake(FakeFile::Maps)));
    assert!(matches!(
        hooks::openat(&c, AT_FDCWD, Some(b"/proc/self/maps")),
        Action::Fake(FakeFile::Maps)
    ));
    check(call_in(hooks::openat(&c, 7, Some(b"a"))), Sys::Openat, &["$0", "a", "$2", "$3"]);
    check(call_in(hooks::openat(&c, 7, Some(b"/mnt/a"))), Sys::Openat, &["$0", "/home/a", "$2", "$3"]);
}

#[test]
fn stream_modes_become_flags() {
    let plain = OpenMode {
        access: Access::Read,
        create: false,
        truncate: false,
        append: false,
        permissions: 0,
    };
    assert!(hooks::fopen_flags(b"") == plain);
    assert!(hooks::fopen_flags(b"r") == plain);
    assert!(hooks::fopen_flags(b"rb+") == plain);
    assert!(hooks::fopen_flags(b"x+") == plain);
    assert!(hooks::fopen_flags(b"r+") == OpenMode { access: Access::ReadWrite, ..plain });
    let write = OpenMode { access: Access::Write, create: true, permissions: 0o644, ..plain };
    assert!(hooks::fopen_flags(b"w") == OpenMode { truncate: true, ..write });
    assert!(hooks::fopen_flags(b"a") == OpenMode { append: true, ..write });
    assert!(
        hooks::fopen_flags(b"w+")
            == OpenMode { access: Access::ReadWrite, truncate: true, ..write }
    );
    assert!(
        hooks::fopen_flags(b"a+")
            == OpenMode { access: Access::ReadWrite, append: true, ..write }
    );
}

#[test]
fn streams_open_their_file() {
    let c = setup();
    check(call_in(hooks::fopen(&c, Some(b"/a"), b"w")), Sys::Openat, &["-100", "/r/a", "mode", "420"]);
    assert!(matches!(
        hooks::fopen(&c, Some(b"/proc/self/status"), b"r"),
        Action::Fake(FakeFile::Status)
    ));
    check(
        hooks::freopen(&c, Some(b"/proc/self/status"), b"r"),
        Sys::Openat,
        &["-100", "/proc/self/status", "mode", "0"],
    );
}

#[test]
fn times_become_nanoseconds() {
    let c = setup();
    assert_eq!(hooks::timespec_of((5, 7)), (5, 7000));
    check(
        hooks::utimes(&c, Some(b"/a"), Some(((1, 2), (3, 999_999)))),
        Sys::Utimensat,
        &["-100", "/r/a", "1.2000 3.999999000", "0"],
    );
    check(hooks::utimes(&c, Some(b"/a"), None), Sys::Utimensat, &["-100", "/r/a", "0", "0"]);
}

#[test]
fn the_root_of_a_process_is_the_root() {
    let c = setup();
    match hooks::readlink(&c, Some(b"/proc/self/root"), 16) {
        LinkStart::Answer(reply) => {
            assert_eq!(reply.bytes, b"/".to_vec());
            assert!(reply.closed);
            assert_eq!(reply.count, 1);
        }
        LinkStart::Ask(_) => panic!("asked"),
    }
    match hooks::readlink(&c, Some(b"/proc/self/root"), 1) {
        LinkStart::Answer(reply) => assert!(!reply.closed && reply.bytes.len() == 1),
        LinkStart::Ask(_) => panic!("asked"),
    }
    match hooks::readlink(&c, Some(b"/proc/self/root"), 0) {
        LinkStart::Answer(reply) => assert!(reply.bytes.is_empty() && reply.count == 1),
        LinkStart::Ask(_) => panic!("asked"),
    }
    match hooks::readlink(&c, Some(b"/bin/sh"), 0) {
        LinkStart::Ask(call) => check(call, Sys::Readlinkat, &["-100", "/r/bin/sh", "scratch"]),
        LinkStart::Answer(_) => panic!("answered"),
    }
    check(
        hooks::__readlink_chk(&c, Some(b"/proc/self/root")),
        Sys::Readlinkat,
        &["-100", "/proc/self/root", "scratch"],
    );
}

#[test]
fn readlinkat_translates_from_every_directory() {
    let c = setup();
    check(hooks::readlinkat(&c, Some(b"/a")), Sys::Readlinkat, &["$0", "/r/a", "scratch"]);
    check(hooks::readlinkat(&c, Some(b"/mnt/a")), Sys::Readlinkat, &["$0", "/home/a", "scratch"]);
    check(hooks::readlinkat(&c, Some(b"a")), Sys::Readlinkat, &["$0", "a", "scratch"]);
    check(hooks::readlinkat(&c, None), Sys::Readlinkat, &["$0", "null", "scratch"]);
}

#[test]
fn link_replies_are_cut_to_the_buffer() {
    let c = setup();
    let reply = hooks::readlink_reply(&c, b"/r/bin/busybox", 64);
    assert_eq!(reply.bytes, b"/bin/busybox".to_vec());
    assert!(reply.closed);
    assert_eq!(reply.count, 12);
    let cut = hooks::readlink_reply(&c, b"/r/bin/busybox", 4);
    assert_eq!(cut.bytes, b"/bin".to_vec());
    assert!(!cut.closed);
    assert_eq!(cut.count, 4);
    let exact = hooks::readlink_reply(&c, b"/r", 1);
    assert_eq!(exact.bytes, b"/".to_vec());
    assert!(!exact.closed);
}

#[test]
fn failed_links_are_handed_on() {
    let c = setup();
    assert!(matches!(hooks::finish_readlink(&c, -1, &[0; 8], 8), Err(-1)));
    assert!(matches!(hooks::finish_readlink(&c, 0, &[0; 8], 8), Err(0)));
    match hooks::finish_readlink(&c, 4, b"/r/axxxx", 8) {
        Ok(reply) => assert_eq!(reply.bytes, b"/a".to_vec()),
        Err(_) => panic!("failed"),
    }
}

#[test]
fn status_calls_translate() {
    let c = setup();
    let nofollow = format!("{AT_SYMLINK_NOFOLLOW}");
    check(hooks::stat(&c, Some(b"/a")), Sys::Fstatat, &["-100", "/r/a", "$1", "0"]);
    check(hooks::lstat(&c, Some(b"/a")), Sys::Fstatat, &["-100", "/r/a", "$1", &nofollow]);
    check(hooks::fstatat(&c, Some(b"/a")), Sys::Fstatat, &["$0", "/r/a", "$2", "$3"]);
    check(hooks::statx(&c, Some(b"/a")), Sys::Statx, &["$0", "/r/a", "$2", "$3", "$4"]);
    check(hooks::statfs(&c, Some(b"/a")), Sys::Statfs, &["/r/a", "$1"]);
    check(hooks::access(&c, Some(b"/a")), Sys::Faccessat, &["-100", "/r/a", "$1", "0"]);
    check(hooks::faccessat(&c, Some(b"a")), Sys::Faccessat, &["$0", "a", "$2", "$3"]);
}

#[test]
fn attribute_calls_translate() {
    let c = setup();
    check(hooks::listxattr(&c, Some(b"/a")), Sys::Listxattr, &["/r/a", "$1", "$2"]);
    check(hooks::llistxattr(&c, Some(b"/a")), Sys::Llistxattr, &["/r/a", "$1", "$2"]);
    check(hooks::getxattr(&c, Some(b"/a")), Sys::Getxattr, &["/r/a", "$1", "$2", "$3"]);
    check(hooks::lgetxattr(&c, Some(b"/a")), Sys::Lgetxattr, &["/r/a", "$1", "$2", "$3"]);
}

#[test]
fn directory_calls_translate() {
    let c = setup();
    let removedir = format!("{AT_REMOVEDIR}");
    check(hooks::mkdir(&c, Some(b"/a")), Sys::Mkdirat, &["-100", "/r/a", "$1"]);
    check(hooks::mkdirat(&c, Some(b"/a")), Sys::Mkdirat, &["$0", "/r/a", "$2"]);
    check(hooks::rmdir(&c, Some(b"/a")), Sys::Unlinkat, &["-100", "/r/a", &removedir]);
    check(hooks::unlink(&c, Some(b"/a")), Sys::Unlinkat, &["-100", "/r/a", "0"]);
    check(hooks::unlinkat(&c, Some(b"/a")), Sys::Unlinkat, &["$0", "/r/a", "$2"]);
    check(hooks::chdir(&c, Some(b"/a")), Sys::Chdir, &["/r/a"]);
    check(hooks::opendir(&c, Some(b"/a")), Sys::Openat, &["-100", "/r/a", "directory", "0"]);
}

#[test]
fn calls_with_two_paths_translate_both() {
    let c = setup();
    let (a, b): (Option<&[u8]>, Option<&[u8]>) = (Some(b"/a"), Some(b"/mnt/b"));
    check(hooks::rename(&c, a, b), Sys::Renameat, &["-100", "/r/a", "-100", "/home/b"]);
    check(hooks::renameat(&c, a, b), Sys::Renameat, &["$0", "/r/a", "$2", "/home/b"]);
    check(hooks::renameat2(&c, a, b), Sys::Renameat, &["$0", "/r/a", "$2", "/home/b", "$4"]);
    check(hooks::link(&c, a, b), Sys::Linkat, &["-100", "/r/a", "-100", "/home/b", "0"]);
    check(hooks::linkat(&c, a, b), Sys::Linkat, &["$0", "/r/a", "$2", "/home/b", "$4"]);
}

#[test]
fn symbolic_links_keep_their_target() {
    let c = setup();
    check(hooks::symlink(&c, Some(b"/l")), Sys::Symlinkat, &["$0", "-100", "/r/l"]);
    check(hooks::symlinkat(&c, Some(b"/l")), Sys::Symlinkat, &["$0", "$1", "/r/l"]);
}

#[test]
fn permission_calls_translate() {
    let c = setup();
    let nofollow = format!("{AT_SYMLINK_NOFOLLOW}");
    check(hooks::chmod(&c, Some(b"/a")), Sys::Fchmodat, &["-100", "/r/a", "$1"]);
    check(hooks::fchmodat(&c, Some(b"/a")), Sys::Fchmodat, &["$0", "/r/a", "$2", "$3"]);
    check(hooks::chown(&c, Some(b"/a")), Sys::Fchownat, &["-100", "/r/a", "$1", "$2", "0"]);
    check(hooks::lchown(&c, Some(b"/a")), Sys::Fchownat, &["-100", "/r/a", "$1", "$2", &nofollow]);
    check(hooks::fchownat(&c, Some(b"/a")), Sys::Fchownat, &["$0", "/r/a", "$2", "$3", "$4"]);
}

#[test]
fn remaining_calls_translate() {
    let c = setup();
    check(hooks::utimensat(&c, Some(b"/a")), Sys::Utimensat, &["$0", "/r/a", "$2", "$3"]);
    check(hooks::truncate(&c, Some(b"/a")), Sys::Truncate, &["/r/a", "$1"]);
    check(hooks::mount(&c, Some(b"/a")), Sys::Mount, &["$0", "/r/a", "$2", "$3", "$4"]);
    check(hooks::umount(&c, Some(b"/a")), Sys::Umount2, &["/r/a", "0"]);
    check(hooks::umount2(&c, Some(b"/a")), Sys::Umount2, &["/r/a", "$1"]);
}
