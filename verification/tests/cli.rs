use lroot::cli::{bind, flag, parse_args, Args, Flag, Refusal, HELP};

fn read(words: &[&str]) -> Result<Args, Refusal> {
    let argv: Vec<String> = words.iter().map(|s| s.to_string()).collect();
    parse_args(&argv)
}

fn ok(words: &[&str]) -> Args {
    match read(words) {
        Ok(a) => a,
        Err(e) => panic!("{:?}", e.lines()),
    }
}

fn refused(words: &[&str]) -> (Vec<String>, i32) {
    match read(words) {
        Ok(_) => panic!("accepted"),
        Err(e) => (e.lines(), e.status()),
    }
}

#[test]
fn test_help() {
    let (lines, status) = refused(&["--help"]);
    assert_eq!(status, 0);
    assert_eq!(lines.len(), 1);
    assert!(lines[0].contains("lroot"));
    assert!(lines[0].starts_with("Usage: lroot [option...] -r rootfs [command...]\n"));
    assert!(lines[0].contains("libintercept-{arch}-{libc}.so"));
    assert!(lines[0].ends_with("lroot -r ~/rootfs -k 5.10.0 /bin/sh"));
    assert_eq!(lines[0], HELP);
    assert_eq!(refused(&["-r", "/r", "-h"]).1, 0);
}

#[test]
fn the_default_command_is_a_shell() {
    let a = ok(&["/r"]);
    assert_eq!(a.rootfs, "/r");
    assert_eq!(a.command, vec!["/bin/sh"]);
    assert!(a.qemu.is_none() && a.pwd.is_none() && a.kernel_release.is_none());
    assert!(a.intercept.is_none() && a.binds.is_empty() && !a.fake_root && !a.verbose);
}

#[test]
fn both_forms_ask_for_the_same() {
    let a = ok(&["-r", "/r", "ls", "-la"]);
    let b = ok(&["/r", "ls", "-la"]);
    assert_eq!(a.rootfs, b.rootfs);
    assert_eq!(a.command, b.command);
    assert_eq!(a.command, vec!["ls", "-la"]);
}

#[test]
fn every_option_is_read() {
    let a = ok(&[
        "-0", "-v", "-q", "qemu-arm", "-k", "5.10", "-i", "/x.so", "-w", "/tmp", "-b", "/h:/g",
        "-b", "/same", "--rootfs", "/r", "sh",
    ]);
    assert!(a.fake_root && a.verbose);
    assert_eq!(a.qemu.as_deref(), Some("qemu-arm"));
    assert_eq!(a.kernel_release.as_deref(), Some("5.10"));
    assert_eq!(a.intercept.as_deref(), Some("/x.so"));
    assert_eq!(a.pwd.as_deref(), Some("/tmp"));
    assert_eq!(
        a.binds,
        vec![
            ("/h".to_string(), "/g".to_string()),
            ("/same".to_string(), "/same".to_string())
        ]
    );
    let long = ok(&[
        "--root-id", "--verbose", "--qemu", "q", "--kernel-release", "k", "--intercept", "i",
        "--pwd", "w", "--bind", "a:b", "--rootfs", "/r",
    ]);
    assert!(long.fake_root && long.verbose);
    assert_eq!(long.pwd.as_deref(), Some("w"));
}

#[test]
fn the_last_value_of_an_option_counts() {
    let a = ok(&["-r", "/one", "-r", "/two", "-w", "a", "-w", "b"]);
    assert_eq!(a.rootfs, "/two");
    assert_eq!(a.pwd.as_deref(), Some("b"));
}

#[test]
fn options_behind_the_command_are_its_own() {
    let a = ok(&["/r", "sh", "-0", "--help", "--"]);
    assert!(!a.fake_root);
    assert_eq!(a.command, vec!["sh", "-0", "--help", "--"]);
}

#[test]
fn options_may_stand_behind_the_rootfs() {
    let a = ok(&["/r", "-0", "sh"]);
    assert!(a.fake_root);
    assert_eq!(a.command, vec!["sh"]);
}

#[test]
fn a_double_dash_ends_the_options() {
    let a = ok(&["--", "-r", "-0"]);
    assert_eq!(a.rootfs, "-r");
    assert_eq!(a.command, vec!["-0"]);
    assert!(!a.fake_root);
}

#[test]
fn values_may_look_like_options() {
    let a = ok(&["-r", "-v", "sh"]);
    assert_eq!(a.rootfs, "-v");
    assert!(!a.verbose);
}

#[test]
fn missing_values_are_reported() {
    for (opt, text) in [
        ("-r", "-r needs a path"),
        ("--rootfs", "-r needs a path"),
        ("-q", "-q needs a path"),
        ("-k", "-k needs a version"),
        ("-i", "-i needs a path"),
        ("-w", "-w needs a path"),
        ("-b", "-b needs src:dest"),
    ] {
        assert_eq!(refused(&[opt]), (vec![text.to_string()], 1));
    }
}

#[test]
fn unknown_options_are_reported() {
    assert_eq!(refused(&["-x"]), (vec!["unknown option: -x".to_string()], 1));
    assert_eq!(refused(&["/r", "-"]), (vec!["unknown option: -".to_string()], 1));
}

#[test]
fn a_rootfs_is_needed() {
    let want = vec![
        "lroot: no rootfs specified".to_string(),
        "Try 'lroot --help' for more info.".to_string(),
    ];
    assert_eq!(refused(&[]), (want.clone(), 1));
    assert_eq!(refused(&["-0"]), (want.clone(), 1));
    assert_eq!(refused(&["-r", ""]), (want, 1));
}

#[test]
fn binds_split_at_the_first_colon() {
    assert_eq!(bind("/a:/b:/c"), ("/a".to_string(), "/b:/c".to_string()));
    assert_eq!(bind(":"), ("".to_string(), "".to_string()));
    assert_eq!(bind("\u{e4}"), ("\u{e4}".to_string(), "\u{e4}".to_string()));
    assert!(matches!(flag("--bind"), Flag::Bind));
    assert!(matches!(flag("--bin"), Flag::Unknown));
}
