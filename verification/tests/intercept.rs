use lroot::error::Error;
use lroot::intercept::{Manager, PathTranslator, DEFAULT_ROOTFS, FALLBACK_LIB};

fn manager(rootfs: &str) -> Manager {
    match Manager::new(rootfs) {
        Ok(m) => m,
        Err(_) => panic!("no manager"),
    }
}

#[test]
fn a_manager_has_a_rootfs() {
    let m = manager("/srv/root");
    assert_eq!(m.rootfs_path(), "/srv/root");
    assert_eq!(m.hook_lib_path, "/srv/root/lib/libintercept.so");
    assert!(!m.preload_enabled);
    assert_eq!(manager("").rootfs_path(), DEFAULT_ROOTFS);
    assert_eq!(manager("/r/").hook_lib_path, "/r/lib/libintercept.so");
}

#[test]
fn paths_of_top_level_directories_are_translated() {
    let m = manager("/r");
    for d in ["usr", "bin", "lib", "lib64", "etc", "var", "opt", "tmp", "home", "sbin", "root"] {
        if d != "root" {
            assert_eq!(m.translate_path(&format!("/{d}")), format!("/r/{d}"));
            assert_eq!(m.translate_path(&format!("/{d}/x")), format!("/r/{d}/x"));
        }
    }
    let far = manager("/srv/root");
    assert_eq!(far.translate_path("/root/.profile"), "/srv/root/root/.profile");
    assert_eq!(far.translate_path("/lib64/ld.so"), "/srv/root/lib64/ld.so");
    assert_eq!(far.translate_path("/libx"), "/libx");
}

#[test]
fn other_paths_stay_with_the_host() {
    let m = manager("/srv/root");
    for p in ["/proc/self", "/sys/x", "/dev/null", "/mnt/x", "/proc", "/", "", "usr/bin", "/srv/root/etc"] {
        assert_eq!(m.translate_path(p), p);
    }
    let once = m.translate_path("/etc/hosts");
    assert_eq!(m.translate_path(&once), once);
    let t = PathTranslator::new("/r");
    assert_eq!(t.mappings.len(), 11);
    assert_eq!(t.translate("/etc"), "/r/etc");
}

#[test]
fn the_directories_of_a_rootfs_are_listed() {
    let dirs = manager("/r").prepare_rootfs();
    let names: Vec<&str> = dirs.iter().map(|d| d.0.as_str()).collect();
    assert_eq!(
        names,
        vec![
            "usr", "bin", "lib", "lib64", "etc", "var", "opt", "tmp", "home", "sbin", "dev",
            "proc", "sys", "root"
        ]
    );
    assert_eq!(dirs[13].1, "/r/root");
}

#[test]
fn hooks_are_switched_on_where_there_is_a_library() {
    let mut m = manager("/r");
    assert!(m.enable_preload_hooks(false, false).is_none());
    assert!(!m.preload_enabled);
    let own = m.enable_preload_hooks(true, true).unwrap();
    assert_eq!(own.ld_preload, "/r/lib/libintercept.so");
    assert_eq!(own.little_rootfs, "/r");
    assert!(m.preload_enabled);
    let other = m.enable_preload_hooks(false, true).unwrap();
    assert_eq!(other.ld_preload, FALLBACK_LIB);
}

#[test]
fn programs_are_spawned_with_the_rootfs_in_their_environment() {
    let plan = manager("/r").spawn_in_rootfs("/bin/ls", &["-l", "/"], None);
    assert_eq!(plan.program, "/r/bin/ls");
    assert_eq!(plan.args, vec!["-l", "/"]);
    let want = [
        ("PATH", "/r/usr/bin:/r/bin"),
        ("LD_LIBRARY_PATH", "/r/lib:/r/lib64"),
        ("HOME", "/r/root"),
        ("TERM", "xterm-256color"),
        ("WAYLAND_DISPLAY", "little-wayland"),
    ];
    let got: Vec<(&str, &str)> = plan.envs.iter().map(|p| (p.0.as_str(), p.1.as_str())).collect();
    assert_eq!(got, want);
    let shown = manager("/r").spawn_in_rootfs("ls", &[], Some("wl-1"));
    assert_eq!(shown.envs[4].1, "wl-1");
}

#[test]
fn failures_say_what_was_tried() {
    match Manager::mkdir_error("usr", "denied") {
        Error::Intercept(m) => assert_eq!(m, "mkdir usr: denied"),
        _ => panic!("other error"),
    }
    let e = Manager::spawn_error("/bin/ls", "not found");
    assert_eq!(e.message(), "Intercept: spawn /bin/ls: not found");
}

#[test]
fn errors_say_their_kind() {
    assert_eq!(Error::Io("x".to_string()).message(), "IO: x");
    assert_eq!(Error::Nix("x".to_string()).message(), "Nix: x");
    assert_eq!(Error::Pty("x".to_string()).message(), "PTY: x");
    assert_eq!(Error::InvalidState("x".to_string()).message(), "Invalid state: x");
}
