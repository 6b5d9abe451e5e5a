use lroot::config::Config;
use lroot::translate::{
    match_non_abs, moves, save_path, strip_rootfs, translate, translate_arg, PATH_LIMIT,
};

fn setup(binds: &[u8]) -> Config {
    Config::from_env(Some(b"/srv/root"), Some(binds), None)
}

#[test]
fn absolute_paths_go_below_the_rootfs() {
    let c = setup(b"");
    assert_eq!(translate(&c, b"/etc/passwd"), b"/srv/root/etc/passwd".to_vec());
    assert_eq!(translate(&c, b"/"), b"/srv/root/".to_vec());
}

#[test]
fn relative_and_empty_paths_stay() {
    let c = setup(b"");
    assert_eq!(translate(&c, b"etc/passwd"), b"etc/passwd".to_vec());
    assert_eq!(translate(&c, b""), b"".to_vec());
}

#[test]
fn kernel_file_systems_stay() {
    let c = setup(b"/x:/proc");
    for p in ["/proc", "/proc/self/maps", "/sys", "/sys/kernel", "/dev", "/dev/null"] {
        assert_eq!(translate(&c, p.as_bytes()), p.as_bytes().to_vec());
    }
}

#[test]
fn names_that_begin_like_a_kernel_file_system_move() {
    let c = setup(b"/home:/data/process");
    assert_eq!(translate(&c, b"/devices"), b"/srv/root/devices".to_vec());
    assert_eq!(translate(&c, b"/process"), b"/srv/root/process".to_vec());
    assert_eq!(translate(&c, b"/sysroot/x"), b"/srv/root/sysroot/x".to_vec());
    assert_eq!(translate(&c, b"/data/process/a"), b"/home/a".to_vec());
}

#[test]
fn moved_paths_are_told_apart() {
    let c = setup(b"/home:/mnt");
    assert!(moves(&c, b"/etc"));
    assert!(moves(&c, b"/mnt/a"));
    assert!(moves(&c, b"/srv/rootkit"));
    for p in ["", "etc", "/proc/1", "/sys", "/dev/null", "/srv/root", "/srv/root/etc"] {
        assert!(!moves(&c, p.as_bytes()));
    }
    assert!(!moves(&Config::from_env(None, None, None), b"/etc"));
}

#[test]
fn without_rootfs_nothing_moves() {
    let c = Config::from_env(None, Some(b"/home:/mnt"), None);
    assert_eq!(translate(&c, b"/mnt/a"), b"/mnt/a".to_vec());
    assert_eq!(translate(&c, b"/etc/hosts"), b"/etc/hosts".to_vec());
}

#[test]
fn translating_twice_is_translating_once() {
    let c = setup(b"");
    let once = translate(&c, b"/bin/sh");
    assert_eq!(translate(&c, &once), once);
}

#[test]
fn names_that_begin_like_the_rootfs_move() {
    let c = setup(b"");
    assert_eq!(translate(&c, b"/srv/rootkit"), b"/srv/root/srv/rootkit".to_vec());
    assert_eq!(translate(&c, b"/srv/root"), b"/srv/root".to_vec());
    assert_eq!(translate(&c, b"/srv/root/x"), b"/srv/root/x".to_vec());
    let alpine = Config::from_env(Some(b"/srv/alpine"), None, None);
    assert_eq!(translate(&alpine, b"/srv/alpine-old/f"), b"/srv/alpine/srv/alpine-old/f".to_vec());
}

#[test]
fn test_bind_mount() {
    let c = setup(b"/tmp/lroot_bind_test.txt:/mnt/test.txt");
    assert_eq!(translate(&c, b"/mnt/test.txt"), b"/tmp/lroot_bind_test.txt".to_vec());
    assert_eq!(translate(&c, b"/mnt/test.txt/x"), b"/tmp/lroot_bind_test.txt/x".to_vec());
    assert_eq!(translate(&c, b"/mnt/test.txt2"), b"/srv/root/mnt/test.txt2".to_vec());
}

#[test]
fn the_first_bind_that_covers_a_path_counts() {
    let c = setup(b"/one:/mnt/a;/two:/mnt;/three:/mnt");
    assert_eq!(translate(&c, b"/mnt/a/b"), b"/one/b".to_vec());
    assert_eq!(translate(&c, b"/mnt/c"), b"/two/c".to_vec());
    assert_eq!(translate(&c, b"/mnt"), b"/two".to_vec());
}

#[test]
fn paths_that_would_not_fit_stay() {
    let c = setup(b"/h:/g");
    let fits = vec![b'/'; 1].into_iter().chain(vec![b'a'; PATH_LIMIT - 11]).collect::<Vec<u8>>();
    assert_eq!(translate(&c, &fits).len(), PATH_LIMIT - 1);
    let over = vec![b'/'; 1].into_iter().chain(vec![b'a'; PATH_LIMIT - 10]).collect::<Vec<u8>>();
    assert_eq!(translate(&c, &over), over);
    let mut bound = b"/g/".to_vec();
    bound.extend(vec![b'b'; PATH_LIMIT]);
    assert_eq!(translate(&c, &bound), bound);
}

#[test]
fn null_pointers_stay() {
    let c = setup(b"");
    assert_eq!(translate_arg(&c, None), None);
    assert_eq!(match_non_abs(&c, None), None);
    assert_eq!(save_path(&c, None), None);
    assert_eq!(match_non_abs(&c, Some(b"a/b")), Some(b"a/b".to_vec()));
    assert_eq!(match_non_abs(&c, Some(b"/a/b")), Some(b"/srv/root/a/b".to_vec()));
    assert_eq!(save_path(&c, Some(b"/a")), Some(b"/srv/root/a".to_vec()));
}

#[test]
fn link_targets_lose_the_rootfs() {
    let c = setup(b"");
    assert_eq!(strip_rootfs(&c, b"/srv/root"), b"/".to_vec());
    assert_eq!(strip_rootfs(&c, b"/srv/root/bin/busybox"), b"/bin/busybox".to_vec());
    assert_eq!(strip_rootfs(&c, b"/usr/bin/sh"), b"/usr/bin/sh".to_vec());
    assert_eq!(strip_rootfs(&c, b"/srv/root-old/f"), b"-old/f".to_vec());
    assert_eq!(strip_rootfs(&c, b"/srv/roo"), b"/srv/roo".to_vec());
    let none = Config::from_env(None, None, None);
    assert_eq!(strip_rootfs(&none, b"/usr"), b"/usr".to_vec());
    let moved = translate(&c, b"/etc/motd");
    assert_eq!(strip_rootfs(&c, &moved), b"/etc/motd".to_vec());
}
