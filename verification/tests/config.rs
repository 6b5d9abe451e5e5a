use lroot::config::{binds, is_root_id, is_verbose, rootfs_bytes, Config};

#[test]
fn rootfs_loses_trailing_slashes() {
    let c = Config::from_env(Some(b"/srv/root//"), Some(b"/home:/mnt/host;bad;/a:/b:/c"), None);
    assert_eq!(c.rootfs, b"/srv/root".to_vec());
    assert_eq!(c.binds.len(), 2);
    assert_eq!(c.binds[0], (b"/home".to_vec(), b"/mnt/host".to_vec()));
    assert_eq!(c.binds[1], (b"/a".to_vec(), b"/b:/c".to_vec()));
    assert!(!c.root_id);
}

#[test]
fn nothing_set_means_nothing_configured() {
    let c = Config::from_env(None, None, None);
    assert!(c.rootfs.is_empty());
    assert!(c.binds.is_empty());
    assert!(!c.root_id);
    assert_eq!(rootfs_bytes(Some(b"////")), Vec::<u8>::new());
}

#[test]
fn empty_values_count_as_set() {
    let c = Config::from_env(Some(b"/r"), Some(b""), Some(b""));
    assert!(c.binds.is_empty());
    assert!(c.root_id);
    assert!(is_root_id(Some(b"")));
    assert!(!is_root_id(None));
    assert!(is_verbose(Some(b"0")));
    assert!(!is_verbose(None));
}

#[test]
fn binds_keep_empty_sides() {
    let list = binds(Some(b":/guest;/host:;:"));
    assert_eq!(list.len(), 3);
    assert_eq!(list[0], (b"".to_vec(), b"/guest".to_vec()));
    assert_eq!(list[1], (b"/host".to_vec(), b"".to_vec()));
    assert_eq!(list[2], (b"".to_vec(), b"".to_vec()));
}
