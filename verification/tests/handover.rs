use lroot::cli::parse_args;
use lroot::config::Config;
use lroot::launch::{bind_env, environment};
use lroot::translate::translate;

fn handed_over(argv: &[&str]) -> Config {
    let argv: Vec<String> = argv.iter().map(|s| s.to_string()).collect();
    let a = match parse_args(&argv) {
        Ok(a) => a,
        Err(_) => panic!("refused"),
    };
    let env = environment(&a, "/x.so", None);
    let get = |name: &str| env.iter().find(|p| p.0 == name).map(|p| p.1.as_bytes());
    Config::from_env(get("LITTLE_ROOTFS"), get("LITTLE_BINDS"), get("LITTLE_ROOT_ID"))
}

#[test]
fn hooks_work_under_the_settings_of_the_command_line() {
    let c = handed_over(&["-0", "-b", "/home/me:/mnt/h\u{e4}", "-b", "/data", "/srv/root/", "sh"]);
    assert_eq!(c.rootfs, b"/srv/root".to_vec());
    assert!(c.root_id);
    assert_eq!(c.binds.len(), 2);
    assert_eq!(c.binds[0], (b"/home/me".to_vec(), "/mnt/h\u{e4}".as_bytes().to_vec()));
    assert_eq!(c.binds[1], (b"/data".to_vec(), b"/data".to_vec()));
    assert_eq!(translate(&c, b"/data/x"), b"/data/x".to_vec());
    assert_eq!(translate(&c, b"/etc"), b"/srv/root/etc".to_vec());
}

#[test]
fn unset_options_leave_the_hooks_their_defaults() {
    let c = handed_over(&["/srv/root"]);
    assert!(!c.root_id);
    assert!(c.binds.is_empty());
}

#[test]
fn a_semicolon_in_a_bind_parts_it() {
    let c = handed_over(&["-b", "/a;b:/c", "/r"]);
    assert_eq!(c.binds, vec![(b"b".to_vec(), b"/c".to_vec())]);
    assert_eq!(bind_env(&[("/a;b".to_string(), "/c".to_string())]), "/a;b:/c");
}
