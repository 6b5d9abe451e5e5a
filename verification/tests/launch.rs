use lroot::cli::parse_args;
use lroot::launch::{
    bind_env, command_line, command_line_named, environment, exit_status, explicit_preload, follow,
    forward_signal, found_preload, launch, lib_path, program, rootfs_interp, working_dir, Resolve,
};

fn words(list: &[&str]) -> Vec<String> {
    list.iter().map(|s| s.to_string()).collect()
}

fn value(env: &[(String, String)], name: &str) -> Option<String> {
    env.iter().rev().find(|p| p.0 == name).map(|p| p.1.clone())
}

#[test]
fn absolute_programs_lie_in_the_rootfs() {
    assert_eq!(program("/r", "/bin/sh"), "/r/bin/sh");
    assert_eq!(program("/r", "sh"), "sh");
    assert_eq!(program("/r", ""), "");
}

#[test]
fn links_lead_into_the_rootfs_or_beside_the_link() {
    assert_eq!(follow("/r", Some("/r/bin"), "/bin/busybox"), Some("/r/bin/busybox".to_string()));
    assert_eq!(follow("/r", Some("/r/bin"), "busybox"), Some("/r/bin/busybox".to_string()));
    assert_eq!(follow("/r", Some(""), "x"), Some("x".to_string()));
    assert_eq!(follow("/r", None, "x"), None);
    assert_eq!(follow("/r", None, "/x"), Some("/r/x".to_string()));
}

#[test]
fn programs_are_resolved_link_by_link() {
    let mut p = Resolve::start("/r/bin/ls");
    assert!(p.step("/r", Some("/usr/bin/ls")));
    assert_eq!(p.path, "/r/usr/bin/ls");
    assert!(p.step("/r", Some("../lib/busybox")));
    assert_eq!(p.path, "/r/usr/bin/../lib/busybox");
    assert!(!p.step("/r", None));
    assert_eq!(p.path, "/r/usr/bin/../lib/busybox");
    let mut round = Resolve::start("a");
    let mut steps = 0;
    while round.step("/r", Some("a")) {
        steps += 1;
    }
    assert_eq!(steps, 16);
    assert_eq!(round.path, "a");
    let mut root = Resolve::start("/");
    assert!(!root.step("/r", Some("x")));
}

#[test]
fn the_loader_is_the_rootfs_own_only_where_the_host_lacks_it() {
    let interp = Some("/lib/ld.so");
    assert_eq!(rootfs_interp("/r", interp, false, true), Some("/r/lib/ld.so".to_string()));
    assert_eq!(rootfs_interp("/r", interp, true, true), None);
    assert_eq!(rootfs_interp("/r", interp, false, false), None);
    assert_eq!(rootfs_interp("/r", Some(""), false, true), None);
    assert_eq!(rootfs_interp("/r", None, false, true), None);
}

#[test]
fn the_command_line_names_the_applet_for_a_loader() {
    let cmd = words(&["/bin/ls", "-l"]);
    let plain = command_line("/r/bin/ls", "/r/bin/busybox", None, &cmd);
    assert_eq!(plain.program, "/r/bin/ls");
    assert_eq!(plain.args, vec!["-l"]);
    let loaded = command_line("/r/bin/ls", "/r/bin/busybox", Some("/r/ld"), &cmd);
    assert_eq!(loaded.program, "/r/ld");
    assert_eq!(loaded.args, vec!["/r/bin/busybox", "ls", "-l"]);
    let same = command_line("/r/bin/ls", "/r/bin/ls", Some("/r/ld"), &cmd);
    assert_eq!(same.args, vec!["/r/bin/ls", "-l"]);
    let nameless = command_line("/r/..", "/r/x", Some("/r/ld"), &cmd);
    assert_eq!(nameless.args, vec!["/r/x", "-l"]);
    let slashed = command_line("/r/bin/ls/", "/r/x", Some("/r/ld"), &cmd);
    assert_eq!(slashed.args, vec!["/r/x", "ls", "-l"]);
    let given = command_line_named("p", "q", Some("ld"), Some("name"), &cmd);
    assert_eq!(given.args, vec!["q", "name", "-l"]);
}

#[test]
fn libraries_are_chosen_or_missed() {
    assert_eq!(explicit_preload("/x.so", true), Ok("/x.so".to_string()));
    assert_eq!(
        explicit_preload("/x.so", false),
        Err(words(&["intercept library not found: /x.so"]))
    );
    assert_eq!(found_preload("64-musl", Some("/l.so")), Ok("/l.so".to_string()));
    assert_eq!(
        found_preload("64-musl", None),
        Err(words(&[
            "libintercept.so not found for variant 64-musl",
            "Build: cargo build -p intercept --release",
            "Then: cp target/release/libintercept.so /usr/local/lib/libintercept-64-musl.so",
        ]))
    );
}

#[test]
fn the_library_path_puts_the_rootfs_first() {
    assert_eq!(
        lib_path("/r", Some("/host/lib")),
        "/r/lib:/r/lib64:/r/usr/lib:/r/usr/lib64:/r/lib/x86_64-linux-gnu:/r/lib/aarch64-linux-gnu:/r/lib/arm-linux-gnueabihf:/r/usr/lib/x86_64-linux-gnu:/r/usr/lib/aarch64-linux-gnu:/r/usr/lib/arm-linux-gnueabihf:/host/lib"
    );
    assert!(lib_path("", None).ends_with("/usr/lib/arm-linux-gnueabihf"));
}

#[test]
fn the_environment_carries_the_options() {
    let a = match parse_args(&words(&[
        "-r", "/r", "-0", "-v", "-q", "qemu", "-k", "5.10", "-b", "/a:/b", "-b", "/c", "sh",
    ])) {
        Ok(a) => a,
        Err(_) => panic!("refused"),
    };
    let env = environment(&a, "/x.so", None);
    let names: Vec<&str> = env.iter().map(|p| p.0.as_str()).collect();
    assert_eq!(
        names,
        vec![
            "PATH",
            "LD_LIBRARY_PATH",
            "TERM",
            "LITTLE_ROOTFS",
            "LD_PRELOAD",
            "HOME",
            "LITTLE_ROOT_ID",
            "LITTLE_BINDS",
            "LITTLE_KERNEL_RELEASE",
            "LITTLE_QEMU",
            "LITTLE_VERBOSE",
        ]
    );
    assert_eq!(value(&env, "PATH").unwrap(), "/r/usr/bin:/r/bin:/r/sbin:/system/bin");
    assert_eq!(value(&env, "TERM").unwrap(), "xterm-256color");
    assert_eq!(value(&env, "LITTLE_ROOTFS").unwrap(), "/r");
    assert_eq!(value(&env, "LD_PRELOAD").unwrap(), "/x.so");
    assert_eq!(value(&env, "HOME").unwrap(), "/r/root");
    assert_eq!(value(&env, "LITTLE_ROOT_ID").unwrap(), "1");
    assert_eq!(value(&env, "LITTLE_BINDS").unwrap(), "/a:/b;/c:/c");
    assert_eq!(value(&env, "LITTLE_KERNEL_RELEASE").unwrap(), "5.10");
    assert_eq!(value(&env, "LITTLE_QEMU").unwrap(), "qemu");
    assert_eq!(value(&env, "LITTLE_VERBOSE").unwrap(), "1");
}

#[test]
fn unset_options_set_no_variables() {
    let a = match parse_args(&words(&["/r"])) {
        Ok(a) => a,
        Err(_) => panic!("refused"),
    };
    let env = environment(&a, "/x.so", Some("/l"));
    assert_eq!(env.len(), 5);
    assert!(value(&env, "LD_LIBRARY_PATH").unwrap().ends_with(":/l"));
    assert_eq!(bind_env(&[]), "");
}

#[test]
fn test_pwd() {
    let dir = working_dir("/srv/root", Some("/tmp")).unwrap();
    assert!(dir.ends_with("/tmp"));
    assert_eq!(dir, "/srv/root/tmp");
    assert_eq!(working_dir("/r", Some("tmp")), Some("/r/tmp".to_string()));
    assert_eq!(working_dir("/r", Some("//tmp")), Some("/r//tmp".to_string()));
    assert_eq!(working_dir("/r", Some("")), Some("/r/".to_string()));
    assert_eq!(working_dir("/r", None), None);
}

#[test]
fn a_launch_puts_everything_together() {
    let a = match parse_args(&words(&["-r", "/r", "-w", "/tmp", "/bin/sh", "-c", "pwd"])) {
        Ok(a) => a,
        Err(_) => panic!("refused"),
    };
    let l = launch(&a, "/r/bin/dash", Some("/r/ld"), "/x.so", None);
    assert_eq!(l.command.program, "/r/ld");
    assert_eq!(l.command.args, vec!["/r/bin/dash", "sh", "-c", "pwd"]);
    assert_eq!(l.dir.as_deref(), Some("/r/tmp"));
    assert_eq!(value(&l.env, "LITTLE_ROOTFS").as_deref(), Some("/r"));
}

#[test]
fn the_exit_status_is_the_commands() {
    assert_eq!(exit_status(Some(0)), 0);
    assert_eq!(exit_status(Some(42)), 42);
    assert_eq!(exit_status(None), 1);
}

#[test]
fn signals_go_to_a_started_child_only() {
    assert_eq!(forward_signal(0), None);
    assert_eq!(forward_signal(-1), None);
    assert_eq!(forward_signal(77), Some(77));
}
