use lroot::distro::{data_dir, distro_dir, distros, find};
use lroot::manage::{
    cmd_install, cmd_list, cmd_remove, cmd_run, comes_no_later, dir_size, find_lroot, help_status,
    invalid_lines, kilo_line, lroot_places, parse_command, print_help, size_unit, Command, Entry,
    Size,
};

fn read(list: &[&str]) -> Command {
    let args: Vec<String> = list.iter().map(|s| s.to_string()).collect();
    parse_command(&args)
}

#[test]
fn help() {
    assert!(matches!(read(&["--help"]), Command::Help));
    let text = print_help();
    assert!(text.contains("Usage: lroot-distro <command>"));
    for word in ["install", "list", "run", "login", "remove", "alpine"] {
        assert!(text.contains(word));
    }
    assert!(text.ends_with("Known distros: alpine, alpine-amd64, ubuntu, debian, arch"));
    assert_eq!(help_status(true), 0);
}

#[test]
fn help_flag() {
    assert!(matches!(read(&["-h"]), Command::Help));
    assert!(matches!(read(&["help", "me"]), Command::Help));
    assert!(print_help().contains("Usage:"));
}

#[test]
fn no_args_shows_help() {
    assert!(matches!(read(&[]), Command::Nothing));
    assert_ne!(help_status(false), 0);
}

#[test]
fn install_unknown_distro() {
    match read(&["install", "nonexistent-distro-xyz"]) {
        Command::Install(name) => match cmd_install(&name, "/d/nonexistent-distro-xyz", false) {
            Err(lines) => {
                assert_eq!(lines[0], "unknown distro: nonexistent-distro-xyz");
                assert_eq!(lines[1], "known: alpine, alpine-amd64, ubuntu, debian, arch");
            }
            Ok(_) => panic!("known"),
        },
        _ => panic!("other command"),
    }
}

#[test]
fn install_missing_arg() {
    assert!(matches!(read(&["install"]), Command::Invalid));
    assert_eq!(
        invalid_lines(),
        vec![
            "lroot-distro: unknown command or missing argument",
            "Try 'lroot-distro --help' for more info."
        ]
    );
}

#[test]
fn install_requires_name() {
    assert!(matches!(read(&["install"]), Command::Invalid));
}

#[test]
fn login_requires_name() {
    assert!(matches!(read(&["login"]), Command::Invalid));
}

#[test]
fn remove_requires_name() {
    assert!(matches!(read(&["remove"]), Command::Invalid));
    assert!(matches!(read(&["run"]), Command::Invalid));
    assert!(matches!(read(&["purge", "x"]), Command::Invalid));
}

#[test]
fn remove_unknown_distro() {
    match read(&["remove", "nonexistent-distro-xyz"]) {
        Command::Remove(name) => assert_eq!(
            cmd_remove(&name, "/d/x", false),
            Err(vec!["not installed: nonexistent-distro-xyz".to_string()])
        ),
        _ => panic!("other command"),
    }
    assert_eq!(cmd_remove("x", "/d/x", true), Ok("removing /d/x...".to_string()));
}

#[test]
fn run_unknown_distro() {
    match read(&["run", "nonexistent-distro-xyz"]) {
        Command::Run(name, cmd) => match cmd_run(&name, "/d/x", false, false, &cmd) {
            Err(lines) => {
                assert_eq!(lines[0], "distribution not installed: nonexistent-distro-xyz");
                assert_eq!(
                    lines[1],
                    "install with: lroot-distro install nonexistent-distro-xyz"
                );
            }
            Ok(_) => panic!("installed"),
        },
        _ => panic!("other command"),
    }
}

#[test]
fn login_unknown_distro() {
    match read(&["login", "nonexistent-distro-xyz"]) {
        Command::Run(name, cmd) => match cmd_run(&name, "/d/x", false, false, &cmd) {
            Err(lines) => {
                assert!(lines[0].contains("not installed"));
                assert_eq!(lines[0], "distribution not installed: nonexistent-distro-xyz");
            }
            Ok(_) => panic!("installed"),
        },
        _ => panic!("other command"),
    }
}

#[test]
fn login_takes_no_command() {
    match read(&["login", "alpine", "ignored"]) {
        Command::Run(name, cmd) => {
            assert_eq!(name, "alpine");
            assert!(cmd.is_empty());
        }
        _ => panic!("other command"),
    }
}

#[test]
fn list_empty() {
    assert!(matches!(read(&["list"]), Command::List));
    assert!(cmd_list(Vec::new()).is_empty());
}

#[test]
fn list_with_env_dir() {
    assert_eq!(data_dir(Some("/tmp/here"), Some("/home/me")), "/tmp/here");
    assert_eq!(distro_dir(Some("/tmp/here"), None, "mydistro"), "/tmp/here/mydistro");
    assert!(matches!(read(&["list"]), Command::List));
    let list = cmd_list(vec![Entry { name: b"mydistro".to_vec(), size: 4096 }]);
    assert_eq!(list.len(), 1);
    assert_eq!(list[0].name, b"mydistro".to_vec());
    assert_eq!(list[0].size, 4096);
    match size_unit(list[0].size) {
        Size::Kilo(n) => assert_eq!(kilo_line("mydistro", n), "mydistro  4K"),
        _ => panic!("other unit"),
    }
}

#[test]
fn distributions_are_listed_by_name() {
    let entry = |name: &str, size: u64| Entry { name: name.as_bytes().to_vec(), size };
    let list = cmd_list(vec![entry("debian", 3), entry("alpine-amd64", 2), entry("alpine", 1), entry("B", 4)]);
    let names: Vec<(Vec<u8>, u64)> = list.into_iter().map(|e| (e.name, e.size)).collect();
    assert_eq!(
        names,
        vec![
            (b"B".to_vec(), 4),
            (b"alpine".to_vec(), 1),
            (b"alpine-amd64".to_vec(), 2),
            (b"debian".to_vec(), 3)
        ]
    );
    assert!(comes_no_later(b"a", b"a"));
    assert!(comes_no_later(b"", b"a"));
    assert!(!comes_no_later(b"ab", b"a"));
    assert!(!comes_no_later(&[0xff], b"a"));
}

#[test]
fn sizes_have_units() {
    assert!(matches!(size_unit(0), Size::Kilo(0)));
    assert!(matches!(size_unit(2047), Size::Kilo(1)));
    assert!(matches!(size_unit(1048576), Size::Kilo(1024)));
    assert!(matches!(size_unit(1048577), Size::Mega(1048577)));
    assert!(matches!(size_unit(1 << 30), Size::Mega(_)));
    assert!(matches!(size_unit((1 << 30) + 1), Size::Giga(_)));
    assert_eq!(dir_size(&[]), Some(0));
    assert_eq!(dir_size(&[1, 2, 3]), Some(6));
    assert_eq!(dir_size(&[u64::MAX, 1]), None);
}

#[test]
fn known_distributions_are_found() {
    assert_eq!(distros().len(), 5);
    let alpine = find("alpine").unwrap();
    assert_eq!(alpine.name, "alpine");
    assert_eq!(
        alpine.tarball_url,
        "https://dl-cdn.alpinelinux.org/alpine/v3.21/releases/aarch64/alpine-minirootfs-3.21.3-aarch64.tar.gz"
    );
    assert!(find("ubuntu").unwrap().tarball_url.ends_with(".tar.xz"));
    assert!(find("Alpine").is_none());
    assert!(find("").is_none());
    match cmd_install("arch", "/d/arch", false) {
        Ok(d) => assert!(d.tarball_url.ends_with("/archlinux-arm64.tar.gz")),
        Err(_) => panic!("refused"),
    }
}

#[test]
fn installed_distributions_are_not_replaced() {
    match cmd_install("alpine", "/d/alpine", true) {
        Err(lines) => assert_eq!(lines, vec!["already installed: alpine (/d/alpine)"]),
        Ok(_) => panic!("replaced"),
    }
    assert!(cmd_install("unknown", "/d/unknown", true).err().unwrap()[0].starts_with("already"));
}

#[test]
fn distributions_are_kept_in_the_home_directory() {
    assert_eq!(data_dir(None, Some("/home/me")), "/home/me/.lroot/distros");
    assert_eq!(data_dir(None, None), "/tmp/.lroot/distros");
    assert_eq!(distro_dir(None, Some("/home/me/"), "arch"), "/home/me/.lroot/distros/arch");
}

#[test]
fn commands_run_through_lroot() {
    let args = |cmd: &[&str], card: bool| {
        let cmd: Vec<String> = cmd.iter().map(|s| s.to_string()).collect();
        cmd_run("x", "/d/x", true, card, &cmd).ok().unwrap()
    };
    assert_eq!(args(&[], false), vec!["-r", "/d/x", "/bin/sh"]);
    assert_eq!(
        args(&["ls", "-l"], true),
        vec!["-r", "/d/x", "-b", "/sdcard:/sdcard", "ls", "-l"]
    );
    match read(&["run", "x", "ls", "-l"]) {
        Command::Run(name, cmd) => {
            assert_eq!(name, "x");
            assert_eq!(cmd, vec!["ls", "-l"]);
        }
        _ => panic!("other command"),
    }
    let read_back = lroot::cli::parse_args(&args(&["ls", "-l"], true)).ok().unwrap();
    assert_eq!(read_back.rootfs, "/d/x");
    assert_eq!(read_back.command, vec!["ls", "-l"]);
    assert_eq!(read_back.binds, vec![("/sdcard".to_string(), "/sdcard".to_string())]);
}

#[test]
fn lroot_is_looked_for_beside_the_program_first() {
    assert_eq!(
        find_lroot(Some("/opt/bin/lroot-distro"), Some("/usr/bin::/bin")),
        vec!["/opt/bin/lroot", "/usr/bin/lroot", "lroot", "/bin/lroot"]
    );
    assert_eq!(find_lroot(None, None), Vec::<String>::new());
    assert_eq!(lroot_places(Some("/a/"), Some("")), vec!["/a/lroot", "lroot"]);
}
