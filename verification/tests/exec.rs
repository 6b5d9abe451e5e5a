use lroot::config::Config;
use lroot::elf::{ElfInfo, EM_386, EM_AARCH64, EM_ARM, EM_X86_64};
use lroot::exec::{
    self, Attempt, ExecvpSearch, LinkWalk, QemuSearch, Target, Way,
};

fn setup() -> Config {
    Config::from_env(Some(b"/r"), None, None)
}

fn list(items: &[&str]) -> Option<Vec<Vec<u8>>> {
    Some(items.iter().map(|s| s.as_bytes().to_vec()).collect())
}

fn target(path: &str, machine: u16, is_static: bool, interp: &str) -> Target {
    Target {
        path: path.as_bytes().to_vec(),
        info: Some(ElfInfo { machine, is_static, interp: interp.as_bytes().to_vec() }),
        mode: Some(0o755),
        qemu: None,
    }
}

fn shown(attempts: &[Attempt]) -> Vec<String> {
    attempts
        .iter()
        .map(|a| {
            let way = match a.way {
                Way::Run => "run",
                Way::RunIfThere => "run-if-there",
                Way::Trace => "trace",
            };
            let args = match &a.argv {
                None => "null".to_string(),
                Some(l) => l
                    .iter()
                    .map(|s| String::from_utf8(s.clone()).unwrap())
                    .collect::<Vec<_>>()
                    .join(" "),
            };
            format!("{way} {} [{args}]", String::from_utf8(a.path.clone()).unwrap())
        })
        .collect()
}

#[test]
fn host_machines_and_emulators() {
    assert_eq!(exec::host_arch("aarch64"), EM_AARCH64);
    assert_eq!(exec::host_arch("x86_64"), EM_X86_64);
    assert_eq!(exec::host_arch("arm"), EM_ARM);
    assert_eq!(exec::host_arch("x86"), EM_386);
    assert_eq!(exec::host_arch("riscv64"), 0);
    assert_eq!(exec::qemu_name(EM_AARCH64), Some("qemu-aarch64"));
    assert_eq!(exec::qemu_name(EM_X86_64), Some("qemu-x86_64"));
    assert_eq!(exec::qemu_name(EM_ARM), Some("qemu-arm"));
    assert_eq!(exec::qemu_name(EM_386), Some("qemu-i386"));
    assert_eq!(exec::qemu_name(243), None);
}

#[test]
fn the_emulator_is_the_one_that_was_named() {
    assert!(matches!(exec::find_qemu(None, Some(b"/bin"), b"qemu-arm"), QemuSearch::Off));
    match exec::find_qemu(Some(b"/opt/qemu"), None, b"qemu-arm") {
        QemuSearch::Use(q) => assert_eq!(q, b"/opt/qemu".to_vec()),
        _ => panic!("not used"),
    }
    assert!(matches!(exec::find_qemu(Some(b""), None, b"qemu-arm"), QemuSearch::Off));
    let long = vec![b'd'; 4096];
    let mut path = b"/bin::".to_vec();
    path.extend(&long);
    path.extend(b":/usr/bin");
    match exec::find_qemu(Some(b""), Some(&path), b"qemu-arm") {
        QemuSearch::Search(l) => {
            assert_eq!(l, vec![b"/bin/qemu-arm".to_vec(), b"/usr/bin/qemu-arm".to_vec()])
        }
        _ => panic!("no search"),
    }
}

#[test]
fn a_bare_emulator_name_is_searched_for() {
    match exec::find_qemu(Some(b"my-qemu"), Some(b"/bin:/usr/bin"), b"qemu-arm") {
        QemuSearch::Search(l) => {
            assert_eq!(l, vec![b"/bin/my-qemu".to_vec(), b"/usr/bin/my-qemu".to_vec()])
        }
        _ => panic!("no search"),
    }
    assert!(matches!(exec::find_qemu(Some(b"my-qemu"), None, b"qemu-arm"), QemuSearch::Off));
    match exec::find_qemu(Some(b"tools/my-qemu"), Some(b"/bin"), b"qemu-arm") {
        QemuSearch::Use(q) => assert_eq!(q, b"tools/my-qemu".to_vec()),
        _ => panic!("not used"),
    }
}

#[test]
fn only_foreign_programs_need_an_emulator() {
    let own = Some(ElfInfo { machine: EM_X86_64, is_static: false, interp: vec![] });
    let other = Some(ElfInfo { machine: EM_ARM, is_static: false, interp: vec![] });
    let odd = Some(ElfInfo { machine: 1, is_static: false, interp: vec![] });
    assert!(matches!(exec::emulator(EM_X86_64, &own, Some(b"/q"), None), QemuSearch::Off));
    assert!(matches!(exec::emulator(EM_X86_64, &odd, Some(b"/q"), None), QemuSearch::Off));
    assert!(matches!(exec::emulator(EM_X86_64, &None, Some(b"/q"), None), QemuSearch::Off));
    assert!(matches!(exec::emulator(EM_X86_64, &other, Some(b"/q"), None), QemuSearch::Use(_)));
    match exec::emulator(EM_X86_64, &other, Some(b""), Some(b"/bin")) {
        QemuSearch::Search(l) => assert_eq!(l, vec![b"/bin/qemu-arm".to_vec()]),
        _ => panic!("no search"),
    }
}

#[test]
fn emulator_arguments_replace_the_programs_name() {
    assert_eq!(
        exec::build_qemu_argv(b"/q", b"/r/bin/ls", &list(&["ls", "-l"])),
        vec![b"/q".to_vec(), b"/r/bin/ls".to_vec(), b"-l".to_vec()]
    );
    assert_eq!(
        exec::build_qemu_argv(b"/q", b"/p", &None),
        vec![b"/q".to_vec(), b"/p".to_vec()]
    );
}

#[test]
fn environments_are_searched_for_the_preload() {
    assert!(exec::envp_has_ld_preload(&None));
    assert!(!exec::envp_has_ld_preload(&list(&[])));
    assert!(exec::envp_has_ld_preload(&list(&["A=1", "LD_PRELOAD=/x.so"])));
    assert!(!exec::envp_has_ld_preload(&list(&["A=1", "XLD_PRELOAD=/x.so", "LD_PRELOAD"])));
    let mut far = vec![b"A=1".to_vec(); 4096];
    far.push(b"LD_PRELOAD=/x.so".to_vec());
    assert!(!exec::envp_has_ld_preload(&Some(far.clone())));
    far[4095] = b"LD_PRELOAD=".to_vec();
    assert!(exec::envp_has_ld_preload(&Some(far)));
}

#[test]
fn setuid_is_one_bit() {
    assert!(exec::has_setuid_bit(Some(0o104755)));
    assert!(!exec::has_setuid_bit(Some(0o102755)));
    assert!(!exec::has_setuid_bit(None));
}

#[test]
fn applets_get_their_name_in_front() {
    assert_eq!(
        exec::inject_applet(list(&["ls", "-l"]), b"/bin/ls", b"/r/bin/busybox"),
        list(&["ls", "ls", "-l"])
    );
    assert_eq!(
        exec::inject_applet(list(&["x"]), b"/bin/ls", b"/r/usr/bin/ls"),
        list(&["x"])
    );
    assert_eq!(exec::inject_applet(None, b"/bin/ls", b"/r/bin/busybox"), None);
    assert_eq!(exec::basename(b"/a/b/"), b"".to_vec());
    assert_eq!(exec::basename(b"ls"), b"ls".to_vec());
}

#[test]
fn links_are_followed_up_to_a_limit() {
    let c = setup();
    let mut walk = LinkWalk::start(&c, b"/bin/ls");
    assert_eq!(walk.path, b"/r/bin/ls".to_vec());
    assert_eq!(walk.left, 16);
    walk.step(&c, Some(b"/bin/busybox"));
    assert_eq!(walk.path, b"/r/bin/busybox".to_vec());
    assert_eq!(walk.left, 15);
    walk.step(&c, Some(b"busybox"));
    assert_eq!(walk.path, b"/r/bin/busybox".to_vec());
    assert_eq!(walk.left, 0);
    let mut again = LinkWalk::start(&c, b"/x");
    while again.left > 0 {
        again.step(&c, Some(b"/x"));
    }
    assert_eq!(again.path, b"/r/x".to_vec());
}

#[test]
fn a_dynamic_program_goes_through_the_rootfs_loader() {
    let c = setup();
    let t = target("/r/bin/ls", EM_X86_64, false, "/lib/ld.so");
    let got = exec::execve(&c, EM_X86_64, &t, b"/bin/ls", list(&["ls", "-l"]), &None);
    assert_eq!(
        shown(&got),
        vec![
            "run-if-there /r/lib/ld.so [/r/lib/ld.so /r/bin/ls -l]",
            "run /r/bin/ls [ls -l]",
        ]
    );
    let at = exec::execveat(&c, EM_X86_64, &t, b"/bin/ls", list(&["ls", "-l"]), &None);
    assert_eq!(shown(&at), vec!["run /r/bin/ls [ls -l]"]);
}

#[test]
fn programs_out_of_reach_are_traced() {
    let c = setup();
    let t = target("/r/bin/ls", EM_X86_64, true, "");
    let got = exec::execve(&c, EM_X86_64, &t, b"/bin/ls", list(&["ls"]), &None);
    assert_eq!(shown(&got), vec!["trace /r/bin/ls [ls]", "run /r/bin/ls [ls]"]);
    let clean = target("/r/bin/ls", EM_X86_64, false, "/ld");
    let got = exec::execve(&c, EM_X86_64, &clean, b"/bin/ls", list(&["ls"]), &list(&["A=1"]));
    assert_eq!(
        shown(&got),
        vec!["trace /r/bin/ls [ls]", "run-if-there /r/ld [/r/ld /r/bin/ls]", "run /r/bin/ls [ls]"]
    );
    let mut owned = target("/r/bin/su", EM_X86_64, false, "");
    owned.mode = Some(0o4755);
    let got = exec::execveat(&c, EM_X86_64, &owned, b"/bin/su", list(&["su"]), &None);
    assert_eq!(shown(&got), vec!["trace /r/bin/su [su]", "run /r/bin/su [su]"]);
}

#[test]
fn foreign_programs_are_emulated() {
    let c = setup();
    let mut t = target("/r/bin/ls", EM_ARM, true, "/ld");
    let got = exec::execve(&c, EM_X86_64, &t, b"/bin/ls", list(&["ls", "-l"]), &None);
    assert_eq!(shown(&got), vec!["run /r/bin/ls [ls -l]"]);
    t.qemu = Some(b"/usr/bin/qemu-arm".to_vec());
    let got = exec::execve(&c, EM_X86_64, &t, b"/bin/ls", list(&["ls", "-l"]), &None);
    assert_eq!(
        shown(&got),
        vec![
            "run /usr/bin/qemu-arm [/usr/bin/qemu-arm /r/bin/ls -l]",
            "run /r/bin/ls [ls -l]",
        ]
    );
}

#[test]
fn scripts_are_left_to_the_kernel() {
    let c = setup();
    let t = Target { path: b"/r/run.sh".to_vec(), info: None, mode: Some(0o4755), qemu: None };
    let got = exec::execve(&c, EM_X86_64, &t, b"/run.sh", None, &list(&[]));
    assert_eq!(shown(&got), vec!["run /r/run.sh [null]"]);
    let none = Config::from_env(None, None, None);
    assert!(exec::try_rootfs_interp(&none, b"/p", b"/ld", &None).is_none());
}

#[test]
fn execveat_leaves_relative_paths_to_the_kernel() {
    assert!(exec::execveat_is_plain(None));
    assert!(exec::execveat_is_plain(Some(b"")));
    assert!(exec::execveat_is_plain(Some(b"a")));
    assert!(!exec::execveat_is_plain(Some(b"/a")));
}

#[test]
fn execvp_searches_the_path() {
    let c = setup();
    match exec::execvp(&c, b"/bin/ls", Some(b"/a")) {
        ExecvpSearch::Path(p) => assert_eq!(p, b"/r/bin/ls".to_vec()),
        _ => panic!("searched"),
    }
    assert!(matches!(exec::execvp(&c, b"ls", None), ExecvpSearch::AsIs));
    match exec::execvp(&c, b"ls", Some(b"/a::/b")) {
        ExecvpSearch::Search(l) => {
            assert_eq!(l, vec![b"/a/ls".to_vec(), b"/ls".to_vec(), b"/b/ls".to_vec()])
        }
        _ => panic!("not searched"),
    }
    match exec::execvp(&c, &[b'/', 0xff], Some(&[0xff])) {
        ExecvpSearch::Search(l) => assert_eq!(l, vec![b"/".to_vec()]),
        _ => panic!("not searched"),
    }
}

#[test]
fn long_names_are_cut_before_they_are_compared() {
    let mut path = vec![b'a'; 4096];
    path[0] = b'/';
    assert_eq!(exec::keep_path(&path).len(), 4095);
    assert_eq!(exec::keep_path(b"/a"), b"/a".to_vec());
}
