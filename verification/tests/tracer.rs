use lroot::config::Config;
use lroot::tracer::{
    call_kind, fd_link_path, handle_ptrace_syscall, mem_path, ptrace_arg, ptrace_set_arg,
    ptrace_sp, ptrace_syscall_no, scratch, start_stop, tracee_read_string, Answer, Arch, Kind,
    Need, Regs,
};

fn setup() -> Config {
    Config::from_env(Some(b"/r"), None, None)
}

fn regs(sysno: i64) -> Regs {
    Regs { sysno, a0: 10, a1: 11, a2: 12, a3: 13, a4: 14, a5: 15, sp: 0x10000 }
}

fn shown(n: &Need<Vec<u8>>) -> String {
    match n {
        Need::ReadRegs => "regs?".to_string(),
        Need::ReadText(a) => format!("text? {a}"),
        Need::ProbeStatic(p) => format!("static? {}", String::from_utf8(p.clone()).unwrap()),
        Need::ReadLink(fd) => format!("link? {fd}"),
        Need::Write(a, b) => format!("write {a:x} {:?}", String::from_utf8(b.clone()).unwrap()),
        Need::WriteRegs(r) => format!("regs {:x} {:x} {:x} {:x}", r.a0, r.a1, r.a2, r.a3),
        Need::Finish(d) => format!("finish {d}"),
    }
}

fn play(answers: Vec<Answer<Vec<u8>>>) -> Vec<String> {
    play_on(Arch::Aarch64, answers)
}

fn play_on(arch: Arch, answers: Vec<Answer<Vec<u8>>>) -> Vec<String> {
    let c = setup();
    let (mut stop, need) = start_stop(arch);
    let mut out = vec![shown(&need)];
    for a in answers {
        let (next, need) = handle_ptrace_syscall(&c, stop, a);
        out.push(shown(&need));
        stop = next;
    }
    out
}

fn text(s: &str) -> Answer<Vec<u8>> {
    Answer::Text(Some(s.as_bytes().to_vec()))
}

#[test]
fn registers_are_numbered() {
    let mut r = regs(56);
    assert_eq!(ptrace_syscall_no(&r), 56);
    assert_eq!(ptrace_sp(&r), 0x10000);
    for n in 0..6 {
        assert_eq!(ptrace_arg(&r, n), 10 + n as u64);
        ptrace_set_arg(&mut r, n, 20 + n as u64);
        assert_eq!(ptrace_arg(&r, n), 20 + n as u64);
    }
    assert_eq!(ptrace_arg(&r, 6), 0);
    let before = r;
    ptrace_set_arg(&mut r, 6, 1);
    assert!(before == r);
}

#[test]
fn paths_below_proc_hold_numbers() {
    assert_eq!(mem_path(1234), b"/proc/1234/mem".to_vec());
    assert_eq!(mem_path(0), b"/proc/0/mem".to_vec());
    assert_eq!(mem_path(-5), b"/proc//mem".to_vec());
    assert_eq!(fd_link_path(7, 3), b"/proc/7/fd/3".to_vec());
    assert_eq!(fd_link_path(7, -42), b"/proc/7/fd/-42".to_vec());
    assert_eq!(fd_link_path(i32::MAX, 0), b"/proc/2147483647/fd/0".to_vec());
}

#[test]
fn traced_text_ends_at_a_zero_or_at_what_was_read() {
    assert_eq!(tracee_read_string(b"/a\0b", 4), Some(b"/a".to_vec()));
    assert_eq!(tracee_read_string(b"/abc", 3), Some(b"/ab".to_vec()));
    assert_eq!(tracee_read_string(b"\0abc", 4), Some(b"".to_vec()));
    assert_eq!(tracee_read_string(b"/abc", 0), None);
    assert_eq!(tracee_read_string(b"/abc", -1), None);
}

fn all(arch: Arch, numbers: &[i64], kind: Kind) {
    for n in numbers {
        assert!(call_kind(arch, *n) == kind, "{n}");
    }
}

#[test]
fn calls_are_told_apart_by_number() {
    let arch = Arch::Aarch64;
    all(arch, &[221], Kind::Exec);
    all(arch, &[281], Kind::ExecAt);
    all(arch, &[56, 48, 79, 34, 35, 53, 54, 78, 88, 291], Kind::At);
    all(arch, &[8, 9, 11, 12, 39, 43, 45, 49], Kind::First);
    all(arch, &[40], Kind::Second);
    all(arch, &[36], Kind::Third);
    all(arch, &[37, 38, 276], Kind::Both);
    all(arch, &[63, 64, 93, 257, 59, 2, 0, -1], Kind::Other);
}

#[test]
fn calls_have_other_numbers_on_x86_64() {
    let arch = Arch::X86_64;
    all(arch, &[59], Kind::Exec);
    all(arch, &[322], Kind::ExecAt);
    all(arch, &[257, 258, 260, 261, 262, 263, 267, 268, 269, 280, 332], Kind::At);
    all(arch, &[2, 4, 6, 21, 76, 80, 83, 84, 85, 87, 89, 90, 92, 94, 132, 137, 166], Kind::First);
    all(arch, &[191, 192, 194, 195, 235], Kind::First);
    all(arch, &[88, 165], Kind::Second);
    all(arch, &[266], Kind::Third);
    all(arch, &[264, 265, 316], Kind::Both);
    all(arch, &[82, 86], Kind::Pair);
    all(arch, &[49, 50, 57, 54, 62, 74, 77, 0, 1, 56, 221, 78, 79, 38, -1], Kind::Other);
}

#[test]
fn calls_have_other_numbers_on_x86() {
    let arch = Arch::X86;
    all(arch, &[11], Kind::Exec);
    all(arch, &[358], Kind::ExecAt);
    all(arch, &[295, 296, 298, 299, 300, 301, 305, 306, 307, 320, 383], Kind::At);
    all(arch, &[5, 8, 10, 12, 15, 16, 18, 22, 30, 33, 39, 40, 52, 84, 85, 92, 99], Kind::First);
    all(arch, &[106, 107, 182, 193, 195, 196, 198, 212, 229, 230, 232, 233, 268, 271], Kind::First);
    all(arch, &[21, 83], Kind::Second);
    all(arch, &[304], Kind::Third);
    all(arch, &[302, 303, 353], Kind::Both);
    all(arch, &[9, 38], Kind::Pair);
    all(arch, &[1, 3, 4, 6, 56, 257, -1], Kind::Other);
}

#[test]
fn scratch_lies_below_the_stack() {
    assert_eq!(scratch(0x10000, 0), Some(0x10000 - 16));
    assert_eq!(scratch(0x10000, 15), Some(0x10000 - 16));
    assert_eq!(scratch(0x10000, 16), Some(0x10000 - 32));
    assert_eq!(scratch(0x10000, 4095), Some(0x10000 - 4096));
    assert_eq!(scratch(0x10000, 4096), None);
    assert_eq!(scratch(0, 0), Some(u64::MAX - 15));
}

#[test]
fn an_open_call_gets_a_translated_path() {
    assert_eq!(
        play(vec![
            Answer::Regs(Some(regs(56))),
            text("/etc/hosts"),
            Answer::Regs(Some(Regs { sp: 0x2000, ..regs(56) })),
            Answer::Flag(true),
            Answer::Flag(true),
            Answer::Flag(true),
        ]),
        vec![
            "regs?",
            "text? 11",
            "regs?",
            "write 1ff0 \"/r/etc/hosts\"",
            "write 1ffc \"\\0\"",
            "regs a 1ff0 c d",
            "finish false",
        ]
    );
}

#[test]
fn untouched_paths_leave_the_registers_alone() {
    assert_eq!(
        play(vec![Answer::Regs(Some(regs(56))), text("/proc/self")]),
        vec!["regs?", "text? 11", "finish false"]
    );
    assert_eq!(
        play(vec![Answer::Regs(Some(Regs { a0: -100i32 as u32 as u64, ..regs(79) })), text("a")]),
        vec!["regs?", "text? 11", "finish false"]
    );
    assert_eq!(play(vec![Answer::Regs(Some(regs(63)))]), vec!["regs?", "finish false"]);
    assert_eq!(play(vec![Answer::Regs(None)]), vec!["regs?", "finish false"]);
    assert_eq!(
        play(vec![Answer::Regs(Some(regs(56))), Answer::Text(None)]),
        vec!["regs?", "text? 11", "finish false"]
    );
}

#[test]
fn relative_paths_count_from_their_directory() {
    assert_eq!(
        play(vec![
            Answer::Regs(Some(regs(56))),
            text("hosts"),
            text("/etc"),
            Answer::Regs(Some(regs(56))),
            Answer::Flag(false),
        ]),
        vec![
            "regs?",
            "text? 11",
            "link? 10",
            "regs?",
            "write fff0 \"/r/etc/hosts\"",
            "finish false",
        ]
    );
    assert_eq!(
        play(vec![Answer::Regs(Some(regs(56))), text("hosts"), text("/r/etc")]),
        vec!["regs?", "text? 11", "link? 10", "finish false"]
    );
}

#[test]
fn a_dynamic_program_is_left_after_its_start() {
    assert_eq!(
        play(vec![
            Answer::Regs(Some(regs(221))),
            text("/bin/ls"),
            Answer::Flag(false),
            text("/bin/ls"),
            Answer::Flag(true),
            Answer::Flag(true),
            Answer::Flag(true),
        ]),
        vec![
            "regs?",
            "text? 10",
            "static? /bin/ls",
            "text? 10",
            "write fff0 \"/r/bin/ls\"",
            "write fff9 \"\\0\"",
            "regs fff0 b c d",
            "finish true",
        ]
    );
    assert_eq!(
        play(vec![Answer::Regs(Some(regs(221))), text("bin/ls")]),
        vec!["regs?", "text? 10", "finish false"]
    );
}

#[test]
fn a_static_program_stays_traced() {
    assert_eq!(
        play(vec![
            Answer::Regs(Some(regs(281))),
            text("/r/bin/ls"),
            Answer::Flag(true),
            text("/r/bin/ls"),
            Answer::Flag(true),
        ]),
        vec![
            "regs?",
            "text? 11",
            "static? /r/bin/ls",
            "text? 11",
            "regs a b c d",
            "finish false",
        ]
    );
}

#[test]
fn both_paths_of_a_rename_are_translated() {
    assert_eq!(
        play(vec![
            Answer::Regs(Some(regs(38))),
            text("/a"),
            Answer::Regs(Some(regs(38))),
            Answer::Flag(true),
            Answer::Flag(true),
            text("/b"),
            Answer::Regs(Some(regs(38))),
            Answer::Flag(true),
            Answer::Flag(true),
            Answer::Flag(true),
        ]),
        vec![
            "regs?",
            "text? 11",
            "regs?",
            "write fff0 \"/r/a\"",
            "write fff4 \"\\0\"",
            "text? 13",
            "regs?",
            "write ffe0 \"/r/b\"",
            "write ffe4 \"\\0\"",
            "regs a fff0 c ffe0",
            "finish false",
        ]
    );
}

#[test]
fn single_path_calls_are_translated() {
    assert_eq!(
        play(vec![Answer::Regs(Some(regs(49))), text("/a"), Answer::Flag(true), Answer::Flag(true)]),
        vec!["regs?", "text? 10", "write fff0 \"/r/a\"", "write fff4 \"\\0\"", "regs fff0 b c d"]
    );
    assert_eq!(
        play(vec![Answer::Regs(Some(regs(36))), text("/a"), Answer::Flag(true), Answer::Flag(false)]),
        vec!["regs?", "text? 12", "write fff0 \"/r/a\"", "write fff4 \"\\0\"", "finish false"]
    );
    assert_eq!(
        play(vec![Answer::Regs(Some(Regs { a0: 0, ..regs(49) }))]),
        vec!["regs?", "finish false"]
    );
}

#[test]
fn an_open_call_on_x86_64_gets_a_translated_path() {
    let answers = || {
        vec![
            Answer::Regs(Some(regs(257))),
            text("/etc/hosts"),
            Answer::Regs(Some(regs(257))),
            Answer::Flag(true),
            Answer::Flag(true),
            Answer::Flag(true),
        ]
    };
    assert_eq!(
        play_on(Arch::X86_64, answers()),
        vec![
            "regs?",
            "text? 11",
            "regs?",
            "write fff0 \"/r/etc/hosts\"",
            "write fffc \"\\0\"",
            "regs a fff0 c d",
            "finish false",
        ]
    );
    assert_eq!(play_on(Arch::X86_64, vec![Answer::Regs(Some(regs(56)))]), vec!["regs?", "finish false"]);
    assert_eq!(play(vec![Answer::Regs(Some(regs(257)))]), vec!["regs?", "finish false"]);
}

#[test]
fn both_paths_of_a_rename_without_directories_are_translated() {
    for (arch, sysno) in [(Arch::X86_64, 82), (Arch::X86, 38)] {
        assert_eq!(
            play_on(
                arch,
                vec![
                    Answer::Regs(Some(regs(sysno))),
                    text("/a/sixteen/bytes"),
                    Answer::Flag(true),
                    Answer::Flag(true),
                    text("/b"),
                    Answer::Flag(true),
                    Answer::Flag(true),
                    Answer::Flag(true),
                ]
            ),
            vec![
                "regs?",
                "text? 10",
                "write ffe0 \"/r/a/sixteen/bytes\"",
                "write fff2 \"\\0\"",
                "text? 11",
                "write ffd0 \"/r/b\"",
                "write ffd4 \"\\0\"",
                "regs ffe0 ffd0 c d",
                "finish false",
            ]
        );
    }
}

#[test]
fn the_second_path_goes_below_the_stack_where_the_first_one_stays() {
    assert_eq!(
        play(vec![
            Answer::Regs(Some(regs(37))),
            text("/proc/a"),
            text("/b"),
            Answer::Regs(Some(Regs { sp: 0x2000, ..regs(37) })),
            Answer::Flag(true),
            Answer::Flag(true),
            Answer::Flag(true),
        ]),
        vec![
            "regs?",
            "text? 11",
            "text? 13",
            "regs?",
            "write 1ff0 \"/r/b\"",
            "write 1ff4 \"\\0\"",
            "regs a b c 1ff0",
            "finish false",
        ]
    );
}

#[test]
fn the_name_of_a_link_is_the_second_path() {
    assert_eq!(
        play_on(
            Arch::X86_64,
            vec![Answer::Regs(Some(regs(88))), text("/a"), Answer::Flag(true), Answer::Flag(true)]
        ),
        vec!["regs?", "text? 11", "write fff0 \"/r/a\"", "write fff4 \"\\0\"", "regs a fff0 c d"]
    );
    assert_eq!(
        play_on(Arch::X86_64, vec![Answer::Regs(Some(Regs { a1: 0, ..regs(88) }))]),
        vec!["regs?", "finish false"]
    );
}
