//! The command line of `lroot`.
use vstd::prelude::*;

#[allow(unused_imports)]
use crate::intercept::pairs;
use crate::text::{add_text, chars_of, find_char, piece, same_text, text_starts, texts_from};
#[allow(unused_imports)]
use crate::text::{char_at_or_end, text_opt, texts};

verus! {

/// What `--help` prints.
pub const HELP: &'static str = "\
Usage: lroot [option...] -r rootfs [command...]
       lroot [option...] rootfs [command...]

Run a command inside a rootfs with path translation via LD_PRELOAD.
Faster than proot (2-4x) since it hooks libc functions instead of
ptrace syscall interception.

Options:
  -r, --rootfs <path>     Path to the root filesystem
  -0, --root-id           Make uid/gid appear as 0 (fake root)
  -w, --pwd <dir>         Set initial working directory inside rootfs
  -b, --bind <src:dest>   Mount --bind, map host path into rootfs
  -q, --qemu <binary>     QEMU user-mode binary for cross-architecture
  -k, --kernel-release <ver>  Fake kernel version (uname -r)
  -v, --verbose           Enable debug logging from the intercept library
  -i, --intercept <so>    Path to libintercept.so (auto-detected otherwise)
  -h, --help              Show this help

Path translation:
  All file operations (open, stat, readlink, execve, etc.) have their
  paths prefixed with the rootfs path. /proc, /sys, /dev paths pass
  through to the host unchanged. Symlink targets are also translated.

Fake root (-0):
  Hook getuid/geteuid/getgid/getegid to return 0.
  Also fakes Uid:/Gid: lines in /proc/self/status.
  Requires a /etc/passwd with root entry (supplied via -r rootfs).

Bind mount (-b):
  Format: host_path:guest_path
  The guest path is inside the rootfs. Reads/writes to the guest path
  will be redirected to the host path.

QEMU (-q):
  When enabled, any ELF binary with a different architecture than the
  host is automatically run through the specified QEMU user-mode binary.
  The QEMU binary itself must exist on the host (not inside rootfs).

Multi-architecture:
  lroot auto-detects the target binary's ELF class (32/64-bit) and
  libc (glibc/musl) from its program interpreter. It then selects the
  matching libintercept-{arch}-{libc}.so, falling back to libintercept.so.
  Use -i to override.

Examples:
  lroot -r ~/rootfs /bin/sh
  lroot ~/rootfs ls -la
  lroot -r ~/rootfs -0 /bin/sh
  lroot -r ~/rootfs -b /home:/mnt/host /bin/sh
  lroot -r ~/rootfs -q qemu-aarch64 /bin/sh
  lroot -r ~/rootfs -k 5.10.0 /bin/sh";

/// What the command line asks for.
pub struct Args {
    pub rootfs: String,
    pub command: Vec<String>,
    pub qemu: Option<String>,
    pub fake_root: bool,
    pub pwd: Option<String>,
    /// The bind mounts, host path first.
    pub binds: Vec<(String, String)>,
    pub kernel_release: Option<String>,
    pub verbose: bool,
    pub intercept: Option<String>,
}

/// What the command line asks for, as mathematical values.
#[verifier::ext_equal]
pub struct ArgsValue {
    pub rootfs: Seq<char>,
    pub command: Seq<Seq<char>>,
    pub qemu: Option<Seq<char>>,
    pub fake_root: bool,
    pub pwd: Option<Seq<char>>,
    pub binds: Seq<(Seq<char>, Seq<char>)>,
    pub kernel_release: Option<Seq<char>>,
    pub verbose: bool,
    pub intercept: Option<Seq<char>>,
}

impl View for Args {
    type V = ArgsValue;

    open spec fn view(&self) -> ArgsValue {
        ArgsValue {
            rootfs: self.rootfs@,
            command: texts(self.command@),
            qemu: text_opt(self.qemu),
            fake_root: self.fake_root,
            pwd: text_opt(self.pwd),
            binds: pairs(self.binds@),
            kernel_release: text_opt(self.kernel_release),
            verbose: self.verbose,
            intercept: text_opt(self.intercept),
        }
    }
}

/// What an argument that starts with a dash asks for.
#[derive(Clone, Copy)]
pub enum Flag {
    /// `--`: what follows are no options.
    Rest,
    Rootfs,
    Qemu,
    KernelRelease,
    Intercept,
    RootId,
    Pwd,
    Bind,
    Verbose,
    Help,
    Unknown,
}

/// Why a command line starts nothing.
pub enum Refusal {
    /// Help was asked for.
    Help,
    /// The option has no value behind it.
    NeedsValue(Flag),
    /// There is no such option.
    UnknownOption(String),
    /// There is no root filesystem.
    NoRootfs,
}

/// A command line that was read, as a mathematical value.
pub enum Reading {
    Run(ArgsValue),
    Help,
    NeedsValue(Flag),
    UnknownOption(Seq<char>),
    NoRootfs,
}

/// The contents of what `parse_args` gives.
pub open spec fn reading(r: Result<Args, Refusal>) -> Reading {
    match r {
        Ok(a) => Reading::Run(a@),
        Err(Refusal::Help) => Reading::Help,
        Err(Refusal::NeedsValue(f)) => Reading::NeedsValue(f),
        Err(Refusal::UnknownOption(s)) => Reading::UnknownOption(s@),
        Err(Refusal::NoRootfs) => Reading::NoRootfs,
    }
}

/// What an argument that starts with a dash asks for.
pub open spec fn flag_of(arg: Seq<char>) -> Flag {
    if arg == "--"@ {
        Flag::Rest
    } else if arg == "-r"@ || arg == "--rootfs"@ {
        Flag::Rootfs
    } else if arg == "-q"@ || arg == "--qemu"@ {
        Flag::Qemu
    } else if arg == "-k"@ || arg == "--kernel-release"@ {
        Flag::KernelRelease
    } else if arg == "-i"@ || arg == "--intercept"@ {
        Flag::Intercept
    } else if arg == "-0"@ || arg == "--root-id"@ {
        Flag::RootId
    } else if arg == "-w"@ || arg == "--pwd"@ {
        Flag::Pwd
    } else if arg == "-b"@ || arg == "--bind"@ {
        Flag::Bind
    } else if arg == "-v"@ || arg == "--verbose"@ {
        Flag::Verbose
    } else if arg == "-h"@ || arg == "--help"@ {
        Flag::Help
    } else {
        Flag::Unknown
    }
}

/// Whether an argument is an option.
pub open spec fn is_option(arg: Seq<char>) -> bool {
    "-"@.is_prefix_of(arg)
}

/// The bind mount that the value of `-b` describes: the two sides of its first colon, or one path for
/// both.
pub open spec fn bind_of(value: Seq<char>) -> (Seq<char>, Seq<char>) {
    let colon = char_at_or_end(value, 0, ':');
    if colon < value.len() {
        (value.take(colon), value.skip(colon + 1))
    } else {
        (value, value)
    }
}

/// What is asked for before anything is read.
pub open spec fn nothing() -> ArgsValue {
    ArgsValue {
        rootfs: Seq::empty(),
        command: Seq::empty(),
        qemu: None,
        fake_root: false,
        pwd: None,
        binds: Seq::empty(),
        kernel_release: None,
        verbose: false,
        intercept: None,
    }
}

/// What is asked for once everything is read: a root filesystem is needed, and the command is a shell
/// where none is given.
pub open spec fn settled(a: ArgsValue) -> Reading {
    if a.rootfs.len() == 0 {
        Reading::NoRootfs
    } else if a.command.len() == 0 {
        Reading::Run(ArgsValue { command: seq!["/bin/sh"@], ..a })
    } else {
        Reading::Run(a)
    }
}

/// Whether an option has its value behind it.
pub open spec fn takes_value(flag: Flag) -> bool {
    flag is Rootfs || flag is Qemu || flag is KernelRelease || flag is Intercept || flag is Pwd
        || flag is Bind
}

/// What is asked for with one more option and its value.
pub open spec fn with_value(a: ArgsValue, flag: Flag, value: Seq<char>) -> ArgsValue {
    match flag {
        Flag::Rootfs => ArgsValue { rootfs: value, ..a },
        Flag::Qemu => ArgsValue { qemu: Some(value), ..a },
        Flag::KernelRelease => ArgsValue { kernel_release: Some(value), ..a },
        Flag::Intercept => ArgsValue { intercept: Some(value), ..a },
        Flag::Pwd => ArgsValue { pwd: Some(value), ..a },
        Flag::Bind => ArgsValue { binds: a.binds.push(bind_of(value)), ..a },
        _ => a,
    }
}

/// What a list of arguments asks for, on top of what was read before it. The first argument that is no
/// option names the root filesystem unless one was named; the next one starts the command, which is
/// everything from there on.
pub open spec fn read_from(args: Seq<Seq<char>>, positional: bool, a: ArgsValue) -> Reading
    decreases args.len(),
{
    if args.len() == 0 {
        settled(a)
    } else {
        let arg = args[0];
        let rest = args.skip(1);
        if positional || !is_option(arg) {
            if a.rootfs.len() == 0 {
                read_from(rest, positional, ArgsValue { rootfs: arg, ..a })
            } else {
                settled(ArgsValue { command: args, ..a })
            }
        } else if takes_value(flag_of(arg)) {
            if rest.len() == 0 {
                Reading::NeedsValue(flag_of(arg))
            } else {
                read_from(rest.skip(1), positional, with_value(a, flag_of(arg), rest[0]))
            }
        } else {
            match flag_of(arg) {
                Flag::Rest => read_from(rest, true, a),
                Flag::RootId => read_from(rest, positional, ArgsValue { fake_root: true, ..a }),
                Flag::Verbose => read_from(rest, positional, ArgsValue { verbose: true, ..a }),
                Flag::Help => Reading::Help,
                _ => Reading::UnknownOption(arg),
            }
        }
    }
}

/// What a command line asks for.
pub open spec fn read_args(args: Seq<Seq<char>>) -> Reading {
    read_from(args, false, nothing())
}

/// What an argument that starts with a dash asks for.
pub fn flag(arg: &str) -> (r: Flag)
    ensures
        r == flag_of(arg@),
{
    if same_text(arg, "--") {
        Flag::Rest
    } else if same_text(arg, "-r") || same_text(arg, "--rootfs") {
        Flag::Rootfs
    } else if same_text(arg, "-q") || same_text(arg, "--qemu") {
        Flag::Qemu
    } else if same_text(arg, "-k") || same_text(arg, "--kernel-release") {
        Flag::KernelRelease
    } else if same_text(arg, "-i") || same_text(arg, "--intercept") {
        Flag::Intercept
    } else if same_text(arg, "-0") || same_text(arg, "--root-id") {
        Flag::RootId
    } else if same_text(arg, "-w") || same_text(arg, "--pwd") {
        Flag::Pwd
    } else if same_text(arg, "-b") || same_text(arg, "--bind") {
        Flag::Bind
    } else if same_text(arg, "-v") || same_text(arg, "--verbose") {
        Flag::Verbose
    } else if same_text(arg, "-h") || same_text(arg, "--help") {
        Flag::Help
    } else {
        Flag::Unknown
    }
}

/// The bind mount that the value of `-b` describes.
pub fn bind(value: &str) -> (r: (String, String))
    ensures
        (r.0@, r.1@) == bind_of(value@),
{
    let all = chars_of(value);
    let colon: usize = find_char(all.as_slice(), 0, ':');
    if colon < all.len() {
        let host = piece(value, 0, colon);
        let guest = piece(value, colon + 1, all.len());
        proof {
            assert(host@ =~= value@.take(colon as int));
            assert(guest@ =~= value@.skip(colon + 1));
        }
        (host, guest)
    } else {
        (value.to_owned(), value.to_owned())
    }
}

fn takes(flag: Flag) -> (r: bool)
    ensures
        r == takes_value(flag),
{
    match flag {
        Flag::Rootfs
        | Flag::Qemu
        | Flag::KernelRelease
        | Flag::Intercept
        | Flag::Pwd
        | Flag::Bind => true,
        _ => false,
    }
}

fn set_value(a: Args, flag: Flag, value: &str) -> (r: Args)
    ensures
        r@ == with_value(a@, flag, value@),
{
    let mut a = a;
    let ghost before = a@;
    match flag {
        Flag::Rootfs => {
            a.rootfs = value.to_owned();
        },
        Flag::Qemu => {
            a.qemu = Some(value.to_owned());
        },
        Flag::KernelRelease => {
            a.kernel_release = Some(value.to_owned());
        },
        Flag::Intercept => {
            a.intercept = Some(value.to_owned());
        },
        Flag::Pwd => {
            a.pwd = Some(value.to_owned());
        },
        Flag::Bind => {
            a.binds.push(bind(value));
            proof {
                assert(pairs(a.binds@) =~= before.binds.push(bind_of(value@)));
            }
        },
        _ => {},
    }
    a
}

fn settle(a: Args) -> (r: Result<Args, Refusal>)
    ensures
        reading(r) == settled(a@),
{
    let mut a = a;
    if a.rootfs.as_str().is_empty() {
        return Err(Refusal::NoRootfs);
    }
    if a.command.len() == 0 {
        a.command.push("/bin/sh".to_owned());
        proof {
            assert(texts(a.command@) =~= seq!["/bin/sh"@]);
        }
    }
    Ok(a)
}

/// What a command line asks for, given the arguments that follow the program's name.
pub fn parse_args(argv: &[String]) -> (r: Result<Args, Refusal>)
    ensures
        reading(r) == read_args(texts(argv@)),
{
    let ghost all = texts(argv@);
    let mut a = Args {
        rootfs: String::new(),
        command: Vec::new(),
        qemu: None,
        fake_root: false,
        pwd: None,
        binds: Vec::new(),
        kernel_release: None,
        verbose: false,
        intercept: None,
    };
    let mut positional: bool = false;
    let mut i: usize = 0;
    proof {
        assert(a@ =~= nothing());
        assert(all.skip(0) =~= all);
        assert(argv.len() == argv@.len());
    }
    while i < argv.len()
        invariant
            i <= argv@.len(),
            argv@.len() <= usize::MAX,
            all == texts(argv@),
            read_args(all) == read_from(all.skip(i as int), positional, a@),
            a.command@.len() == 0,
        decreases argv.len() - i,
    {
        let arg = argv[i].as_str();
        let ghost left = all.skip(i as int);
        proof {
            assert(left[0] == arg@);
            assert(left.skip(1) =~= all.skip(i + 1));
        }
        i += 1;
        if positional || !text_starts(arg, "-") {
            if a.rootfs.as_str().is_empty() {
                a.rootfs = arg.to_owned();
                continue;
            }
            a.command = texts_from(argv, i - 1);
            return settle(a);
        }
        let kind = flag(arg);
        if takes(kind) {
            if i == argv.len() {
                return Err(Refusal::NeedsValue(kind));
            }
            let value = argv[i].as_str();
            proof {
                assert(all.skip(i as int)[0] == value@);
                assert(all.skip(i as int).skip(1) =~= all.skip(i + 1));
            }
            a = set_value(a, kind, value);
            i += 1;
            continue;
        }
        match kind {
            Flag::Rest => {
                positional = true;
            },
            Flag::RootId => {
                a.fake_root = true;
            },
            Flag::Verbose => {
                a.verbose = true;
            },
            Flag::Help => {
                return Err(Refusal::Help);
            },
            _ => {
                return Err(Refusal::UnknownOption(arg.to_owned()));
            },
        }
    }
    settle(a)
}

/// What is said of an option without its value.
pub open spec fn needs_text(flag: Flag) -> Seq<char> {
    match flag {
        Flag::Rootfs => "-r needs a path"@,
        Flag::Qemu => "-q needs a path"@,
        Flag::KernelRelease => "-k needs a version"@,
        Flag::Intercept => "-i needs a path"@,
        Flag::Pwd => "-w needs a path"@,
        _ => "-b needs src:dest"@,
    }
}

impl Refusal {
    /// The lines that are printed.
    pub open spec fn said(&self) -> Seq<Seq<char>> {
        match self {
            Refusal::Help => seq![HELP@],
            Refusal::NeedsValue(flag) => seq![needs_text(*flag)],
            Refusal::UnknownOption(arg) => seq!["unknown option: "@ + arg@],
            Refusal::NoRootfs => seq![
                "lroot: no rootfs specified"@,
                "Try 'lroot --help' for more info."@,
            ],
        }
    }

    /// The lines that are printed, to the error stream.
    pub fn lines(&self) -> (r: Vec<String>)
        ensures
            texts(r@) == self.said(),
    {
        let mut out: Vec<String> = Vec::new();
        match self {
            Refusal::Help => {
                out.push(HELP.to_owned());
            },
            Refusal::NeedsValue(flag) => {
                let text = match flag {
                    Flag::Rootfs => "-r needs a path",
                    Flag::Qemu => "-q needs a path",
                    Flag::KernelRelease => "-k needs a version",
                    Flag::Intercept => "-i needs a path",
                    Flag::Pwd => "-w needs a path",
                    _ => "-b needs src:dest",
                };
                out.push(text.to_owned());
            },
            Refusal::UnknownOption(arg) => {
                out.push(add_text("unknown option: ", arg.as_str()));
            },
            Refusal::NoRootfs => {
                out.push("lroot: no rootfs specified".to_owned());
                out.push("Try 'lroot --help' for more info.".to_owned());
            },
        }
        proof {
            assert(texts(out@) =~= self.said());
        }
        out
    }

    /// The status that the program exits with: only asking for help is no failure.
    pub fn status(&self) -> (r: i32)
        ensures
            r == (if self is Help {
                0i32
            } else {
                1i32
            }),
    {
        match self {
            Refusal::Help => 0,
            _ => 1,
        }
    }
}

/// Whether the command of a reading stands at the end of the arguments as it was given, or is the
/// default shell.
pub open spec fn command_is_tail(args: Seq<Seq<char>>, command: Seq<Seq<char>>) -> bool {
    command == seq!["/bin/sh"@] || command.is_suffix_of(args)
}

/// What is run has a root filesystem and a command, and the command is the end of the command line word
/// for word: options of the command are never taken for options of `lroot`.
pub proof fn law_command_is_verbatim(args: Seq<Seq<char>>)
    ensures
        read_args(args) matches Reading::Run(a) ==> a.rootfs.len() > 0 && a.command.len() > 0
            && command_is_tail(args, a.command),
{
    assert(args.skip(0) =~= args);
    lemma_command_is_tail(args, args, false, nothing());
}

proof fn lemma_command_is_tail(
    all: Seq<Seq<char>>,
    args: Seq<Seq<char>>,
    positional: bool,
    a: ArgsValue,
)
    requires
        args.len() <= all.len(),
        args == all.skip(all.len() - args.len()),
        a.command.len() == 0,
    ensures
        read_from(args, positional, a) matches Reading::Run(r) ==> r.rootfs.len() > 0
            && r.command.len() > 0 && command_is_tail(all, r.command),
    decreases args.len(),
{
    if args.len() > 0 {
        let arg = args[0];
        let rest = args.skip(1);
        assert(rest =~= all.skip(all.len() - rest.len()));
        if positional || !is_option(arg) {
            if a.rootfs.len() == 0 {
                lemma_command_is_tail(all, rest, positional, ArgsValue { rootfs: arg, ..a });
            } else {
                assert(args =~= all.subrange(all.len() - args.len(), all.len() as int));
            }
        } else if takes_value(flag_of(arg)) {
            if rest.len() > 0 {
                assert(rest.skip(1) =~= all.skip(all.len() - rest.skip(1).len()));
                lemma_command_is_tail(
                    all,
                    rest.skip(1),
                    positional,
                    with_value(a, flag_of(arg), rest[0]),
                );
            }
        } else {
            match flag_of(arg) {
                Flag::Rest => lemma_command_is_tail(all, rest, true, a),
                Flag::RootId => lemma_command_is_tail(
                    all,
                    rest,
                    positional,
                    ArgsValue { fake_root: true, ..a },
                ),
                Flag::Verbose => lemma_command_is_tail(
                    all,
                    rest,
                    positional,
                    ArgsValue { verbose: true, ..a },
                ),
                _ => {},
            }
        }
    }
}

/// `lroot -r rootfs command...` and `lroot rootfs command...` ask for the same, whatever stands in the
/// place of the command, unless the root filesystem could be taken for an option.
pub proof fn law_two_forms(rootfs: Seq<char>, command: Seq<Seq<char>>)
    requires
        rootfs.len() > 0,
        !is_option(rootfs),
    ensures
        read_args(seq!["-r"@, rootfs] + command) == read_args(seq![rootfs] + command),
{
    reveal_strlit("-");
    reveal_strlit("-r");
    let long = seq!["-r"@, rootfs] + command;
    let short = seq![rootfs] + command;
    reveal_strlit("--");
    assert("-r"@ != "--"@) by {
        assert("-r"@[1] != "--"@[1]);
    }
    assert("-r"@.subrange(0, 1) =~= "-"@);
    assert(is_option("-r"@));
    assert(flag_of("-r"@) is Rootfs);
    assert(long.skip(1).skip(1) =~= command);
    assert(short.skip(1) =~= command);
    assert(long.skip(1)[0] == rootfs);
}

/// Options in front of a command line are read one by one: what they set is there when the rest is
/// read, and the rest decides what is run.
pub proof fn law_switches_compose(args: Seq<Seq<char>>, a: ArgsValue)
    ensures
        read_from(seq!["-0"@] + args, false, a) == read_from(
            args,
            false,
            ArgsValue { fake_root: true, ..a },
        ),
        read_from(seq!["-v"@] + args, false, a) == read_from(
            args,
            false,
            ArgsValue { verbose: true, ..a },
        ),
        read_from(seq!["--"@] + args, false, a) == read_from(args, true, a),
{
    reveal_strlit("-0");
    reveal_strlit("-v");
    reveal_strlit("--");
    assert("-0"@[1] == '0' && "-v"@[1] == 'v' && "--"@[1] == '-');
    lemma_switch("-0"@, args, a);
    lemma_switch("-v"@, args, a);
    lemma_switch("--"@, args, a);
}

proof fn lemma_switch(arg: Seq<char>, args: Seq<Seq<char>>, a: ArgsValue)
    requires
        arg == "-0"@ || arg == "-v"@ || arg == "--"@,
    ensures
        read_from(seq![arg] + args, false, a) == (if arg == "-0"@ {
            read_from(args, false, ArgsValue { fake_root: true, ..a })
        } else if arg == "-v"@ {
            read_from(args, false, ArgsValue { verbose: true, ..a })
        } else {
            read_from(args, true, a)
        }),
{
    reveal_strlit("-");
    reveal_strlit("-0");
    reveal_strlit("-v");
    reveal_strlit("--");
    reveal_strlit("-r");
    reveal_strlit("-q");
    reveal_strlit("-k");
    reveal_strlit("-i");
    reveal_strlit("-w");
    reveal_strlit("-b");
    reveal_strlit("--rootfs");
    reveal_strlit("--qemu");
    reveal_strlit("--kernel-release");
    reveal_strlit("--intercept");
    reveal_strlit("--root-id");
    reveal_strlit("--pwd");
    reveal_strlit("--bind");
    reveal_strlit("--verbose");
    assert((seq![arg] + args).skip(1) =~= args);
    assert((seq![arg] + args)[0] == arg);
    assert(arg.subrange(0, 1) =~= "-"@);
    assert(arg.len() == 2);
    assert(arg != "-r"@ && arg != "-q"@ && arg != "-k"@ && arg != "-i"@ && arg != "-w"@ && arg
        != "-b"@) by {
        assert("-r"@[1] == 'r' && "-q"@[1] == 'q' && "-k"@[1] == 'k' && "-i"@[1] == 'i' && "-w"@[1]
            == 'w' && "-b"@[1] == 'b');
    }
    assert("-0"@[1] == '0' && "-v"@[1] == 'v' && "--"@[1] == '-');
}

/// Each option is known by its short and by its long name.
proof fn lemma_flags()
    ensures
        flag_of("--"@) is Rest && is_option("--"@),
        flag_of("-r"@) is Rootfs && is_option("-r"@),
        flag_of("--rootfs"@) is Rootfs && is_option("--rootfs"@),
        flag_of("-q"@) is Qemu && is_option("-q"@),
        flag_of("--qemu"@) is Qemu && is_option("--qemu"@),
        flag_of("-k"@) is KernelRelease && is_option("-k"@),
        flag_of("--kernel-release"@) is KernelRelease && is_option("--kernel-release"@),
        flag_of("-i"@) is Intercept && is_option("-i"@),
        flag_of("--intercept"@) is Intercept && is_option("--intercept"@),
        flag_of("-w"@) is Pwd && is_option("-w"@),
        flag_of("--pwd"@) is Pwd && is_option("--pwd"@),
        flag_of("-b"@) is Bind && is_option("-b"@),
        flag_of("--bind"@) is Bind && is_option("--bind"@),
        flag_of("-0"@) is RootId && is_option("-0"@),
        flag_of("--root-id"@) is RootId && is_option("--root-id"@),
        flag_of("-v"@) is Verbose && is_option("-v"@),
        flag_of("--verbose"@) is Verbose && is_option("--verbose"@),
        flag_of("-h"@) is Help && is_option("-h"@),
        flag_of("--help"@) is Help && is_option("--help"@),
{
    reveal_strlit("-");
    reveal_strlit("--");
    reveal_strlit("-r");
    reveal_strlit("--rootfs");
    reveal_strlit("-q");
    reveal_strlit("--qemu");
    reveal_strlit("-k");
    reveal_strlit("--kernel-release");
    reveal_strlit("-i");
    reveal_strlit("--intercept");
    reveal_strlit("-w");
    reveal_strlit("--pwd");
    reveal_strlit("-b");
    reveal_strlit("--bind");
    reveal_strlit("-0");
    reveal_strlit("--root-id");
    reveal_strlit("-v");
    reveal_strlit("--verbose");
    reveal_strlit("-h");
    reveal_strlit("--help");
    assert("-r"@.len() == 2 && "-r"@[1] == 'r');
    assert("--rootfs"@.len() == 8 && "--rootfs"@[2] == 'r');
    assert("-q"@.len() == 2 && "-q"@[1] == 'q');
    assert("--qemu"@.len() == 6 && "--qemu"@[2] == 'q');
    assert("-k"@.len() == 2 && "-k"@[1] == 'k');
    assert("--kernel-release"@.len() == 16 && "--kernel-release"@[2] == 'k');
    assert("-i"@.len() == 2 && "-i"@[1] == 'i');
    assert("--intercept"@.len() == 11 && "--intercept"@[2] == 'i');
    assert("-w"@.len() == 2 && "-w"@[1] == 'w');
    assert("--pwd"@.len() == 5 && "--pwd"@[2] == 'p');
    assert("-b"@.len() == 2 && "-b"@[1] == 'b');
    assert("--bind"@.len() == 6 && "--bind"@[2] == 'b');
    assert("-0"@.len() == 2 && "-0"@[1] == '0');
    assert("--root-id"@.len() == 9 && "--root-id"@[2] == 'r');
    assert("-v"@.len() == 2 && "-v"@[1] == 'v');
    assert("--verbose"@.len() == 9 && "--verbose"@[2] == 'v');
    assert("-h"@.len() == 2 && "-h"@[1] == 'h');
    assert("--help"@.len() == 6 && "--help"@[2] == 'h');
    assert("--"@.len() == 2 && "--"@[1] == '-');
    assert("--"@.subrange(0, 1) =~= "-"@);
    assert("-r"@.subrange(0, 1) =~= "-"@);
    assert("--rootfs"@.subrange(0, 1) =~= "-"@);
    assert("-q"@.subrange(0, 1) =~= "-"@);
    assert("--qemu"@.subrange(0, 1) =~= "-"@);
    assert("-k"@.subrange(0, 1) =~= "-"@);
    assert("--kernel-release"@.subrange(0, 1) =~= "-"@);
    assert("-i"@.subrange(0, 1) =~= "-"@);
    assert("--intercept"@.subrange(0, 1) =~= "-"@);
    assert("-w"@.subrange(0, 1) =~= "-"@);
    assert("--pwd"@.subrange(0, 1) =~= "-"@);
    assert("-b"@.subrange(0, 1) =~= "-"@);
    assert("--bind"@.subrange(0, 1) =~= "-"@);
    assert("-0"@.subrange(0, 1) =~= "-"@);
    assert("--root-id"@.subrange(0, 1) =~= "-"@);
    assert("-v"@.subrange(0, 1) =~= "-"@);
    assert("--verbose"@.subrange(0, 1) =~= "-"@);
    assert("-h"@.subrange(0, 1) =~= "-"@);
    assert("--help"@.subrange(0, 1) =~= "-"@);
}

/// An option that takes a value takes the word behind it, and sets what it stands for and nothing else,
/// under its short name and under its long one; without a word behind it the command line is refused.
pub proof fn law_options_with_value(value: Seq<char>, rest: Seq<Seq<char>>, a: ArgsValue)
    ensures
        read_from(seq!["-r"@, value] + rest, false, a) == read_from(
            rest,
            false,
            ArgsValue { rootfs: value, ..a },
        ),
        read_from(seq!["-r"@], false, a) == Reading::NeedsValue(Flag::Rootfs),
        read_from(seq!["--rootfs"@, value] + rest, false, a) == read_from(
            rest,
            false,
            ArgsValue { rootfs: value, ..a },
        ),
        read_from(seq!["--rootfs"@], false, a) == Reading::NeedsValue(Flag::Rootfs),
        read_from(seq!["-q"@, value] + rest, false, a) == read_from(
            rest,
            false,
            ArgsValue { qemu: Some(value), ..a },
        ),
        read_from(seq!["-q"@], false, a) == Reading::NeedsValue(Flag::Qemu),
        read_from(seq!["--qemu"@, value] + rest, false, a) == read_from(
            rest,
            false,
            ArgsValue { qemu: Some(value), ..a },
        ),
        read_from(seq!["--qemu"@], false, a) == Reading::NeedsValue(Flag::Qemu),
        read_from(seq!["-k"@, value] + rest, false, a) == read_from(
            rest,
            false,
            ArgsValue { kernel_release: Some(value), ..a },
        ),
        read_from(seq!["-k"@], false, a) == Reading::NeedsValue(Flag::KernelRelease),
        read_from(seq!["--kernel-release"@, value] + rest, false, a) == read_from(
            rest,
            false,
            ArgsValue { kernel_release: Some(value), ..a },
        ),
        read_from(seq!["--kernel-release"@], false, a) == Reading::NeedsValue(Flag::KernelRelease),
        read_from(seq!["-i"@, value] + rest, false, a) == read_from(
            rest,
            false,
            ArgsValue { intercept: Some(value), ..a },
        ),
        read_from(seq!["-i"@], false, a) == Reading::NeedsValue(Flag::Intercept),
        read_from(seq!["--intercept"@, value] + rest, false, a) == read_from(
            rest,
            false,
            ArgsValue { intercept: Some(value), ..a },
        ),
        read_from(seq!["--intercept"@], false, a) == Reading::NeedsValue(Flag::Intercept),
        read_from(seq!["-w"@, value] + rest, false, a) == read_from(
            rest,
            false,
            ArgsValue { pwd: Some(value), ..a },
        ),
        read_from(seq!["-w"@], false, a) == Reading::NeedsValue(Flag::Pwd),
        read_from(seq!["--pwd"@, value] + rest, false, a) == read_from(
            rest,
            false,
            ArgsValue { pwd: Some(value), ..a },
        ),
        read_from(seq!["--pwd"@], false, a) == Reading::NeedsValue(Flag::Pwd),
        read_from(seq!["-b"@, value] + rest, false, a) == read_from(
            rest,
            false,
            ArgsValue { binds: a.binds.push(bind_of(value)), ..a },
        ),
        read_from(seq!["-b"@], false, a) == Reading::NeedsValue(Flag::Bind),
        read_from(seq!["--bind"@, value] + rest, false, a) == read_from(
            rest,
            false,
            ArgsValue { binds: a.binds.push(bind_of(value)), ..a },
        ),
        read_from(seq!["--bind"@], false, a) == Reading::NeedsValue(Flag::Bind),
{
    lemma_flags();
    lemma_option("-r"@, value, rest, a);
    lemma_option("--rootfs"@, value, rest, a);
    lemma_option("-q"@, value, rest, a);
    lemma_option("--qemu"@, value, rest, a);
    lemma_option("-k"@, value, rest, a);
    lemma_option("--kernel-release"@, value, rest, a);
    lemma_option("-i"@, value, rest, a);
    lemma_option("--intercept"@, value, rest, a);
    lemma_option("-w"@, value, rest, a);
    lemma_option("--pwd"@, value, rest, a);
    lemma_option("-b"@, value, rest, a);
    lemma_option("--bind"@, value, rest, a);
}

proof fn lemma_option(arg: Seq<char>, value: Seq<char>, rest: Seq<Seq<char>>, a: ArgsValue)
    requires
        is_option(arg),
        takes_value(flag_of(arg)),
    ensures
        read_from(seq![arg, value] + rest, false, a) == read_from(
            rest,
            false,
            with_value(a, flag_of(arg), value),
        ),
        read_from(seq![arg], false, a) == Reading::NeedsValue(flag_of(arg)),
{
    let args = seq![arg, value] + rest;
    assert(args[0] == arg);
    assert(args.skip(1)[0] == value);
    assert(args.skip(1).skip(1) =~= rest);
    assert(seq![arg].skip(1) =~= Seq::<Seq<char>>::empty());
}

/// A switch sets what it stands for and nothing else, under its short name and under its long one; asking
/// for help ends the reading; and an option that there is not is refused by its name.
pub proof fn law_switches(arg: Seq<char>, rest: Seq<Seq<char>>, a: ArgsValue)
    ensures
        read_from(seq!["-0"@] + rest, false, a) == read_from(
            rest,
            false,
            ArgsValue { fake_root: true, ..a },
        ),
        read_from(seq!["--root-id"@] + rest, false, a) == read_from(
            rest,
            false,
            ArgsValue { fake_root: true, ..a },
        ),
        read_from(seq!["-v"@] + rest, false, a) == read_from(
            rest,
            false,
            ArgsValue { verbose: true, ..a },
        ),
        read_from(seq!["--verbose"@] + rest, false, a) == read_from(
            rest,
            false,
            ArgsValue { verbose: true, ..a },
        ),
        read_from(seq!["-h"@] + rest, false, a) == Reading::Help,
        read_from(seq!["--help"@] + rest, false, a) == Reading::Help,
        read_from(seq!["--"@] + rest, false, a) == read_from(rest, true, a),
        arg.len() > 0 && arg[0] == '-' && arg != "--"@ && arg != "-r"@ && arg != "--rootfs"@
            && arg != "-q"@ && arg != "--qemu"@ && arg != "-k"@ && arg != "--kernel-release"@
            && arg != "-i"@ && arg != "--intercept"@ && arg != "-w"@ && arg != "--pwd"@
            && arg != "-b"@ && arg != "--bind"@ && arg != "-0"@ && arg != "--root-id"@
            && arg != "-v"@ && arg != "--verbose"@ && arg != "-h"@ && arg != "--help"@ ==> read_from(
            seq![arg] + rest,
            false,
            a,
        ) == Reading::UnknownOption(arg),
{
    lemma_flags();
    reveal_strlit("-");
    assert((seq!["-0"@] + rest)[0] == "-0"@);
    assert((seq!["-0"@] + rest).skip(1) =~= rest);
    assert((seq!["--root-id"@] + rest)[0] == "--root-id"@);
    assert((seq!["--root-id"@] + rest).skip(1) =~= rest);
    assert((seq!["-v"@] + rest)[0] == "-v"@);
    assert((seq!["-v"@] + rest).skip(1) =~= rest);
    assert((seq!["--verbose"@] + rest)[0] == "--verbose"@);
    assert((seq!["--verbose"@] + rest).skip(1) =~= rest);
    assert((seq!["-h"@] + rest)[0] == "-h"@);
    assert((seq!["-h"@] + rest).skip(1) =~= rest);
    assert((seq!["--help"@] + rest)[0] == "--help"@);
    assert((seq!["--help"@] + rest).skip(1) =~= rest);
    assert((seq!["--"@] + rest)[0] == "--"@);
    assert((seq!["--"@] + rest).skip(1) =~= rest);
    assert((seq![arg] + rest)[0] == arg);
    if arg.len() > 0 && arg[0] == '-' {
        assert(arg.subrange(0, 1) =~= "-"@);
    }
}

/// A word that is no option, and behind `--` every word, names the root filesystem where none is named yet;
/// where one is, it and everything behind it are the command.
pub proof fn law_words(word: Seq<char>, rest: Seq<Seq<char>>, positional: bool, a: ArgsValue)
    requires
        positional || word.len() == 0 || word[0] != '-',
    ensures
        a.rootfs.len() == 0 ==> read_from(seq![word] + rest, positional, a) == read_from(
            rest,
            positional,
            ArgsValue { rootfs: word, ..a },
        ),
        a.rootfs.len() > 0 ==> read_from(seq![word] + rest, positional, a) == Reading::Run(
            ArgsValue { command: seq![word] + rest, ..a },
        ),
{
    reveal_strlit("-");
    let args = seq![word] + rest;
    assert(args[0] == word);
    assert(args.skip(1) =~= rest);
    if is_option(word) {
        assert(word.subrange(0, 1)[0] == "-"@[0]);
    }
}

/// At the end of the command line a root filesystem must have been named; a command that was not named is
/// a shell. Reading starts with nothing asked for.
pub proof fn law_end_of_words(positional: bool, a: ArgsValue)
    ensures
        a.rootfs.len() == 0 ==> read_from(Seq::empty(), positional, a) == Reading::NoRootfs,
        a.rootfs.len() > 0 && a.command.len() == 0 ==> read_from(Seq::empty(), positional, a)
            == Reading::Run(ArgsValue { command: seq!["/bin/sh"@], ..a }),
        a.rootfs.len() > 0 && a.command.len() > 0 ==> read_from(Seq::empty(), positional, a)
            == Reading::Run(a),
        nothing().rootfs.len() == 0,
        nothing().command.len() == 0,
        nothing().binds.len() == 0,
        nothing().qemu is None && nothing().pwd is None && nothing().kernel_release is None
            && nothing().intercept is None,
        !nothing().fake_root && !nothing().verbose,
        forall|args: Seq<Seq<char>>| #[trigger] read_args(args) == read_from(args, false, nothing()),
{
}

/// `host:guest` is the bind mount of the two, whatever colons the guest path holds, and a value without a
/// colon is one path for both.
pub proof fn law_bind_of(host: Seq<char>, guest: Seq<char>)
    requires
        !host.contains(':'),
    ensures
        bind_of(host + seq![':'] + guest) == (host, guest),
        bind_of(host) == (host, host),
{
    let value = host + seq![':'] + guest;
    let n = host.len() as int;
    assert forall|i: int| 0 <= i < n implies #[trigger] value[i] != ':' by {
        assert(value[i] == host[i]);
        assert(host.contains(host[i]));
    }
    assert forall|i: int| 0 <= i < n implies #[trigger] host[i] != ':' by {
        assert(host.contains(host[i]));
    }
    assert(value[n] == ':');
    crate::text::lemma_char_at_or_end_is(value, 0, ':', n);
    crate::text::lemma_char_at_or_end_is(host, 0, ':', n);
    assert(value.take(n) =~= host);
    assert(value.skip(n + 1) =~= guest);
}

} // verus!
