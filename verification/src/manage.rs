//! The commands of `lroot-distro`.
use vstd::prelude::*;

use crate::distro::{distros, find, Distro};
#[allow(unused_imports)]
use crate::distro::{is_known, known, listed};
use crate::path::{join_path, parent};
#[allow(unused_imports)]
use crate::path::{joined_path, parent_of};
use crate::text::{add_text, add_texts, join_texts, number, pieces_of, same_text, texts_from};
#[allow(unused_imports)]
use crate::cli::{bind_of, flag_of, is_option, nothing, read_args, read_from, ArgsValue, Reading};
#[allow(unused_imports)]
use crate::text::{joined, lemma_char_at_or_end_is, number_text, split_text, str_opt, texts};

verus! {

/// What `lroot-distro` is asked to do.
pub enum Command {
    Install(String),
    List,
    /// Run a command in a distribution, or a shell where the command is empty.
    Run(String, Vec<String>),
    Remove(String),
    Help,
    /// No command was given.
    Nothing,
    /// There is no such command, or its argument is missing.
    Invalid,
}

/// What `lroot-distro` is asked to do, as a mathematical value.
pub enum CommandValue {
    Install(Seq<char>),
    List,
    Run(Seq<char>, Seq<Seq<char>>),
    Remove(Seq<char>),
    Help,
    Nothing,
    Invalid,
}

impl View for Command {
    type V = CommandValue;

    open spec fn view(&self) -> CommandValue {
        match self {
            Command::Install(name) => CommandValue::Install(name@),
            Command::List => CommandValue::List,
            Command::Run(name, cmd) => CommandValue::Run(name@, texts(cmd@)),
            Command::Remove(name) => CommandValue::Remove(name@),
            Command::Help => CommandValue::Help,
            Command::Nothing => CommandValue::Nothing,
            Command::Invalid => CommandValue::Invalid,
        }
    }
}

/// What a list of arguments asks for; arguments behind those that a command takes are of no account.
pub open spec fn command_of(args: Seq<Seq<char>>) -> CommandValue {
    if args.len() == 0 {
        CommandValue::Nothing
    } else if args[0] == "install"@ && args.len() >= 2 {
        CommandValue::Install(args[1])
    } else if args[0] == "list"@ {
        CommandValue::List
    } else if args[0] == "run"@ && args.len() >= 2 {
        CommandValue::Run(args[1], args.skip(2))
    } else if args[0] == "login"@ && args.len() >= 2 {
        CommandValue::Run(args[1], Seq::empty())
    } else if args[0] == "remove"@ && args.len() >= 2 {
        CommandValue::Remove(args[1])
    } else if args[0] == "-h"@ || args[0] == "--help"@ || args[0] == "help"@ {
        CommandValue::Help
    } else {
        CommandValue::Invalid
    }
}

/// What a list of arguments asks for, the program's name not among them.
pub fn parse_command(args: &[String]) -> (r: Command)
    ensures
        r@ == command_of(texts(args@)),
{
    let ghost all = texts(args@);
    if args.len() == 0 {
        return Command::Nothing;
    }
    let word = args[0].as_str();
    proof {
        assert(all[0] == word@);
        if args@.len() >= 2 {
            assert(all[1] == args@[1]@);
        }
    }
    if same_text(word, "install") && args.len() >= 2 {
        Command::Install(args[1].clone())
    } else if same_text(word, "list") {
        Command::List
    } else if same_text(word, "run") && args.len() >= 2 {
        let cmd = texts_from(args, 2);
        Command::Run(args[1].clone(), cmd)
    } else if same_text(word, "login") && args.len() >= 2 {
        let cmd: Vec<String> = Vec::new();
        proof {
            assert(texts(cmd@) =~= Seq::empty());
        }
        Command::Run(args[1].clone(), cmd)
    } else if same_text(word, "remove") && args.len() >= 2 {
        Command::Remove(args[1].clone())
    } else if same_text(word, "-h") || same_text(word, "--help") || same_text(word, "help") {
        Command::Help
    } else {
        Command::Invalid
    }
}

/// The part of the help that is the same whatever is known.
pub const HELP: &'static str = "\
Usage: lroot-distro <command> [options...]

Commands:
  install <distro>     Download and extract a distribution rootfs
  list                 List installed distributions
  run <distro> [cmd]   Run a command inside the distribution
  login <distro>       Start an interactive shell inside the distribution
  remove <distro>      Delete an installed distribution

Known distros: ";

/// The names of the known distributions.
pub open spec fn known_names() -> Seq<Seq<char>> {
    known().map_values(|d: (Seq<char>, Seq<char>)| d.0)
}

/// What the help says.
pub fn print_help() -> (r: String)
    ensures
        r@ == HELP@ + joined(known_names(), ", "@),
{
    let list = distros();
    let ghost all = known_names();
    let mut names: Vec<String> = Vec::new();
    let mut i: usize = 0;
    proof {
        assert(texts(names@) =~= all.take(0));
    }
    while i < list.len()
        invariant
            i <= list@.len(),
            listed(list@) == known(),
            all == known_names(),
            texts(names@) == all.take(i as int),
        decreases list.len() - i,
    {
        let ghost done = texts(names@);
        let name = list[i].name.to_owned();
        names.push(name);
        proof {
            assert(listed(list@)[i as int].0 == list@[i as int].name@);
            assert(texts(names@) =~= done.push(name@));
            assert(all.take(i + 1) =~= done.push(name@));
        }
        i += 1;
    }
    proof {
        assert(listed(list@).len() == list@.len());
        assert(all.take(list@.len() as int) =~= all);
    }
    add_text(HELP, join_texts(names.as_slice(), ", ").as_str())
}

/// The status that the program exits with once the help is printed, given whether it was asked for.
pub fn help_status(asked: bool) -> (r: i32)
    ensures
        r == (if asked {
            0i32
        } else {
            1i32
        }),
{
    if asked {
        0
    } else {
        1
    }
}

fn line(text: String) -> (r: Vec<String>)
    ensures
        texts(r@) == seq![text@],
{
    let mut out: Vec<String> = Vec::new();
    out.push(text);
    proof {
        assert(texts(out@) =~= seq![text@]);
    }
    out
}

fn two_lines(first: String, second: String) -> (r: Vec<String>)
    ensures
        texts(r@) == seq![first@, second@],
{
    let mut out: Vec<String> = Vec::new();
    out.push(first);
    out.push(second);
    proof {
        assert(texts(out@) =~= seq![first@, second@]);
    }
    out
}

/// What is said of a command that is not understood.
pub fn invalid_lines() -> (r: Vec<String>)
    ensures
        texts(r@) == seq![
            "lroot-distro: unknown command or missing argument"@,
            "Try 'lroot-distro --help' for more info."@,
        ],
{
    two_lines(
        "lroot-distro: unknown command or missing argument".to_owned(),
        "Try 'lroot-distro --help' for more info.".to_owned(),
    )
}

/// The distribution to install, given its directory and whether something is in it already; what is
/// said where it cannot be installed.
pub fn cmd_install(name: &str, dir: &str, occupied: bool) -> (r: Result<Distro, Vec<String>>)
    ensures
        occupied ==> (r matches Err(lines) && texts(lines@) == seq![
            "already installed: "@ + name@ + " ("@ + dir@ + ")"@,
        ]),
        !occupied && !is_known(name@) ==> (r matches Err(lines) && texts(lines@) == seq![
            "unknown distro: "@ + name@,
            "known: alpine, alpine-amd64, ubuntu, debian, arch"@,
        ]),
        !occupied && is_known(name@) ==> (r matches Ok(d) && d.name@ == name@ && known().contains(
            (d.name@, d.tarball_url@),
        )),
{
    if occupied {
        let what = add_texts("already installed: ", name, " (");
        return Err(line(add_texts(what.as_str(), dir, ")")));
    }
    match find(name) {
        Some(d) => Ok(d),
        None => Err(
            two_lines(
                add_text("unknown distro: ", name),
                "known: alpine, alpine-amd64, ubuntu, debian, arch".to_owned(),
            ),
        ),
    }
}

/// The arguments that `lroot` is started with to run a command in a distribution.
pub open spec fn run_args(rootfs: Seq<char>, has_sdcard: bool, cmd: Seq<Seq<char>>) -> Seq<Seq<char>> {
    let card = if has_sdcard {
        seq!["-b"@, "/sdcard:/sdcard"@]
    } else {
        Seq::empty()
    };
    let run = if cmd.len() == 0 {
        seq!["/bin/sh"@]
    } else {
        cmd
    };
    seq!["-r"@, rootfs] + card + run
}

/// The arguments that `lroot` is started with to run a command in a distribution, given its directory,
/// whether it exists and whether the host has an `/sdcard`; what is said where it is not installed.
pub fn cmd_run(name: &str, dir: &str, exists: bool, has_sdcard: bool, cmd: &[String]) -> (r: Result<
    Vec<String>,
    Vec<String>,
>)
    ensures
        !exists ==> (r matches Err(lines) && texts(lines@) == seq![
            "distribution not installed: "@ + name@,
            "install with: lroot-distro install "@ + name@,
        ]),
        exists ==> (r matches Ok(args) && texts(args@) == run_args(dir@, has_sdcard, texts(cmd@))),
{
    if !exists {
        return Err(
            two_lines(
                add_text("distribution not installed: ", name),
                add_text("install with: lroot-distro install ", name),
            ),
        );
    }
    let ghost all = texts(cmd@);
    let mut args: Vec<String> = Vec::new();
    args.push("-r".to_owned());
    args.push(dir.to_owned());
    if has_sdcard {
        args.push("-b".to_owned());
        args.push("/sdcard:/sdcard".to_owned());
    }
    let ghost head = texts(args@);
    proof {
        let card = if has_sdcard {
            seq!["-b"@, "/sdcard:/sdcard"@]
        } else {
            Seq::empty()
        };
        assert(head =~= seq!["-r"@, dir@] + card);
    }
    if cmd.len() == 0 {
        args.push("/bin/sh".to_owned());
        proof {
            assert(texts(args@) =~= head + seq!["/bin/sh"@]);
        }
        return Ok(args);
    }
    let mut rest = texts_from(cmd, 0);
    let ghost given = texts(rest@);
    args.append(&mut rest);
    proof {
        assert(given =~= all);
        assert(texts(args@) =~= head + given);
    }
    Ok(args)
}

/// `lroot` reads out of its arguments what was put into them: the distribution's directory as the root
/// filesystem, the bind mount of `/sdcard` and the command, unless the command starts with what `lroot`
/// would take for an option.
pub proof fn law_run_reaches_lroot(rootfs: Seq<char>, has_sdcard: bool, cmd: Seq<Seq<char>>)
    requires
        rootfs.len() > 0,
        cmd.len() > 0 ==> !is_option(cmd[0]),
    ensures
        read_args(run_args(rootfs, has_sdcard, cmd)) == Reading::Run(
            ArgsValue {
                rootfs,
                command: if cmd.len() == 0 {
                    seq!["/bin/sh"@]
                } else {
                    cmd
                },
                binds: if has_sdcard {
                    seq![("/sdcard"@, "/sdcard"@)]
                } else {
                    Seq::empty()
                },
                ..nothing()
            },
        ),
{
    lemma_own_flags();
    let args = run_args(rootfs, has_sdcard, cmd);
    let run = if cmd.len() == 0 {
        seq!["/bin/sh"@]
    } else {
        cmd
    };
    let card = if has_sdcard {
        seq!["-b"@, "/sdcard:/sdcard"@]
    } else {
        Seq::empty()
    };
    let first = ArgsValue { rootfs, ..nothing() };
    assert(args[0] == "-r"@);
    assert(args.skip(1)[0] == rootfs);
    assert(args.skip(1).skip(1) =~= card + run);
    assert(read_args(args) == read_from(card + run, false, first));
    let second = ArgsValue {
        binds: if has_sdcard {
            seq![("/sdcard"@, "/sdcard"@)]
        } else {
            Seq::empty()
        },
        ..first
    };
    if has_sdcard {
        assert((card + run)[0] == "-b"@);
        assert((card + run).skip(1)[0] == "/sdcard:/sdcard"@);
        assert((card + run).skip(1).skip(1) =~= run);
        assert(first.binds.push(("/sdcard"@, "/sdcard"@)) =~= second.binds);
    } else {
        assert(card + run =~= run);
    }
    assert(read_from(card + run, false, first) == read_from(run, false, second));
    assert(!is_option(run[0]));
}

proof fn lemma_own_flags()
    ensures
        is_option("-r"@),
        is_option("-b"@),
        !is_option("/bin/sh"@),
        flag_of("-r"@) is Rootfs,
        flag_of("-b"@) is Bind,
        bind_of("/sdcard:/sdcard"@) == ("/sdcard"@, "/sdcard"@),
{
    reveal_strlit("-");
    reveal_strlit("--");
    reveal_strlit("-r");
    reveal_strlit("-q");
    reveal_strlit("-k");
    reveal_strlit("-i");
    reveal_strlit("-0");
    reveal_strlit("-w");
    reveal_strlit("-b");
    reveal_strlit("--rootfs");
    reveal_strlit("--qemu");
    reveal_strlit("--kernel-release");
    reveal_strlit("--intercept");
    reveal_strlit("--root-id");
    reveal_strlit("--pwd");
    reveal_strlit("/bin/sh");
    reveal_strlit("/sdcard");
    reveal_strlit("/sdcard:/sdcard");
    assert("-r"@.subrange(0, 1) =~= "-"@);
    assert("-b"@.subrange(0, 1) =~= "-"@);
    assert("/bin/sh"@.subrange(0, 1)[0] != "-"@[0]);
    assert("-r"@[1] == 'r' && "--"@[1] == '-' && "-b"@[1] == 'b' && "-q"@[1] == 'q' && "-k"@[1]
        == 'k' && "-i"@[1] == 'i' && "-0"@[1] == '0' && "-w"@[1] == 'w');
    assert("-b"@.len() == 2);
    let both = "/sdcard:/sdcard"@;
    lemma_char_at_or_end_is(both, 0, ':', 7);
    assert(both.take(7) =~= "/sdcard"@);
    assert(both.skip(8) =~= "/sdcard"@);
}

/// Logging in is running without a command.
pub proof fn law_login_is_run(name: Seq<char>)
    ensures
        command_of(seq!["login"@, name]) == command_of(seq!["run"@, name]),
{
    reveal_strlit("install");
    reveal_strlit("list");
    reveal_strlit("run");
    reveal_strlit("login");
    assert("install"@.len() == 7 && "list"@.len() == 4 && "run"@.len() == 3 && "login"@.len() == 5);
    assert(seq!["run"@, name].skip(2) =~= Seq::<Seq<char>>::empty());
}

/// What is said before a distribution is removed, given its directory and whether it exists; what is
/// said where it is not installed.
pub fn cmd_remove(name: &str, dir: &str, exists: bool) -> (r: Result<String, Vec<String>>)
    ensures
        exists ==> (r matches Ok(m) && m@ == "removing "@ + dir@ + "..."@),
        !exists ==> (r matches Err(lines) && texts(lines@) == seq!["not installed: "@ + name@]),
{
    if exists {
        Ok(add_texts("removing ", dir, "..."))
    } else {
        Err(line(add_text("not installed: ", name)))
    }
}

/// Where `lroot` is looked for: beside the program itself, then along the search path.
pub open spec fn lroot_paths(dir: Option<Seq<char>>, path: Option<Seq<char>>) -> Seq<Seq<char>> {
    let own = match dir {
        Some(d) => seq![joined_path(d, "lroot"@)],
        None => Seq::empty(),
    };
    let others = match path {
        Some(p) => split_text(p, ':').map_values(|d: Seq<char>| joined_path(d, "lroot"@)),
        None => Seq::empty(),
    };
    own + others
}

/// Where `lroot` is looked for, in order, given the directory of the program itself and the value of
/// `PATH`.
pub fn lroot_places(dir: Option<&str>, path: Option<&str>) -> (r: Vec<String>)
    ensures
        texts(r@) == lroot_paths(str_opt(dir), str_opt(path)),
{
    let mut out: Vec<String> = Vec::new();
    if let Some(d) = dir {
        out.push(join_path(d, "lroot"));
    }
    let ghost own = texts(out@);
    proof {
        assert(own =~= (match str_opt(dir) {
            Some(d) => seq![joined_path(d, "lroot"@)],
            None => Seq::empty(),
        }));
    }
    let p = match path {
        Some(p) => p,
        None => {
            proof {
                assert(texts(out@) =~= lroot_paths(str_opt(dir), str_opt(path)));
            }
            return out;
        },
    };
    let dirs = pieces_of(p, ':');
    let ghost all = split_text(p@, ':').map_values(|d: Seq<char>| joined_path(d, "lroot"@));
    let mut i: usize = 0;
    proof {
        assert(texts(out@) =~= own + all.take(0));
    }
    while i < dirs.len()
        invariant
            i <= dirs@.len(),
            texts(dirs@) == split_text(p@, ':'),
            all == split_text(p@, ':').map_values(|d: Seq<char>| joined_path(d, "lroot"@)),
            texts(out@) == own + all.take(i as int),
        decreases dirs.len() - i,
    {
        let ghost done = texts(out@);
        let place = join_path(dirs[i].as_str(), "lroot");
        out.push(place);
        proof {
            assert(texts(dirs@)[i as int] == dirs@[i as int]@);
            assert(texts(out@) =~= done.push(place@));
            assert(own + all.take(i + 1) =~= done.push(place@));
        }
        i += 1;
    }
    proof {
        assert(texts(dirs@).len() == dirs@.len());
        assert(all.take(dirs@.len() as int) =~= all);
    }
    out
}

/// Where `lroot` is looked for, in order, given the path of the program itself and the value of `PATH`.
pub fn find_lroot(exe: Option<&str>, path: Option<&str>) -> (r: Vec<String>)
    ensures
        texts(r@) == lroot_paths(
            match exe {
                Some(e) => parent_of(e@),
                None => None,
            },
            str_opt(path),
        ),
{
    let dir = match exe {
        Some(e) => parent(e),
        None => None,
    };
    match &dir {
        Some(d) => lroot_places(Some(d.as_str()), path),
        None => lroot_places(None, path),
    }
}

/// What is said where `lroot` is nowhere.
pub const NO_LROOT: &'static str = "lroot not found (install lroot first, or place it in PATH)";

/// The sum of a list of sizes.
pub open spec fn total(sizes: Seq<u64>) -> nat
    decreases sizes.len(),
{
    if sizes.len() == 0 {
        0
    } else {
        total(sizes.drop_last()) + sizes.last() as nat
    }
}

/// A part of a list sums up to no more than the list.
proof fn lemma_total_take(sizes: Seq<u64>, n: int)
    requires
        0 <= n <= sizes.len(),
    ensures
        total(sizes.take(n)) <= total(sizes),
    decreases sizes.len() - n,
{
    if n < sizes.len() {
        lemma_total_take(sizes, n + 1);
        assert(sizes.take(n + 1).drop_last() =~= sizes.take(n));
    } else {
        assert(sizes.take(n) =~= sizes);
    }
}

/// The size of a directory, given the sizes of what is in it; none where it is too large for a number.
pub fn dir_size(sizes: &[u64]) -> (r: Option<u64>)
    ensures
        r is Some == (total(sizes@) <= u64::MAX),
        r matches Some(n) ==> n == total(sizes@),
{
    let mut sum: u64 = 0;
    let mut i: usize = 0;
    while i < sizes.len()
        invariant
            i <= sizes@.len(),
            sum == total(sizes@.take(i as int)),
        decreases sizes.len() - i,
    {
        proof {
            assert(sizes@.take(i + 1).drop_last() =~= sizes@.take(i as int));
            lemma_total_take(sizes@, i + 1);
        }
        match sum.checked_add(sizes[i]) {
            Some(next) => {
                sum = next;
            },
            None => {
                return None;
            },
        }
        i += 1;
    }
    proof {
        assert(sizes@.take(sizes@.len() as int) =~= sizes@);
    }
    Some(sum)
}

/// A size with the unit that it is shown in. Gigabytes and megabytes are shown with one decimal and so
/// keep the number of bytes; kilobytes are whole.
pub enum Size {
    Giga(u64),
    Mega(u64),
    Kilo(u32),
}

/// The unit that a number of bytes is shown in.
pub fn size_unit(bytes: u64) -> (r: Size)
    ensures
        r == (if bytes > 1024 * 1024 * 1024 {
            Size::Giga(bytes)
        } else if bytes > 1024 * 1024 {
            Size::Mega(bytes)
        } else {
            Size::Kilo((bytes / 1024) as u32)
        }),
{
    if bytes > 1024 * 1024 * 1024 {
        Size::Giga(bytes)
    } else if bytes > 1024 * 1024 {
        Size::Mega(bytes)
    } else {
        Size::Kilo((bytes / 1024) as u32)
    }
}

/// The line of a distribution of at most a megabyte.
pub fn kilo_line(name: &str, kilos: u32) -> (r: String)
    ensures
        r@ == name@ + "  "@ + number_text(kilos as nat) + "K"@,
{
    add_text(add_texts(name, "  ", number(kilos).as_str()).as_str(), "K")
}

/// What is installed: the name of a directory, and its size.
pub struct Entry {
    pub name: Vec<u8>,
    pub size: u64,
}

/// Whether one name comes no later than another, byte by byte.
pub open spec fn no_later(a: Seq<u8>, b: Seq<u8>) -> bool
    decreases a.len(),
{
    if a.len() == 0 {
        true
    } else if b.len() == 0 {
        false
    } else if a[0] != b[0] {
        a[0] < b[0]
    } else {
        no_later(a.skip(1), b.skip(1))
    }
}

/// Whether a list is in the order of its names.
pub open spec fn in_order(list: Seq<Entry>) -> bool {
    forall|i: int, j: int|
        0 <= i < j < list.len() ==> no_later((#[trigger] list[i]).name@, (#[trigger] list[j]).name@)
}

/// Of two names one comes no later than the other.
proof fn lemma_no_later_total(a: Seq<u8>, b: Seq<u8>)
    ensures
        no_later(a, b) || no_later(b, a),
    decreases a.len(),
{
    if a.len() > 0 && b.len() > 0 && a[0] == b[0] {
        lemma_no_later_total(a.skip(1), b.skip(1));
    }
}

/// The order of names goes through.
proof fn lemma_no_later_through(a: Seq<u8>, b: Seq<u8>, c: Seq<u8>)
    requires
        no_later(a, b),
        no_later(b, c),
    ensures
        no_later(a, c),
    decreases a.len(),
{
    if a.len() > 0 && b.len() > 0 && c.len() > 0 && a[0] == b[0] && b[0] == c[0] {
        lemma_no_later_through(a.skip(1), b.skip(1), c.skip(1));
    }
}

/// Whether one name comes no later than another.
pub fn comes_no_later(a: &[u8], b: &[u8]) -> (r: bool)
    ensures
        r == no_later(a@, b@),
{
    let mut i: usize = 0;
    proof {
        assert(a@.skip(0) =~= a@);
        assert(b@.skip(0) =~= b@);
    }
    while i < a.len() && i < b.len()
        invariant
            i <= a@.len(),
            i <= b@.len(),
            no_later(a@, b@) == no_later(a@.skip(i as int), b@.skip(i as int)),
        decreases a.len() - i,
    {
        if a[i] != b[i] {
            return a[i] < b[i];
        }
        proof {
            assert(a@.skip(i as int).skip(1) =~= a@.skip(i + 1));
            assert(b@.skip(i as int).skip(1) =~= b@.skip(i + 1));
        }
        i += 1;
    }
    i == a.len()
}

/// The distributions that are installed, in the order of their names.
pub fn cmd_list(list: Vec<Entry>) -> (r: Vec<Entry>)
    ensures
        in_order(r@),
        r@.to_multiset() == list@.to_multiset(),
{
    let mut rest = list;
    let mut out: Vec<Entry> = Vec::new();
    proof {
        assert(rest@ + out@ =~= list@);
    }
    while rest.len() > 0
        invariant
            in_order(out@),
            (rest@ + out@).to_multiset() == list@.to_multiset(),
        decreases rest.len(),
    {
        let ghost before = rest@;
        let ghost sorted = out@;
        if let Some(entry) = rest.pop() {
            let mut at: usize = 0;
            while at < out.len() && !comes_no_later(entry.name.as_slice(), out[at].name.as_slice())
                invariant
                    at <= out@.len(),
                    out@ == sorted,
                    forall|i: int|
                        0 <= i < at ==> no_later((#[trigger] out@[i]).name@, entry.name@),
                decreases out.len() - at,
            {
                proof {
                    lemma_no_later_total(entry.name@, out@[at as int].name@);
                }
                at += 1;
            }
            out.insert(at, entry);
            proof {
                lemma_insert_in_order(sorted, at as int, entry);
                lemma_insert_keeps(before, sorted, at as int, entry);
            }
        }
    }
    proof {
        assert(rest@ + out@ =~= out@);
    }
    out
}

proof fn lemma_insert_in_order(list: Seq<Entry>, at: int, entry: Entry)
    requires
        in_order(list),
        0 <= at <= list.len(),
        forall|i: int| 0 <= i < at ==> no_later((#[trigger] list[i]).name@, entry.name@),
        at < list.len() ==> no_later(entry.name@, list[at].name@),
    ensures
        in_order(list.insert(at, entry)),
{
    let new = list.insert(at, entry);
    assert forall|i: int, j: int| 0 <= i < j < new.len() implies no_later(
        (#[trigger] new[i]).name@,
        (#[trigger] new[j]).name@,
    ) by {
        if i == at {
            if j - 1 > at {
                assert(no_later(list[at].name@, list[j - 1].name@));
                lemma_no_later_through(entry.name@, list[at].name@, list[j - 1].name@);
            }
            assert(new[j] == list[j - 1]);
        } else if j == at {
            assert(new[i] == list[i]);
        } else {
            let a = if i < at {
                i
            } else {
                i - 1
            };
            let b = if j < at {
                j
            } else {
                j - 1
            };
            assert(new[i] == list[a] && new[j] == list[b]);
        }
    }
}

proof fn lemma_insert_keeps(before: Seq<Entry>, list: Seq<Entry>, at: int, entry: Entry)
    requires
        before.len() > 0,
        before.last() == entry,
        0 <= at <= list.len(),
    ensures
        (before.drop_last() + list.insert(at, entry)).to_multiset() == (before + list).to_multiset(),
{
    broadcast use vstd::seq_lib::group_to_multiset_ensures;

    vstd::seq_lib::lemma_multiset_commutative(before.drop_last(), list.insert(at, entry));
    vstd::seq_lib::lemma_multiset_commutative(before, list);
    assert(before =~= before.drop_last().push(entry));
    let new = list.insert(at, entry);
    assert(new.remove(at) =~= list);
    assert(new[at] == entry);
    vstd::seq_lib::to_multiset_remove(new, at);
    assert(new.contains(entry));
    assert(new.to_multiset() =~= list.to_multiset().insert(entry));
    assert((before.drop_last() + new).to_multiset() =~= (before + list).to_multiset());
}

/// Each command takes the words behind it that it needs: a distribution's name, and `run` also the command
/// to run, word for word. A command without the name that it needs, and any other word, is refused.
pub proof fn law_commands(word: Seq<char>, name: Seq<char>, rest: Seq<Seq<char>>)
    ensures
        command_of(seq!["install"@, name] + rest) == CommandValue::Install(name),
        command_of(seq!["remove"@, name] + rest) == CommandValue::Remove(name),
        command_of(seq!["run"@, name] + rest) == CommandValue::Run(name, rest),
        command_of(seq!["login"@, name] + rest) == CommandValue::Run(name, Seq::empty()),
        command_of(seq!["list"@] + rest) == CommandValue::List,
        command_of(seq!["help"@] + rest) == CommandValue::Help,
        command_of(seq!["--help"@] + rest) == CommandValue::Help,
        command_of(seq!["-h"@] + rest) == CommandValue::Help,
        command_of(Seq::empty()) == CommandValue::Nothing,
        command_of(seq!["install"@]) == CommandValue::Invalid,
        command_of(seq!["remove"@]) == CommandValue::Invalid,
        command_of(seq!["run"@]) == CommandValue::Invalid,
        command_of(seq!["login"@]) == CommandValue::Invalid,
        word != "install"@ && word != "remove"@ && word != "run"@ && word != "login"@ && word
            != "list"@ && word != "help"@ && word != "--help"@ && word != "-h"@ ==> command_of(
            seq![word] + rest,
        ) == CommandValue::Invalid,
{
    reveal_strlit("install");
    reveal_strlit("list");
    reveal_strlit("run");
    reveal_strlit("login");
    reveal_strlit("remove");
    reveal_strlit("-h");
    reveal_strlit("--help");
    reveal_strlit("help");
    assert("install"@.len() == 7 && "list"@.len() == 4 && "run"@.len() == 3 && "login"@.len() == 5
        && "remove"@.len() == 6 && "-h"@.len() == 2 && "--help"@.len() == 6 && "help"@.len() == 4);
    assert("list"@[0] == 'l' && "help"@[0] == 'h' && "remove"@[0] == 'r' && "--help"@[0] == '-');
    assert((seq!["run"@, name] + rest).skip(2) =~= rest);
    assert((seq!["install"@, name] + rest)[0] == "install"@);
    assert((seq!["remove"@, name] + rest)[0] == "remove"@);
    assert((seq!["run"@, name] + rest)[0] == "run"@);
    assert((seq!["login"@, name] + rest)[0] == "login"@);
    assert((seq!["list"@] + rest)[0] == "list"@);
    assert((seq!["help"@] + rest)[0] == "help"@);
    assert((seq!["--help"@] + rest)[0] == "--help"@);
    assert((seq!["-h"@] + rest)[0] == "-h"@);
    assert((seq![word] + rest)[0] == word);
}

/// `lroot` is started with the distribution's directory as the root filesystem, with the bind mount of
/// `/sdcard` only where there is one, and at the end with the command word for word, or a shell where
/// there is none.
pub proof fn law_run_arguments(rootfs: Seq<char>, has_sdcard: bool, cmd: Seq<Seq<char>>)
    ensures
        ({
            let args = run_args(rootfs, has_sdcard, cmd);
            let at: int = if has_sdcard {
                4
            } else {
                2
            };
            &&& args[0] == "-r"@
            &&& args[1] == rootfs
            &&& has_sdcard ==> args[2] == "-b"@ && args[3] == "/sdcard:/sdcard"@
            &&& cmd.len() == 0 ==> args.len() == at + 1 && args[at] == "/bin/sh"@
            &&& cmd.len() > 0 ==> args.len() == at + cmd.len() && forall|k: int|
                0 <= k < cmd.len() ==> args[at + k] == #[trigger] cmd[k]
        }),
{
}

/// `lroot` is looked for in the program's own directory first, where that is known, and then in each
/// directory of the search path in its order.
pub proof fn law_lroot_places(dir: Option<Seq<char>>, path: Option<Seq<char>>)
    ensures
        ({
            let all = lroot_paths(dir, path);
            let own: int = if dir is Some {
                1
            } else {
                0
            };
            &&& dir is Some ==> all[0] == joined_path(dir->0, "lroot"@)
            &&& path is None ==> all.len() == own
            &&& path is Some ==> all.len() == own + split_text(path->0, ':').len() && forall|k: int|
                0 <= k < split_text(path->0, ':').len() ==> all[own + k] == joined_path(
                    #[trigger] split_text(path->0, ':')[k],
                    "lroot"@,
                )
        }),
{
}

/// The sizes of two lists sum up to the sum of both, and a single size to itself.
pub proof fn law_total(x: Seq<u64>, y: Seq<u64>, size: u64)
    ensures
        total(x + y) == total(x) + total(y),
        total(seq![size]) == size,
        total(Seq::empty()) == 0,
    decreases y.len(),
{
    reveal_with_fuel(total, 2);
    assert(seq![size].drop_last() =~= Seq::<u64>::empty());
    if y.len() == 0 {
        assert(x + y =~= x);
    } else {
        assert((x + y).drop_last() =~= x + y.drop_last());
        assert((x + y).last() == y.last());
        law_total(x, y.drop_last(), size);
    }
}

/// One name comes no later than another exactly if it is the start of the other, or is the smaller one at
/// the first byte at which they differ.
pub proof fn law_order_of_names(a: Seq<u8>, b: Seq<u8>)
    ensures
        no_later(a, b) <==> a.is_prefix_of(b) || exists|k: int|
            0 <= k < a.len() && k < b.len() && #[trigger] a[k] < b[k] && a.take(k) == b.take(k),
        no_later(a, b) && no_later(b, a) ==> a == b,
    decreases a.len(),
{
    if a.len() == 0 {
        assert(b.subrange(0, 0) =~= a);
        if no_later(b, a) {
            assert(b =~= a);
        }
    } else if b.len() > 0 {
        let x = a.skip(1);
        let y = b.skip(1);
        if a[0] == b[0] {
            law_order_of_names(x, y);
            if x == y {
                assert(a =~= seq![a[0]] + x);
                assert(b =~= seq![b[0]] + y);
            }
            if x.is_prefix_of(y) {
                assert(b.subrange(0, a.len() as int) =~= a) by {
                    assert forall|k: int| 0 <= k < a.len() implies b[k] == a[k] by {
                        if k > 0 {
                            assert(y.subrange(0, x.len() as int)[k - 1] == x[k - 1]);
                        }
                    }
                }
            }
            if a.is_prefix_of(b) {
                assert(y.subrange(0, x.len() as int) =~= x) by {
                    assert forall|k: int| 0 <= k < x.len() implies y[k] == x[k] by {
                        assert(b.subrange(0, a.len() as int)[k + 1] == a[k + 1]);
                    }
                }
            }
            if exists|k: int|
                0 <= k < x.len() && k < y.len() && #[trigger] x[k] < y[k] && x.take(k) == y.take(k) {
                let k = choose|k: int|
                    0 <= k < x.len() && k < y.len() && #[trigger] x[k] < y[k] && x.take(k) == y.take(
                        k,
                    );
                assert(a.take(k + 1) =~= seq![a[0]] + x.take(k));
                assert(b.take(k + 1) =~= seq![b[0]] + y.take(k));
                assert(a[k + 1] < b[k + 1]);
            }
            if exists|k: int|
                0 <= k < a.len() && k < b.len() && #[trigger] a[k] < b[k] && a.take(k) == b.take(k) {
                let k = choose|k: int|
                    0 <= k < a.len() && k < b.len() && #[trigger] a[k] < b[k] && a.take(k) == b.take(
                        k,
                    );
                assert(x.take(k - 1) =~= a.take(k).skip(1));
                assert(y.take(k - 1) =~= b.take(k).skip(1));
                assert(x[k - 1] < y[k - 1]);
            }
        } else {
            if a[0] < b[0] {
                assert(a.take(0) =~= b.take(0));
            }
            if a.is_prefix_of(b) {
                assert(b.subrange(0, a.len() as int)[0] == a[0]);
            }
            if exists|k: int|
                0 <= k < a.len() && k < b.len() && #[trigger] a[k] < b[k] && a.take(k) == b.take(k) {
                let k = choose|k: int|
                    0 <= k < a.len() && k < b.len() && #[trigger] a[k] < b[k] && a.take(k) == b.take(
                        k,
                    );
                if k > 0 {
                    assert(a.take(k)[0] == b.take(k)[0]);
                }
            }
        }
    }
}

/// In a list that is in order no name stands behind one that it should come before: of two entries the later
/// one's name is the same, continues the earlier one's, or is the greater one at the first byte at which they
/// differ.
pub proof fn law_listed_in_order(list: Seq<Entry>, i: int, j: int)
    requires
        in_order(list),
        0 <= i < j < list.len(),
    ensures
        list[i].name@.is_prefix_of(list[j].name@) || exists|k: int|
            0 <= k < list[i].name@.len() && k < list[j].name@.len() && #[trigger] list[i].name@[k]
                < list[j].name@[k] && list[i].name@.take(k) == list[j].name@.take(k),
{
    law_order_of_names(list[i].name@, list[j].name@);
}

} // verus!
