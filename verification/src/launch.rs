//! How a command of the root filesystem is started: its path, its loader, its environment.
use vstd::prelude::*;

use crate::cli::Args;
#[allow(unused_imports)]
use crate::cli::ArgsValue;
#[allow(unused_imports)]
use crate::intercept::pairs;
use crate::path::{file_name, is_absolute, join_path, parent};
#[allow(unused_imports)]
use crate::path::{file_name_of, joined_path, parent_of};
use crate::text::{add_text, add_texts, chars_of, join_texts, piece, same_text, texts_from};
#[allow(unused_imports)]
use crate::text::{joined, str_opt, text_opt, texts};
use crate::variant::INTERCEPT_SO;

verus! {

/// How many symbolic links are followed from a program to its file.
pub const MAX_LINKS: u8 = 16;

/// A path below the root filesystem.
pub fn in_rootfs(rootfs: &str, path: &str) -> (r: String)
    ensures
        r@ == rootfs@ + path@,
{
    add_text(rootfs, path)
}

/// The host path of the program that a command names: an absolute path lies in the root filesystem, any
/// other is looked up as it is.
pub open spec fn program_of(rootfs: Seq<char>, name: Seq<char>) -> Seq<char> {
    if name.len() > 0 && name[0] == '/' {
        rootfs + name
    } else {
        name
    }
}

/// The host path of the program that a command names.
pub fn program(rootfs: &str, name: &str) -> (r: String)
    ensures
        r@ == program_of(rootfs@, name@),
{
    if is_absolute(name) {
        in_rootfs(rootfs, name)
    } else {
        name.to_owned()
    }
}

/// A program on its way through symbolic links.
pub struct Resolve {
    pub path: String,
    /// How many links may still be followed.
    pub left: u8,
}

/// Where a link in the root filesystem leads: an absolute target lies in the root filesystem, a relative
/// one beside the link. A path without a parent is no link.
pub open spec fn link_target(
    rootfs: Seq<char>,
    dir: Option<Seq<char>>,
    target: Seq<char>,
) -> Option<Seq<char>> {
    if target.len() > 0 && target[0] == '/' {
        Some(rootfs + target)
    } else {
        match dir {
            Some(d) => Some(joined_path(d, target)),
            None => None,
        }
    }
}

/// Where a link leads, given the directory that it lies in.
pub fn follow(rootfs: &str, dir: Option<&str>, target: &str) -> (r: Option<String>)
    ensures
        text_opt(r) == link_target(rootfs@, str_opt(dir), target@),
{
    if is_absolute(target) {
        return Some(in_rootfs(rootfs, target));
    }
    match dir {
        Some(d) => Some(join_path(d, target)),
        None => None,
    }
}

/// An absolute link of the root filesystem leads into the root filesystem.
pub proof fn law_absolute_links_stay_inside(
    rootfs: Seq<char>,
    dir: Option<Seq<char>>,
    target: Seq<char>,
)
    requires
        target.len() > 0,
        target[0] == '/',
    ensures
        link_target(rootfs, dir, target) matches Some(path) && rootfs.is_prefix_of(path),
{
    assert((rootfs + target).subrange(0, rootfs.len() as int) =~= rootfs);
}

impl Resolve {
    /// A program, with no link followed yet.
    pub fn start(prog: &str) -> (r: Resolve)
        ensures
            r.path@ == prog@,
            r.left == MAX_LINKS,
    {
        Resolve { path: prog.to_owned(), left: MAX_LINKS }
    }

    /// One look at the path, given where it leads if it is a link: whether to look at the new path. It
    /// is not to be looked at when it is no link or all links were followed.
    pub fn step(&mut self, rootfs: &str, target: Option<&str>) -> (r: bool)
        ensures
            r == (old(self).left > 0 && target is Some && link_target(
                rootfs@,
                parent_of(old(self).path@),
                target->0@,
            ) is Some),
            r ==> Some(final(self).path@) == link_target(
                rootfs@,
                parent_of(old(self).path@),
                target->0@,
            ) && final(self).left == old(self).left - 1,
            !r ==> *final(self) == *old(self),
    {
        if self.left == 0 {
            return false;
        }
        let to = match target {
            Some(t) => t,
            None => {
                return false;
            },
        };
        let dir = parent(self.path.as_str());
        let next = match &dir {
            Some(d) => follow(rootfs, Some(d.as_str()), to),
            None => follow(rootfs, None, to),
        };
        match next {
            Some(path) => {
                self.path = path;
                self.left = self.left - 1;
                true
            },
            None => false,
        }
    }
}

/// The loader of the root filesystem that a program is run through, given its interpreter and whether
/// the host and the root filesystem have it: one that only the root filesystem has.
pub fn rootfs_interp(rootfs: &str, interp: Option<&str>, on_host: bool, in_guest: bool) -> (r: Option<
    String,
>)
    ensures
        text_opt(r) == (match interp {
            Some(i) if i@.len() > 0 && !on_host && in_guest => Some(rootfs@ + i@),
            _ => None,
        }),
{
    match interp {
        Some(i) => {
            if i.is_empty() || on_host || !in_guest {
                None
            } else {
                Some(in_rootfs(rootfs, i))
            }
        },
        None => None,
    }
}

/// A program and the arguments behind its name.
pub struct CommandLine {
    pub program: String,
    pub args: Vec<String>,
}

/// The arguments of a program that is run through a loader: its file, the name it was asked for by where
/// that is another, and its own arguments.
pub open spec fn loader_args(
    prog: Seq<char>,
    real_prog: Seq<char>,
    name: Option<Seq<char>>,
    rest: Seq<Seq<char>>,
) -> Seq<Seq<char>> {
    let applet = match name {
        Some(n) if real_prog != prog => seq![n],
        _ => Seq::empty(),
    };
    seq![real_prog] + applet + rest
}

/// What is started: the program itself, or the loader with the program's file.
pub open spec fn started(
    prog: Seq<char>,
    real_prog: Seq<char>,
    interp: Option<Seq<char>>,
    name: Option<Seq<char>>,
    cmd: Seq<Seq<char>>,
) -> (Seq<char>, Seq<Seq<char>>) {
    match interp {
        Some(i) => (i, loader_args(prog, real_prog, name, cmd.skip(1))),
        None => (prog, cmd.skip(1)),
    }
}

/// What is started, given the name that the program was asked for by.
pub fn command_line_named(
    prog: &str,
    real_prog: &str,
    interp: Option<&str>,
    name: Option<&str>,
    cmd: &[String],
) -> (r: CommandLine)
    requires
        cmd@.len() > 0,
    ensures
        (r.program@, texts(r.args@)) == started(
            prog@,
            real_prog@,
            str_opt(interp),
            str_opt(name),
            texts(cmd@),
        ),
{
    let ghost all = texts(cmd@);
    let mut args: Vec<String> = Vec::new();
    let ghost mut head: Seq<Seq<char>> = Seq::empty();
    if interp.is_some() {
        args.push(real_prog.to_owned());
        if !same_text(real_prog, prog) {
            if let Some(n) = name {
                args.push(n.to_owned());
            }
        }
        proof {
            head = texts(args@);
            assert(head + all.skip(1) =~= loader_args(
                prog@,
                real_prog@,
                str_opt(name),
                all.skip(1),
            ));
        }
    } else {
        proof {
            assert(head + all.skip(1) =~= all.skip(1));
        }
    }
    let mut rest = texts_from(cmd, 1);
    let ghost given = texts(rest@);
    let ghost before = texts(args@);
    args.append(&mut rest);
    proof {
        assert(before =~= head);
        assert(texts(args@) =~= before + given);
    }
    let program = match interp {
        Some(path) => path.to_owned(),
        None => prog.to_owned(),
    };
    CommandLine { program, args }
}

/// What is started.
pub fn command_line(prog: &str, real_prog: &str, interp: Option<&str>, cmd: &[String]) -> (r:
    CommandLine)
    requires
        cmd@.len() > 0,
    ensures
        (r.program@, texts(r.args@)) == started(
            prog@,
            real_prog@,
            str_opt(interp),
            file_name_of(prog@),
            texts(cmd@),
        ),
{
    let name = file_name(prog);
    match &name {
        Some(n) => command_line_named(prog, real_prog, interp, Some(n.as_str()), cmd),
        None => command_line_named(prog, real_prog, interp, None, cmd),
    }
}

/// The library that `-i` names, or what is said where it does not exist.
pub fn explicit_preload(path: &str, exists: bool) -> (r: Result<String, Vec<String>>)
    ensures
        exists ==> (r matches Ok(p) && p@ == path@),
        !exists ==> (r matches Err(lines) && texts(lines@) == seq![
            "intercept library not found: "@ + path@,
        ]),
{
    if exists {
        return Ok(path.to_owned());
    }
    let mut lines: Vec<String> = Vec::new();
    lines.push(add_text("intercept library not found: ", path));
    proof {
        assert(texts(lines@) =~= seq!["intercept library not found: "@ + path@]);
    }
    Err(lines)
}

/// What is said where there is no library for a variant.
pub open spec fn no_library(variant: Seq<char>) -> Seq<Seq<char>> {
    seq![
        INTERCEPT_SO@ + " not found for variant "@ + variant,
        "Build: cargo build -p intercept --release"@,
        "Then: cp target/release/"@ + INTERCEPT_SO@ + " /usr/local/lib/libintercept-"@ + variant
            + ".so"@,
    ]
}

/// The library that was found for a variant, or what is said where none was.
pub fn found_preload(variant: &str, found: Option<&str>) -> (r: Result<String, Vec<String>>)
    ensures
        found matches Some(p) ==> (r matches Ok(q) && q@ == p@),
        found is None ==> (r matches Err(lines) && texts(lines@) == no_library(variant@)),
{
    if let Some(p) = found {
        return Ok(p.to_owned());
    }
    let copy = add_texts("Then: cp target/release/", INTERCEPT_SO, " /usr/local/lib/libintercept-");
    let mut lines: Vec<String> = Vec::new();
    lines.push(add_texts(INTERCEPT_SO, " not found for variant ", variant));
    lines.push("Build: cargo build -p intercept --release".to_owned());
    lines.push(add_texts(copy.as_str(), variant, ".so"));
    proof {
        assert(texts(lines@) =~= no_library(variant@));
    }
    Err(lines)
}

/// The directories of a root filesystem that hold libraries, in the order in which they are searched.
pub open spec fn library_dirs(rootfs: Seq<char>) -> Seq<Seq<char>> {
    seq![
        rootfs + "/lib"@,
        rootfs + "/lib64"@,
        rootfs + "/usr/lib"@,
        rootfs + "/usr/lib64"@,
        rootfs + "/lib/x86_64-linux-gnu"@,
        rootfs + "/lib/aarch64-linux-gnu"@,
        rootfs + "/lib/arm-linux-gnueabihf"@,
        rootfs + "/usr/lib/x86_64-linux-gnu"@,
        rootfs + "/usr/lib/aarch64-linux-gnu"@,
        rootfs + "/usr/lib/arm-linux-gnueabihf"@,
    ]
}

/// The search path for libraries: those of the root filesystem, then what the host had.
pub open spec fn library_path(rootfs: Seq<char>, host: Option<Seq<char>>) -> Seq<char> {
    let own = joined(library_dirs(rootfs), ":"@);
    match host {
        Some(h) => own + ":"@ + h,
        None => own,
    }
}

/// The search path for libraries, given the host's `LD_LIBRARY_PATH` where it is set.
pub fn lib_path(rootfs: &str, host: Option<&str>) -> (r: String)
    ensures
        r@ == library_path(rootfs@, str_opt(host)),
{
    let mut dirs: Vec<String> = Vec::new();
    dirs.push(add_text(rootfs, "/lib"));
    dirs.push(add_text(rootfs, "/lib64"));
    dirs.push(add_text(rootfs, "/usr/lib"));
    dirs.push(add_text(rootfs, "/usr/lib64"));
    dirs.push(add_text(rootfs, "/lib/x86_64-linux-gnu"));
    dirs.push(add_text(rootfs, "/lib/aarch64-linux-gnu"));
    dirs.push(add_text(rootfs, "/lib/arm-linux-gnueabihf"));
    dirs.push(add_text(rootfs, "/usr/lib/x86_64-linux-gnu"));
    dirs.push(add_text(rootfs, "/usr/lib/aarch64-linux-gnu"));
    dirs.push(add_text(rootfs, "/usr/lib/arm-linux-gnueabihf"));
    proof {
        assert(texts(dirs@) =~= library_dirs(rootfs@));
    }
    let own = join_texts(dirs.as_slice(), ":");
    match host {
        Some(h) => add_texts(own.as_str(), ":", h),
        None => own,
    }
}

/// The value of `LITTLE_BINDS` for a list of bind mounts.
pub open spec fn bind_value(binds: Seq<(Seq<char>, Seq<char>)>) -> Seq<char> {
    joined(binds.map_values(|b: (Seq<char>, Seq<char>)| b.0 + ":"@ + b.1), ";"@)
}

/// The value of `LITTLE_BINDS` for a list of bind mounts.
pub fn bind_env(binds: &[(String, String)]) -> (r: String)
    ensures
        r@ == bind_value(pairs(binds@)),
{
    let ghost all = pairs(binds@).map_values(|b: (Seq<char>, Seq<char>)| b.0 + ":"@ + b.1);
    let mut entries: Vec<String> = Vec::new();
    let mut i: usize = 0;
    proof {
        assert(texts(entries@) =~= all.take(0));
    }
    while i < binds.len()
        invariant
            i <= binds@.len(),
            all == pairs(binds@).map_values(|b: (Seq<char>, Seq<char>)| b.0 + ":"@ + b.1),
            texts(entries@) == all.take(i as int),
        decreases binds.len() - i,
    {
        let ghost done = texts(entries@);
        let entry = add_texts(binds[i].0.as_str(), ":", binds[i].1.as_str());
        entries.push(entry);
        proof {
            assert(pairs(binds@)[i as int] == (binds@[i as int].0@, binds@[i as int].1@));
            assert(texts(entries@) =~= done.push(entry@));
            assert(all.take(i + 1) =~= done.push(entry@));
        }
        i += 1;
    }
    proof {
        assert(all.take(binds@.len() as int) =~= all);
    }
    join_texts(entries.as_slice(), ";")
}

/// A variable that is set where it has a value.
pub open spec fn when_some(name: Seq<char>, value: Option<Seq<char>>) -> Seq<
    (Seq<char>, Seq<char>),
> {
    match value {
        Some(v) => seq![(name, v)],
        None => Seq::empty(),
    }
}

/// The variables that every command gets.
pub open spec fn base_env(rootfs: Seq<char>, preload: Seq<char>, host: Option<Seq<char>>) -> Seq<
    (Seq<char>, Seq<char>),
> {
    seq![
        (
            "PATH"@,
            rootfs + "/usr/bin:"@ + rootfs + "/bin:"@ + rootfs + "/sbin:/system/bin"@,
        ),
        ("LD_LIBRARY_PATH"@, library_path(rootfs, host)),
        ("TERM"@, "xterm-256color"@),
        ("LITTLE_ROOTFS"@, rootfs),
        ("LD_PRELOAD"@, preload),
    ]
}

/// The variables of the fake root identity.
pub open spec fn root_env(a: ArgsValue) -> Seq<(Seq<char>, Seq<char>)> {
    if a.fake_root {
        seq![("HOME"@, a.rootfs + "/root"@), ("LITTLE_ROOT_ID"@, "1"@)]
    } else {
        Seq::empty()
    }
}

/// The variable that hands the bind mounts over.
pub open spec fn binds_env(a: ArgsValue) -> Seq<(Seq<char>, Seq<char>)> {
    if a.binds.len() > 0 {
        seq![("LITTLE_BINDS"@, bind_value(a.binds))]
    } else {
        Seq::empty()
    }
}

/// The variable that asks for debug output.
pub open spec fn verbose_env(a: ArgsValue) -> Seq<(Seq<char>, Seq<char>)> {
    if a.verbose {
        seq![("LITTLE_VERBOSE"@, "1"@)]
    } else {
        Seq::empty()
    }
}

/// The variables that a command is started with, on top of the host's.
pub open spec fn command_env(a: ArgsValue, preload: Seq<char>, host: Option<Seq<char>>) -> Seq<
    (Seq<char>, Seq<char>),
> {
    base_env(a.rootfs, preload, host) + root_env(a) + binds_env(a) + when_some(
        "LITTLE_KERNEL_RELEASE"@,
        a.kernel_release,
    ) + when_some("LITTLE_QEMU"@, a.qemu) + verbose_env(a)
}

/// The variables that a command is started with, given the library to preload and the host's
/// `LD_LIBRARY_PATH` where it is set.
pub fn environment(a: &Args, preload: &str, host: Option<&str>) -> (r: Vec<(String, String)>)
    ensures
        pairs(r@) == command_env(a@, preload@, str_opt(host)),
{
    let rootfs = a.rootfs.as_str();
    let bin = add_texts(rootfs, "/usr/bin:", rootfs);
    let path = add_texts(bin.as_str(), "/bin:", rootfs);
    let mut env: Vec<(String, String)> = Vec::new();
    env.push(("PATH".to_owned(), add_text(path.as_str(), "/sbin:/system/bin")));
    env.push(("LD_LIBRARY_PATH".to_owned(), lib_path(rootfs, host)));
    env.push(("TERM".to_owned(), "xterm-256color".to_owned()));
    env.push(("LITTLE_ROOTFS".to_owned(), rootfs.to_owned()));
    env.push(("LD_PRELOAD".to_owned(), preload.to_owned()));
    let ghost base = base_env(a@.rootfs, preload@, str_opt(host));
    proof {
        assert(pairs(env@) =~= base);
    }
    if a.fake_root {
        env.push(("HOME".to_owned(), add_text(rootfs, "/root")));
        env.push(("LITTLE_ROOT_ID".to_owned(), "1".to_owned()));
    }
    let ghost with_root = base + root_env(a@);
    proof {
        assert(pairs(env@) =~= with_root);
    }
    if a.binds.len() > 0 {
        env.push(("LITTLE_BINDS".to_owned(), bind_env(a.binds.as_slice())));
    }
    let ghost with_binds = with_root + binds_env(a@);
    proof {
        assert(pairs(env@) =~= with_binds);
    }
    if let Some(k) = &a.kernel_release {
        env.push(("LITTLE_KERNEL_RELEASE".to_owned(), k.clone()));
    }
    let ghost with_kernel = with_binds + when_some("LITTLE_KERNEL_RELEASE"@, a@.kernel_release);
    proof {
        assert(pairs(env@) =~= with_kernel);
    }
    if let Some(q) = &a.qemu {
        env.push(("LITTLE_QEMU".to_owned(), q.clone()));
    }
    let ghost with_qemu = with_kernel + when_some("LITTLE_QEMU"@, a@.qemu);
    proof {
        assert(pairs(env@) =~= with_qemu);
    }
    if a.verbose {
        env.push(("LITTLE_VERBOSE".to_owned(), "1".to_owned()));
    }
    proof {
        assert(pairs(env@) =~= with_qemu + verbose_env(a@));
    }
    env
}

/// The host path of a working directory in the root filesystem; one slash at its start is of no account.
pub open spec fn dir_of(rootfs: Seq<char>, pwd: Seq<char>) -> Seq<char> {
    if pwd.len() > 0 && pwd[0] == '/' {
        rootfs + "/"@ + pwd.skip(1)
    } else {
        rootfs + "/"@ + pwd
    }
}

/// The directory that the command is started in, where `-w` asks for one.
pub fn working_dir(rootfs: &str, pwd: Option<&str>) -> (r: Option<String>)
    ensures
        text_opt(r) == (match pwd {
            Some(p) => Some(dir_of(rootfs@, p@)),
            None => None,
        }),
{
    match pwd {
        Some(p) => {
            if is_absolute(p) {
                let n: usize = chars_of(p).len();
                let rest = piece(p, 1, n);
                proof {
                    assert(rest@ =~= p@.skip(1));
                }
                Some(add_texts(rootfs, "/", rest.as_str()))
            } else {
                Some(add_texts(rootfs, "/", p))
            }
        },
        None => None,
    }
}

/// What the runner starts.
pub struct Launch {
    pub command: CommandLine,
    /// The variables that are set on top of the host's.
    pub env: Vec<(String, String)>,
    /// The directory that the command is started in; the runner's own where there is none.
    pub dir: Option<String>,
}

/// What the runner starts for a command line, given the file that its program was resolved to, the loader
/// that it is run through, the library to preload and the host's `LD_LIBRARY_PATH`.
pub fn launch(
    a: &Args,
    real_prog: &str,
    interp: Option<&str>,
    preload: &str,
    host: Option<&str>,
) -> (r: Launch)
    requires
        a@.command.len() > 0,
    ensures
        (r.command.program@, texts(r.command.args@)) == started(
            program_of(a@.rootfs, a@.command[0]),
            real_prog@,
            str_opt(interp),
            file_name_of(program_of(a@.rootfs, a@.command[0])),
            a@.command,
        ),
        pairs(r.env@) == command_env(a@, preload@, str_opt(host)),
        text_opt(r.dir) == (match a@.pwd {
            Some(p) => Some(dir_of(a@.rootfs, p)),
            None => None,
        }),
{
    let rootfs = a.rootfs.as_str();
    let prog = program(rootfs, a.command[0].as_str());
    let command = command_line(prog.as_str(), real_prog, interp, a.command.as_slice());
    let env = environment(a, preload, host);
    let dir = match &a.pwd {
        Some(p) => working_dir(rootfs, Some(p.as_str())),
        None => working_dir(rootfs, None),
    };
    Launch { command, env, dir }
}

/// The status that the runner exits with: that of the command, or a failure where a signal ended it.
pub fn exit_status(code: Option<i32>) -> (r: i32)
    ensures
        r == (match code {
            Some(c) => c,
            None => 1i32,
        }),
{
    match code {
        Some(c) => c,
        None => 1,
    }
}

/// The process that a signal is handed on to, given the number of the command's process, which is zero
/// before it is started.
pub fn forward_signal(child: i32) -> (r: Option<i32>)
    ensures
        r == (if child > 0 {
            Some(child)
        } else {
            None
        }),
{
    if child > 0 {
        Some(child)
    } else {
        None
    }
}

/// A program that is named by an absolute path lies in the root filesystem, and any other is looked up by
/// the name as it is.
pub proof fn law_program(rootfs: Seq<char>, name: Seq<char>)
    ensures
        program_of(rootfs, seq!['/'] + name) == rootfs + seq!['/'] + name,
        name.len() == 0 || name[0] != '/' ==> program_of(rootfs, name) == name,
{
    assert(rootfs + (seq!['/'] + name) =~= rootfs + seq!['/'] + name);
}

/// A link leads to its target: an absolute one has the root filesystem put in front, a relative one lies in
/// the directory of the link, and nowhere where there is no such directory.
pub proof fn law_links(rootfs: Seq<char>, dir: Seq<char>, target: Seq<char>)
    ensures
        link_target(rootfs, Some(dir), seq!['/'] + target) == Some(rootfs + seq!['/'] + target),
        link_target(rootfs, None, seq!['/'] + target) == Some(rootfs + seq!['/'] + target),
        target.len() == 0 || target[0] != '/' ==> link_target(rootfs, None, target) is None,
        (target.len() == 0 || target[0] != '/') && dir.len() > 0 && dir.last() != '/' ==> link_target(
            rootfs,
            Some(dir),
            target,
        ) == Some(dir + seq!['/'] + target),
        (target.len() == 0 || target[0] != '/') && dir.len() > 0 && dir.last() == '/' ==> link_target(
            rootfs,
            Some(dir),
            target,
        ) == Some(dir + target),
        (target.len() == 0 || target[0] != '/') && dir.len() == 0 ==> link_target(
            rootfs,
            Some(dir),
            target,
        ) == Some(target),
{
    assert(rootfs + (seq!['/'] + target) =~= rootfs + seq!['/'] + target);
    assert(dir.len() == 0 ==> dir + target =~= target);
}

/// Whether a list ends with the arguments of a command: all words behind the first, in their order.
pub open spec fn ends_with_arguments(list: Seq<Seq<char>>, cmd: Seq<Seq<char>>) -> bool {
    &&& list.len() >= cmd.len() - 1
    &&& forall|k: int|
        1 <= k < cmd.len() ==> #[trigger] cmd[k] == list[list.len() - cmd.len() + k]
}

/// Without a loader the program itself is started with the arguments of the command, in their order.
pub proof fn law_started_directly(
    prog: Seq<char>,
    real_prog: Seq<char>,
    name: Option<Seq<char>>,
    cmd: Seq<Seq<char>>,
)
    requires
        cmd.len() > 0,
    ensures
        started(prog, real_prog, None, name, cmd).0 == prog,
        started(prog, real_prog, None, name, cmd).1.len() == cmd.len() - 1,
        ends_with_arguments(started(prog, real_prog, None, name, cmd).1, cmd),
{
}

/// With a loader the loader is started. It gets the program's file; then, only where the file is another
/// than was asked for, the name that was asked for; and then the arguments of the command, in their order.
pub proof fn law_started_through_loader(
    prog: Seq<char>,
    real_prog: Seq<char>,
    loader: Seq<char>,
    name: Option<Seq<char>>,
    cmd: Seq<Seq<char>>,
)
    requires
        cmd.len() > 0,
    ensures
        started(prog, real_prog, Some(loader), name, cmd).0 == loader,
        started(prog, real_prog, Some(loader), name, cmd).1[0] == real_prog,
        ends_with_arguments(started(prog, real_prog, Some(loader), name, cmd).1, cmd),
        real_prog == prog || name is None ==> started(
            prog,
            real_prog,
            Some(loader),
            name,
            cmd,
        ).1.len() == cmd.len(),
        real_prog != prog && name is Some ==> started(
            prog,
            real_prog,
            Some(loader),
            name,
            cmd,
        ).1.len() == cmd.len() + 1 && started(prog, real_prog, Some(loader), name, cmd).1[1]
            == name->0,
{
}

/// The search path for libraries names the library directories of the root filesystem one by one, in their
/// order, and after them what the host's search path names.
pub proof fn law_library_path(rootfs: Seq<char>, host: Seq<char>)
    requires
        !rootfs.contains(':'),
    ensures
        ({
            let own = crate::text::split_text(library_path(rootfs, None), ':');
            &&& own.len() == 10
            &&& own[0] == rootfs + "/lib"@
            &&& own[1] == rootfs + "/lib64"@
            &&& own[2] == rootfs + "/usr/lib"@
            &&& own[3] == rootfs + "/usr/lib64"@
            &&& own[4] == rootfs + "/lib/x86_64-linux-gnu"@
            &&& own[5] == rootfs + "/lib/aarch64-linux-gnu"@
            &&& own[6] == rootfs + "/lib/arm-linux-gnueabihf"@
            &&& own[7] == rootfs + "/usr/lib/x86_64-linux-gnu"@
            &&& own[8] == rootfs + "/usr/lib/aarch64-linux-gnu"@
            &&& own[9] == rootfs + "/usr/lib/arm-linux-gnueabihf"@
            &&& crate::text::split_text(library_path(rootfs, Some(host)), ':') == own
                + crate::text::split_text(host, ':')
        }),
{
    reveal_strlit(":");
    assert(":"@ =~= seq![':']);
    let dirs = library_dirs(rootfs);
    assert forall|i: int| 0 <= i < dirs.len() implies !(#[trigger] dirs[i]).contains(':') by {
        lemma_library_dir(rootfs, i);
    }
    lemma_split_joined(dirs);
    crate::text::law_split_text(library_path(rootfs, None), host, ':');
}

/// No library directory holds a colon of its own.
proof fn lemma_library_dir(rootfs: Seq<char>, i: int)
    requires
        !rootfs.contains(':'),
        0 <= i < 10,
    ensures
        !library_dirs(rootfs)[i].contains(':'),
{
    reveal_strlit("/lib");
    reveal_strlit("/lib64");
    reveal_strlit("/usr/lib");
    reveal_strlit("/usr/lib64");
    reveal_strlit("/lib/x86_64-linux-gnu");
    reveal_strlit("/lib/aarch64-linux-gnu");
    reveal_strlit("/lib/arm-linux-gnueabihf");
    reveal_strlit("/usr/lib/x86_64-linux-gnu");
    reveal_strlit("/usr/lib/aarch64-linux-gnu");
    reveal_strlit("/usr/lib/arm-linux-gnueabihf");
    let dir = library_dirs(rootfs)[i];
    let n = rootfs.len() as int;
    if dir.contains(':') {
        let k = choose|k: int| 0 <= k < dir.len() && dir[k] == ':';
        if k < n {
            assert(rootfs[k] == ':');
        } else if i == 0 {
            assert(dir[k] == "/lib"@[k - n]);
        } else if i == 1 {
            assert(dir[k] == "/lib64"@[k - n]);
        } else if i == 2 {
            assert(dir[k] == "/usr/lib"@[k - n]);
        } else if i == 3 {
            assert(dir[k] == "/usr/lib64"@[k - n]);
        } else if i == 4 {
            assert(dir[k] == "/lib/x86_64-linux-gnu"@[k - n]);
        } else if i == 5 {
            assert(dir[k] == "/lib/aarch64-linux-gnu"@[k - n]);
        } else if i == 6 {
            assert(dir[k] == "/lib/arm-linux-gnueabihf"@[k - n]);
        } else if i == 7 {
            assert(dir[k] == "/usr/lib/x86_64-linux-gnu"@[k - n]);
        } else if i == 8 {
            assert(dir[k] == "/usr/lib/aarch64-linux-gnu"@[k - n]);
        } else {
            assert(dir[k] == "/usr/lib/arm-linux-gnueabihf"@[k - n]);
        }
    }
}

proof fn lemma_split_joined(list: Seq<Seq<char>>)
    requires
        list.len() > 0,
        forall|i: int| 0 <= i < list.len() ==> !(#[trigger] list[i]).contains(':'),
    ensures
        crate::text::split_text(joined(list, seq![':']), ':') == list,
    decreases list.len(),
{
    let sep = seq![':'];
    crate::text::law_split_text(list.last(), Seq::empty(), ':');
    assert(list[list.len() - 1] == list.last());
    if list.len() > 1 {
        let rest = list.drop_last();
        assert forall|i: int| 0 <= i < rest.len() implies !(#[trigger] rest[i]).contains(':') by {
            assert(rest[i] == list[i]);
        }
        lemma_split_joined(rest);
        crate::text::law_split_text(joined(rest, sep), list.last(), ':');
        assert(rest + seq![list.last()] =~= list);
    } else {
        assert(seq![list.last()] =~= list);
    }
}

/// The bind mounts stand in the variable one behind the other, each as `host:guest`, with a semicolon between
/// two.
pub proof fn law_bind_value(
    x: Seq<(Seq<char>, Seq<char>)>,
    y: Seq<(Seq<char>, Seq<char>)>,
    host: Seq<char>,
    guest: Seq<char>,
)
    ensures
        bind_value(seq![(host, guest)]) == host + seq![':'] + guest,
        bind_value(Seq::empty()) == Seq::<char>::empty(),
        x.len() > 0 && y.len() > 0 ==> bind_value(x + y) == bind_value(x) + seq![';'] + bind_value(
            y,
        ),
{
    reveal_strlit(":");
    reveal_strlit(";");
    assert(":"@ =~= seq![':']);
    assert(";"@ =~= seq![';']);
    let f = |b: (Seq<char>, Seq<char>)| b.0 + ":"@ + b.1;
    assert((x + y).map_values(f) =~= x.map_values(f) + y.map_values(f));
    crate::text::law_joined(x.map_values(f), y.map_values(f), ";"@);
    assert(seq![(host, guest)].map_values(f) =~= seq![host + ":"@ + guest]);
    assert(Seq::<(Seq<char>, Seq<char>)>::empty().map_values(f) =~= Seq::<Seq<char>>::empty());
}

/// A working directory lies in the root filesystem, whether it is named with a slash in front or without.
pub proof fn law_working_dir(rootfs: Seq<char>, dir: Seq<char>)
    ensures
        dir_of(rootfs, seq!['/'] + dir) == rootfs + seq!['/'] + dir,
        dir.len() == 0 || dir[0] != '/' ==> dir_of(rootfs, dir) == rootfs + seq!['/'] + dir,
{
    reveal_strlit("/");
    assert("/"@ =~= seq!['/']);
    assert((seq!['/'] + dir).skip(1) =~= dir);
}

} // verus!
