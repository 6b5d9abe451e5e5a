//! Running a program: which file is meant, with which arguments, and what is tried in which order.
use vstd::prelude::*;

use crate::bytes::{append, is_one_of, join, part, pieces, same, starts_with};
#[allow(unused_imports)]
use crate::bytes::{base_name, contents, lit, slice_opt, split};
use crate::config::Config;
#[allow(unused_imports)]
use crate::config::Settings;
use crate::elf::{ElfInfo, EM_386, EM_AARCH64, EM_ARM, EM_X86_64};
#[allow(unused_imports)]
use crate::elf::ElfFacts;
use crate::procfs::is_utf8;
use crate::text::same_text;
use crate::translate::{translate, PATH_LIMIT};
#[allow(unused_imports)]
use crate::translate::translated;

verus! {

/// The permission bit that runs a file under its owner's identity.
pub const S_ISUID: u32 = 0o4000;

/// The number of links that are followed to find the file of a program.
pub const LINK_LIMIT: u8 = 16;

/// The number of environment entries that are looked at.
pub const ENV_LIMIT: usize = 4096;

/// The contents of an argument list, which is absent where the caller handed in the null pointer.
pub open spec fn list_opt(list: Option<Vec<Vec<u8>>>) -> Option<Seq<Seq<u8>>> {
    match list {
        Some(l) => Some(contents(l@)),
        None => None,
    }
}

/// The arguments behind the program's own name; a list that is absent or empty has none.
pub open spec fn rest_args(argv: Option<Seq<Seq<u8>>>) -> Seq<Seq<u8>> {
    match argv {
        Some(a) => if a.len() > 0 {
            a.skip(1)
        } else {
            Seq::empty()
        },
        None => Seq::empty(),
    }
}

fn copy_list(list: &Vec<Vec<u8>>, from: usize) -> (r: Vec<Vec<u8>>)
    requires
        from <= list@.len(),
    ensures
        contents(r@) == contents(list@).skip(from as int),
{
    let mut out: Vec<Vec<u8>> = Vec::new();
    let mut i: usize = from;
    while i < list.len()
        invariant
            from <= i <= list@.len(),
            contents(out@) == contents(list@).subrange(from as int, i as int),
        decreases list.len() - i,
    {
        let ghost done = contents(out@);
        let item = vstd::slice::slice_to_vec(list[i].as_slice());
        out.push(item);
        proof {
            assert(contents(out@) =~= done.push(item@));
            assert(contents(list@).subrange(from as int, i + 1) =~= done.push(item@));
        }
        i += 1;
    }
    proof {
        assert(contents(list@).subrange(from as int, list@.len() as int) =~= contents(list@).skip(
            from as int,
        ));
    }
    out
}

fn copy_opt(list: &Option<Vec<Vec<u8>>>) -> (r: Option<Vec<Vec<u8>>>)
    ensures
        list_opt(r) == list_opt(*list),
{
    match list {
        Some(l) => {
            let r = copy_list(l, 0);
            proof {
                assert(contents(l@).skip(0) =~= contents(l@));
            }
            Some(r)
        },
        None => None,
    }
}

/// Two arguments in front of those behind the program's own name.
fn prepend(first: &[u8], second: &[u8], argv: &Option<Vec<Vec<u8>>>) -> (r: Vec<Vec<u8>>)
    ensures
        contents(r@) == seq![first@, second@] + rest_args(list_opt(*argv)),
{
    let mut out: Vec<Vec<u8>> = Vec::new();
    out.push(vstd::slice::slice_to_vec(first));
    out.push(vstd::slice::slice_to_vec(second));
    let ghost head = contents(out@);
    proof {
        assert(head =~= seq![first@, second@]);
    }
    if let Some(a) = argv {
        let from: usize = if a.len() > 0 {
            1
        } else {
            0
        };
        let mut tail = copy_list(a, from);
        let ghost tail_view = contents(tail@);
        out.append(&mut tail);
        proof {
            assert(contents(out@) =~= head + tail_view);
            if a@.len() == 0 {
                assert(tail_view =~= Seq::<Seq<u8>>::empty());
            }
        }
    } else {
        proof {
            assert(head + Seq::<Seq<u8>>::empty() =~= head);
        }
    }
    out
}

/// The ELF machine number of a host architecture; 0 for one that is not known.
pub fn host_arch(arch: &str) -> (r: u16)
    ensures
        r == (if arch@ == "aarch64"@ {
            EM_AARCH64
        } else if arch@ == "x86_64"@ {
            EM_X86_64
        } else if arch@ == "arm"@ {
            EM_ARM
        } else if arch@ == "x86"@ {
            EM_386
        } else {
            0
        }),
{
    if same_text(arch, "aarch64") {
        EM_AARCH64
    } else if same_text(arch, "x86_64") {
        EM_X86_64
    } else if same_text(arch, "arm") {
        EM_ARM
    } else if same_text(arch, "x86") {
        EM_386
    } else {
        0
    }
}

/// The name of the emulator for a machine.
pub open spec fn emulator_name(machine: u16) -> Option<Seq<char>> {
    if machine == EM_AARCH64 {
        Some("qemu-aarch64"@)
    } else if machine == EM_X86_64 {
        Some("qemu-x86_64"@)
    } else if machine == EM_ARM {
        Some("qemu-arm"@)
    } else if machine == EM_386 {
        Some("qemu-i386"@)
    } else {
        None
    }
}

/// The name of the emulator for a machine, if there is one.
pub fn qemu_name(machine: u16) -> (r: Option<&'static str>)
    ensures
        crate::text::str_opt(r) == emulator_name(machine),
{
    if machine == EM_AARCH64 {
        Some("qemu-aarch64")
    } else if machine == EM_X86_64 {
        Some("qemu-x86_64")
    } else if machine == EM_ARM {
        Some("qemu-arm")
    } else if machine == EM_386 {
        Some("qemu-i386")
    } else {
        None
    }
}

/// Where an emulator is looked for.
pub enum QemuSearch {
    /// Nowhere.
    Off,
    /// It is this one.
    Use(Vec<u8>),
    /// It is the first of these that can be opened.
    Search(Vec<Vec<u8>>),
}

/// The files with the given name in the given directories; a directory without a name is passed over,
/// and so is one that makes the path too long.
pub open spec fn in_dirs(dirs: Seq<Seq<u8>>, name: Seq<u8>) -> Seq<Seq<u8>>
    decreases dirs.len(),
{
    if dirs.len() == 0 {
        Seq::empty()
    } else {
        let rest = in_dirs(dirs.drop_last(), name);
        let dir = dirs.last();
        if dir.len() == 0 || dir.len() + 1 + name.len() + 1 > PATH_LIMIT {
            rest
        } else {
            rest.push(dir + seq![0x2f] + name)
        }
    }
}

/// The name that an emulator is searched by: the one that was set, or else the usual one.
pub open spec fn searched_name(setting: Seq<u8>, usual: Seq<u8>) -> Seq<u8> {
    if setting.len() == 0 {
        usual
    } else {
        setting
    }
}

/// Whether `find_qemu` answers as it has to. `setting` is the value of `LITTLE_QEMU` and `path_var` that
/// of `PATH`, each where it is set: without the first there is no emulation, a path names the emulator,
/// and a bare name is looked for along the search path, the usual name where the value is empty.
pub open spec fn is_search(
    r: QemuSearch,
    setting: Option<&[u8]>,
    path_var: Option<&[u8]>,
    usual: Seq<u8>,
) -> bool {
    match r {
        QemuSearch::Off => setting is None || (!setting->0@.contains(0x2f) && path_var is None),
        QemuSearch::Use(q) => setting is Some && setting->0@.contains(0x2f) && q@ == setting->0@,
        QemuSearch::Search(list) => {
            &&& setting is Some && !setting->0@.contains(0x2f) && path_var is Some
            &&& contents(list@) == in_dirs(
                split(path_var->0@, 0x3a),
                searched_name(setting->0@, usual),
            )
        },
    }
}

/// Where the emulator with the given usual name is looked for, given the values of `LITTLE_QEMU` and
/// `PATH` where they are set.
pub fn find_qemu(setting: Option<&[u8]>, path_var: Option<&[u8]>, usual: &[u8]) -> (r: QemuSearch)
    ensures
        is_search(r, setting, path_var, usual@),
{
    let chosen = match setting {
        None => return QemuSearch::Off,
        Some(s) => s,
    };
    if is_one_of(chosen, 0x2f) {
        return QemuSearch::Use(vstd::slice::slice_to_vec(chosen));
    }
    let dirs = match path_var {
        None => return QemuSearch::Off,
        Some(p) => pieces(p, 0x3a),
    };
    let name = if chosen.len() == 0 {
        usual
    } else {
        chosen
    };
    let ghost all = contents(dirs@);
    let mut out: Vec<Vec<u8>> = Vec::new();
    let mut i: usize = 0;
    proof {
        assert(contents(out@) =~= in_dirs(all.take(0), name@));
    }
    while i < dirs.len()
        invariant
            i <= dirs@.len(),
            all == contents(dirs@),
            contents(out@) == in_dirs(all.take(i as int), name@),
        decreases dirs.len() - i,
    {
        let dir = &dirs[i];
        let ghost done = contents(out@);
        proof {
            assert(all.take(i + 1).drop_last() =~= all.take(i as int));
            assert(all.take(i + 1).last() == dir@);
        }
        if dir.len() > 0 && name.len() <= PATH_LIMIT - 2 && dir.len() <= PATH_LIMIT - 2
            - name.len() {
            let file = below(dir.as_slice(), name);
            out.push(file);
            proof {
                assert(contents(out@) =~= done.push(file@));
            }
        }
        i += 1;
    }
    proof {
        assert(all.take(dirs@.len() as int) =~= all);
    }
    QemuSearch::Search(out)
}

fn below(dir: &[u8], name: &[u8]) -> (r: Vec<u8>)
    ensures
        r@ == dir@ + seq![0x2f] + name@,
{
    let mut file = vstd::slice::slice_to_vec(dir);
    file.push(0x2f);
    append(&mut file, name);
    proof {
        assert(file@ =~= dir@ + seq![0x2f] + name@);
    }
    file
}

/// The arguments with which an emulator runs a program: itself, the program, and what follows the
/// program's own name.
pub fn build_qemu_argv(qemu: &[u8], tpath: &[u8], argv: &Option<Vec<Vec<u8>>>) -> (r: Vec<Vec<u8>>)
    ensures
        contents(r@) == seq![qemu@, tpath@] + rest_args(list_opt(*argv)),
{
    prepend(qemu, tpath, argv)
}

/// Whether one of the entries that are looked at sets `LD_PRELOAD`.
pub open spec fn names_preload(entries: Seq<Seq<u8>>) -> bool {
    exists|i: int|
        0 <= i < entries.len() && i < ENV_LIMIT && lit("LD_PRELOAD=").is_prefix_of(
            #[trigger] entries[i],
        )
}

/// Whether an environment makes a program load the intercept library; absent, it is the caller's own.
pub open spec fn preloads(envp: Option<Seq<Seq<u8>>>) -> bool {
    match envp {
        None => true,
        Some(e) => names_preload(e),
    }
}

/// Whether an environment makes a program load the intercept library.
pub fn envp_has_ld_preload(envp: &Option<Vec<Vec<u8>>>) -> (r: bool)
    ensures
        r == preloads(list_opt(*envp)),
{
    let list = match envp {
        None => return true,
        Some(l) => l,
    };
    let ghost all = contents(list@);
    let mut i: usize = 0;
    while i < list.len() && i < ENV_LIMIT
        invariant
            i <= list@.len(),
            all == contents(list@),
            list_opt(*envp) == Some(all),
            forall|j: int|
                0 <= j < i ==> !lit("LD_PRELOAD=").is_prefix_of(#[trigger] all[j]),
        decreases list.len() - i,
    {
        if starts_with(list[i].as_slice(), "LD_PRELOAD=".as_bytes()) {
            proof {
                assert(all[i as int] == list@[i as int]@);
                assert(lit("LD_PRELOAD=").is_prefix_of(all[i as int]));
                assert(names_preload(all));
            }
            return true;
        }
        proof {
            assert(all[i as int] == list@[i as int]@);
        }
        i += 1;
    }
    false
}

/// Whether a file runs under its owner's identity, given its mode; a file without status does not.
pub open spec fn is_setuid(mode: Option<u32>) -> bool {
    mode is Some && mode->0 & S_ISUID != 0
}

/// Whether a file runs under its owner's identity, given its mode.
pub fn has_setuid_bit(mode: Option<u32>) -> (r: bool)
    ensures
        r == is_setuid(mode),
{
    match mode {
        Some(m) => m & S_ISUID != 0,
        None => false,
    }
}

/// The part of a path behind its last slash.
pub fn basename(path: &[u8]) -> (r: Vec<u8>)
    ensures
        r@ == base_name(path@),
{
    let mut at: usize = path.len();
    while at > 0 && path[at - 1] != 0x2f
        invariant
            at <= path@.len(),
            forall|j: int| at <= j < path@.len() ==> path@[j] != 0x2f,
        decreases at,
    {
        at -= 1;
    }
    proof {
        lemma_base_name(path@, at as int);
    }
    part(path, at, path.len())
}

proof fn lemma_base_name(path: Seq<u8>, at: int)
    requires
        0 <= at <= path.len(),
        at > 0 ==> path[at - 1] == 0x2f,
        forall|j: int| at <= j < path.len() ==> path[j] != 0x2f,
    ensures
        base_name(path) == path.subrange(at, path.len() as int),
    decreases path.len(),
{
    if at == path.len() {
        assert(path.subrange(at, at) =~= Seq::<u8>::empty());
    } else {
        lemma_base_name(path.drop_last(), at);
        assert(path.drop_last().subrange(at, path.len() - 1).push(path.last()) =~= path.subrange(
            at,
            path.len() as int,
        ));
    }
}

/// The arguments of a program whose file goes by another name than was asked for: the name that was
/// asked for is put in front, for programs that act by it. A list that is absent stays so.
pub open spec fn with_applet(
    argv: Option<Seq<Seq<u8>>>,
    asked: Seq<u8>,
    tpath: Seq<u8>,
) -> Option<Seq<Seq<u8>>> {
    if base_name(asked) == base_name(tpath) {
        argv
    } else {
        match argv {
            Some(a) => Some(seq![base_name(asked)] + a),
            None => None,
        }
    }
}

/// The arguments of a program, with the name that was asked for in front where its file goes by another.
pub fn inject_applet(argv: Option<Vec<Vec<u8>>>, asked: &[u8], tpath: &[u8]) -> (r: Option<
    Vec<Vec<u8>>,
>)
    ensures
        list_opt(r) == with_applet(list_opt(argv), asked@, tpath@),
{
    let name = basename(asked);
    let found = basename(tpath);
    if same(name.as_slice(), found.as_slice()) {
        return argv;
    }
    match argv {
        None => None,
        Some(list) => {
            let mut tail = list;
            let ghost tail_view = contents(tail@);
            let mut out: Vec<Vec<u8>> = Vec::new();
            out.push(name);
            out.append(&mut tail);
            proof {
                assert(contents(out@) =~= seq![base_name(asked@)] + tail_view);
            }
            Some(out)
        },
    }
}

/// The path that was asked for, cut to what is kept of it.
pub open spec fn kept(path: Seq<u8>) -> Seq<u8> {
    if path.len() < PATH_LIMIT {
        path
    } else {
        path.take(PATH_LIMIT - 1)
    }
}

/// The path that was asked for, cut to what is kept of it.
pub fn keep_path(path: &[u8]) -> (r: Vec<u8>)
    ensures
        r@ == kept(path@),
{
    if path.len() < PATH_LIMIT {
        vstd::slice::slice_to_vec(path)
    } else {
        let r = part(path, 0, PATH_LIMIT - 1);
        proof {
            assert(r@ =~= path@.take(PATH_LIMIT - 1));
        }
        r
    }
}

/// The search for the file of a program along symbolic links that are absolute, and so are meant
/// inside the root filesystem.
pub struct LinkWalk {
    /// The host path that was reached.
    pub path: Vec<u8>,
    /// How many more links are read.
    pub left: u8,
}

impl LinkWalk {
    /// The walk starts at the translated path.
    pub fn start(config: &Config, path: &[u8]) -> (r: LinkWalk)
        ensures
            r.path@ == translated(config@, path@),
            r.left == LINK_LIMIT,
            r.left == 16,
    {
        LinkWalk { path: translate(config, path), left: LINK_LIMIT }
    }

    /// Goes on with what the link at the reached path holds, absent where it is no link: an absolute
    /// target is translated and becomes the reached path, anything else ends the walk.
    pub fn step(&mut self, config: &Config, target: Option<&[u8]>)
        requires
            old(self).left > 0,
        ensures
            target is Some && target->0@.len() > 0 && target->0@[0] == 0x2f ==> final(self).path@
                == translated(config@, target->0@) && final(self).left == old(self).left - 1,
            !(target is Some && target->0@.len() > 0 && target->0@[0] == 0x2f) ==> final(self).path@
                == old(self).path@ && final(self).left == 0,
    {
        if let Some(t) = target {
            if t.len() > 0 && t[0] == 0x2f {
                self.path = translate(config, t);
                self.left = self.left - 1;
                return ;
            }
        }
        self.left = 0;
    }
}

/// A way of running a program.
#[derive(Clone, Copy, PartialEq, Eq, Structural)]
pub enum Way {
    /// The kernel runs the file.
    Run,
    /// The kernel runs the file, provided that it can be opened.
    RunIfThere,
    /// The kernel runs the file under a tracer that translates its paths.
    Trace,
}

/// One attempt at running a program.
pub struct Attempt {
    pub way: Way,
    pub path: Vec<u8>,
    pub argv: Option<Vec<Vec<u8>>>,
}

/// One attempt at running a program, as a mathematical value.
pub struct AttemptValue {
    pub way: Way,
    pub path: Seq<u8>,
    pub argv: Option<Seq<Seq<u8>>>,
}

impl View for Attempt {
    type V = AttemptValue;

    open spec fn view(&self) -> AttemptValue {
        AttemptValue { way: self.way, path: self.path@, argv: list_opt(self.argv) }
    }
}

/// The views of a list of attempts.
pub open spec fn attempt_values(list: Seq<Attempt>) -> Seq<AttemptValue> {
    list.map_values(|a: Attempt| a@)
}

/// What is known of the file that is to be run.
pub struct Target {
    /// The host path of the file.
    pub path: Vec<u8>,
    /// What its headers say; absent where it is no ELF file or cannot be read.
    pub info: Option<ElfInfo>,
    /// Its mode; absent where its status cannot be read.
    pub mode: Option<u32>,
    /// The emulator that was found for its machine.
    pub qemu: Option<Vec<u8>>,
}

impl Target {
    /// Whether the intercept library does not reach the program, so that a tracer must: it runs under
    /// its owner's identity, has no loader, or its environment does not ask for the library.
    pub open spec fn needs_tracer(&self, preloaded: bool) -> bool {
        is_setuid(self.mode) || !preloaded || (self.info is Some && self.info->0@.is_static)
    }
}

/// Where the emulator for a file is looked for: a file of the host's own machine, of a machine without
/// an emulator or of none at all needs none.
pub fn emulator(
    host: u16,
    info: &Option<ElfInfo>,
    setting: Option<&[u8]>,
    path_var: Option<&[u8]>,
) -> (r: QemuSearch)
    ensures
        emulator_for(host, *info) is None ==> r is Off,
        emulator_for(host, *info) matches Some(usual) ==> is_search(
            r,
            setting,
            path_var,
            vstd::utf8::encode_utf8(usual),
        ),
{
    match info {
        None => QemuSearch::Off,
        Some(i) => if i.machine == host {
            QemuSearch::Off
        } else {
            match qemu_name(i.machine) {
                None => QemuSearch::Off,
                Some(name) => find_qemu(setting, path_var, name.as_bytes()),
            }
        },
    }
}

/// The emulator that a file needs.
pub open spec fn emulator_for(host: u16, info: Option<ElfInfo>) -> Option<Seq<char>> {
    match info {
        None => None,
        Some(i) => if i.machine == host {
            None
        } else {
            emulator_name(i.machine)
        },
    }
}

/// The attempt to run a program through its interpreter in the root filesystem.
pub open spec fn interp_attempt(
    s: Settings,
    tpath: Seq<u8>,
    interp: Seq<u8>,
    argv: Option<Seq<Seq<u8>>>,
) -> Seq<AttemptValue> {
    if s.rootfs.len() > 0 && interp.len() > 0 {
        let full = s.rootfs + interp;
        seq![
            AttemptValue {
                way: Way::RunIfThere,
                path: full,
                argv: Some(seq![full, tpath] + rest_args(argv)),
            },
        ]
    } else {
        Seq::empty()
    }
}

/// What is tried before the file itself is run: a foreign program goes through its emulator; one that
/// the intercept library does not reach goes under the tracer; and one with an interpreter goes through
/// the interpreter in the root filesystem, where `use_interp` says so.
pub open spec fn first_attempts(
    s: Settings,
    host: u16,
    target: Target,
    argv: Option<Seq<Seq<u8>>>,
    preloaded: bool,
    use_interp: bool,
) -> Seq<AttemptValue> {
    match target.info {
        None => Seq::empty(),
        Some(info) => if info@.machine != host {
            match target.qemu {
                Some(q) => seq![
                    AttemptValue {
                        way: Way::Run,
                        path: q@,
                        argv: Some(seq![q@, target.path@] + rest_args(argv)),
                    },
                ],
                None => Seq::empty(),
            }
        } else {
            (if target.needs_tracer(preloaded) {
                seq![AttemptValue { way: Way::Trace, path: target.path@, argv }]
            } else {
                Seq::empty()
            }) + (if use_interp {
                interp_attempt(s, target.path@, info@.interp, argv)
            } else {
                Seq::empty()
            })
        },
    }
}

/// The attempt to run a program through its interpreter in the root filesystem, if it has one there.
pub fn try_rootfs_interp(
    config: &Config,
    tpath: &[u8],
    interp: &[u8],
    argv: &Option<Vec<Vec<u8>>>,
) -> (r: Option<Attempt>)
    ensures
        (match r {
            Some(a) => seq![a@],
            None => Seq::empty(),
        }) == interp_attempt(config@, tpath@, interp@, list_opt(*argv)),
{
    if config.rootfs.len() == 0 || interp.len() == 0 {
        return None;
    }
    let full = join(config.rootfs.as_slice(), interp);
    let args = prepend(full.as_slice(), tpath, argv);
    Some(Attempt { way: Way::RunIfThere, path: full, argv: Some(args) })
}

fn plan(
    config: &Config,
    host: u16,
    target: &Target,
    argv: &Option<Vec<Vec<u8>>>,
    preloaded: bool,
    use_interp: bool,
) -> (r: Vec<Attempt>)
    ensures
        attempt_values(r@) == first_attempts(
            config@,
            host,
            *target,
            list_opt(*argv),
            preloaded,
            use_interp,
        ).push(AttemptValue { way: Way::Run, path: target.path@, argv: list_opt(*argv) }),
{
    let ghost before = first_attempts(
        config@,
        host,
        *target,
        list_opt(*argv),
        preloaded,
        use_interp,
    );
    let mut out: Vec<Attempt> = Vec::new();
    match &target.info {
        None => {},
        Some(info) => {
            if info.machine != host {
                if let Some(q) = &target.qemu {
                    let args = build_qemu_argv(q.as_slice(), target.path.as_slice(), argv);
                    out.push(
                        Attempt {
                            way: Way::Run,
                            path: vstd::slice::slice_to_vec(q.as_slice()),
                            argv: Some(args),
                        },
                    );
                }
            } else {
                if has_setuid_bit(target.mode) || info.is_static || !preloaded {
                    out.push(
                        Attempt {
                            way: Way::Trace,
                            path: vstd::slice::slice_to_vec(target.path.as_slice()),
                            argv: copy_opt(argv),
                        },
                    );
                }
                let ghost traced = attempt_values(out@);
                if use_interp {
                    if let Some(a) = try_rootfs_interp(
                        config,
                        target.path.as_slice(),
                        info.interp.as_slice(),
                        argv,
                    ) {
                        out.push(a);
                        proof {
                            assert(attempt_values(out@) =~= traced + seq![a@]);
                        }
                    }
                }
                proof {
                    assert(attempt_values(out@) =~= before);
                }
            }
        },
    }
    proof {
        assert(attempt_values(out@) =~= before);
    }
    out.push(
        Attempt {
            way: Way::Run,
            path: vstd::slice::slice_to_vec(target.path.as_slice()),
            argv: copy_opt(argv),
        },
    );
    proof {
        assert(attempt_values(out@) =~= before.push(
            AttemptValue { way: Way::Run, path: target.path@, argv: list_opt(*argv) },
        ));
    }
    out
}

/// The attempts at running a file that was asked for as `asked`: what comes first, then the file itself.
pub open spec fn attempts(
    s: Settings,
    host: u16,
    target: Target,
    asked: Seq<u8>,
    argv: Option<Seq<Seq<u8>>>,
    envp: Option<Seq<Seq<u8>>>,
    use_interp: bool,
) -> Seq<AttemptValue> {
    let args = with_applet(argv, kept(asked), target.path@);
    first_attempts(s, host, target, args, preloads(envp), use_interp).push(
        AttemptValue { way: Way::Run, path: target.path@, argv: args },
    )
}

/// `execve(path, argv, envp)`: the attempts in the order in which they are made; the first that does not
/// fail counts, and the last one's failure is the caller's.
pub fn execve(
    config: &Config,
    host: u16,
    target: &Target,
    path: &[u8],
    argv: Option<Vec<Vec<u8>>>,
    envp: &Option<Vec<Vec<u8>>>,
) -> (r: Vec<Attempt>)
    ensures
        attempt_values(r@) == attempts(
            config@,
            host,
            *target,
            path@,
            list_opt(argv),
            list_opt(*envp),
            true,
        ),
{
    let asked = keep_path(path);
    let args = inject_applet(argv, asked.as_slice(), target.path.as_slice());
    plan(config, host, target, &args, envp_has_ld_preload(envp), true)
}

/// `execveat(dirfd, path, argv, envp, flags)` on an absolute path: as `execve`, but no interpreter is
/// looked for in the root filesystem.
pub fn execveat(
    config: &Config,
    host: u16,
    target: &Target,
    path: &[u8],
    argv: Option<Vec<Vec<u8>>>,
    envp: &Option<Vec<Vec<u8>>>,
) -> (r: Vec<Attempt>)
    ensures
        attempt_values(r@) == attempts(
            config@,
            host,
            *target,
            path@,
            list_opt(argv),
            list_opt(*envp),
            false,
        ),
{
    let asked = keep_path(path);
    let args = inject_applet(argv, asked.as_slice(), target.path.as_slice());
    plan(config, host, target, &args, envp_has_ld_preload(envp), false)
}

/// The attempts end with the file itself, and there are at most three; a foreign program is never traced
/// nor run through the root filesystem's interpreter.
pub proof fn law_attempts(
    s: Settings,
    host: u16,
    target: Target,
    asked: Seq<u8>,
    argv: Option<Seq<Seq<u8>>>,
    envp: Option<Seq<Seq<u8>>>,
    use_interp: bool,
)
    ensures
        1 <= attempts(s, host, target, asked, argv, envp, use_interp).len() <= 3,
        attempts(s, host, target, asked, argv, envp, use_interp).last().way == Way::Run,
        attempts(s, host, target, asked, argv, envp, use_interp).last().path == target.path@,
        target.info matches Some(i) ==> i@.machine != host ==> (forall|k: int|
            0 <= k < attempts(s, host, target, asked, argv, envp, use_interp).len() ==> (
            #[trigger] attempts(s, host, target, asked, argv, envp, use_interp)[k]).way == Way::Run),
{
}

/// A program of the host's machine that the intercept library does not reach is traced before anything
/// else is tried: one that is static, one that runs under its owner's identity, and one whose
/// environment does not ask for the library.
pub proof fn law_tracer_comes_first(
    s: Settings,
    host: u16,
    target: Target,
    asked: Seq<u8>,
    argv: Option<Seq<Seq<u8>>>,
    envp: Option<Seq<Seq<u8>>>,
    use_interp: bool,
)
    requires
        target.info matches Some(i) && i@.machine == host,
    ensures
        attempts(s, host, target, asked, argv, envp, use_interp)[0].way == Way::Trace <==> (
        is_setuid(target.mode) || target.info->0@.is_static || !preloads(envp)),
{
}

/// Whether `execveat` leaves a path to the kernel: it is not absolute, and so counts from a directory.
pub fn execveat_is_plain(path: Option<&[u8]>) -> (r: bool)
    ensures
        r == !(path is Some && path->0@.len() > 0 && path->0@[0] == 0x2f),
{
    match path {
        Some(p) => p.len() == 0 || p[0] != 0x2f,
        None => true,
    }
}

/// Where `execvp` looks for a program.
pub enum ExecvpSearch {
    /// The name is a path: this is its translation, which goes on to `execve`.
    Path(Vec<u8>),
    /// There is no search path: the kernel gets the name as it is.
    AsIs,
    /// The first of these that may be run goes on to `execve`.
    Search(Vec<Vec<u8>>),
}

/// The bytes of a text, or none where they are no UTF-8.
pub open spec fn utf8_or_empty(s: Seq<u8>) -> Seq<u8> {
    if vstd::utf8::valid_utf8(s) {
        s
    } else {
        Seq::empty()
    }
}

/// `execvp(name, argv)`: where the program is looked for, given the value of `PATH` where it is set.
pub fn execvp(config: &Config, name: &[u8], path_var: Option<&[u8]>) -> (r: ExecvpSearch)
    ensures
        match r {
            ExecvpSearch::Path(p) => {
                &&& utf8_or_empty(name@).contains(0x2f)
                &&& p@ == translated(config@, name@)
            },
            ExecvpSearch::AsIs => !utf8_or_empty(name@).contains(0x2f) && path_var is None,
            ExecvpSearch::Search(list) => {
                &&& !utf8_or_empty(name@).contains(0x2f)
                &&& path_var is Some
                &&& contents(list@) == split(utf8_or_empty(path_var->0@), 0x3a).map_values(
                    |dir: Seq<u8>| dir + seq![0x2f] + utf8_or_empty(name@),
                )
            },
        },
{
    let word = text_or_empty(name);
    if is_one_of(word.as_slice(), 0x2f) {
        return ExecvpSearch::Path(translate(config, name));
    }
    let dirs = match path_var {
        None => return ExecvpSearch::AsIs,
        Some(p) => {
            let list = text_or_empty(p);
            pieces(list.as_slice(), 0x3a)
        },
    };
    let ghost files = contents(dirs@).map_values(|dir: Seq<u8>| dir + seq![0x2f] + word@);
    let mut out: Vec<Vec<u8>> = Vec::new();
    let mut i: usize = 0;
    proof {
        assert(contents(out@) =~= files.take(0));
    }
    while i < dirs.len()
        invariant
            i <= dirs@.len(),
            files == contents(dirs@).map_values(|dir: Seq<u8>| dir + seq![0x2f] + word@),
            contents(out@) == files.take(i as int),
        decreases dirs.len() - i,
    {
        let ghost done = contents(out@);
        let file = below(dirs[i].as_slice(), word.as_slice());
        out.push(file);
        proof {
            assert(contents(out@) =~= done.push(file@));
            assert(files.take(i + 1) =~= done.push(file@));
        }
        i += 1;
    }
    proof {
        assert(files.take(dirs@.len() as int) =~= files);
    }
    ExecvpSearch::Search(out)
}

fn text_or_empty(s: &[u8]) -> (r: Vec<u8>)
    ensures
        r@ == utf8_or_empty(s@),
{
    if is_utf8(s) {
        vstd::slice::slice_to_vec(s)
    } else {
        Vec::new()
    }
}

/// Whether an argument list runs a program through another one: the other program's path, the program's
/// path, and the arguments behind the program's own name, one for one and in their order.
pub open spec fn runs_through(
    given: Option<Seq<Seq<u8>>>,
    runner: Seq<u8>,
    path: Seq<u8>,
    argv: Option<Seq<Seq<u8>>>,
) -> bool {
    &&& given matches Some(list)
    &&& list.len() >= 2
    &&& list[0] == runner
    &&& list[1] == path
    &&& argv is None || argv->0.len() == 0 ==> list.len() == 2
    &&& argv is Some && argv->0.len() > 0 ==> list.len() == argv->0.len() + 1 && forall|k: int|
        1 <= k < argv->0.len() ==> list[k + 1] == #[trigger] argv->0[k]
}

/// What the last attempt is run with: the arguments as they were given, or, where the file goes by another
/// name than was asked for, that name in front of them.
pub proof fn law_last_attempt(
    s: Settings,
    host: u16,
    target: Target,
    asked: Seq<u8>,
    argv: Option<Seq<Seq<u8>>>,
    envp: Option<Seq<Seq<u8>>>,
    use_interp: bool,
)
    ensures
        ({
            let all = attempts(s, host, target, asked, argv, envp, use_interp);
            let name = base_name(kept(asked));
            let list = all.last().argv;
            &&& all.len() > 0
            &&& all.last().way == Way::Run
            &&& all.last().path == target.path@
            &&& argv is None ==> list is None
            &&& name == base_name(target.path@) ==> list == argv
            &&& name != base_name(target.path@) && argv is Some ==> {
                &&& list is Some
                &&& list->0.len() == argv->0.len() + 1
                &&& list->0[0] == name
                &&& forall|k: int| 0 <= k < argv->0.len() ==> list->0[k + 1] == #[trigger] argv->0[k]
            }
        }),
{
}

/// A path that was asked for counts whole where it has fewer than 4096 bytes, and else with its first 4095.
pub proof fn law_kept(path: Seq<u8>)
    ensures
        path.len() < 4096 ==> kept(path) == path,
        path.len() >= 4096 ==> kept(path).len() == 4095 && kept(path).is_prefix_of(path),
{
    if path.len() >= 4096 {
        assert(kept(path) =~= path.subrange(0, 4095));
    }
}

/// A file that is no program is run as it is and nothing else is tried.
pub proof fn law_no_program_is_just_run(
    s: Settings,
    host: u16,
    target: Target,
    asked: Seq<u8>,
    argv: Option<Seq<Seq<u8>>>,
    envp: Option<Seq<Seq<u8>>>,
    use_interp: bool,
)
    requires
        target.info is None,
    ensures
        attempts(s, host, target, asked, argv, envp, use_interp).len() == 1,
{
}

/// A program of another machine is run through its emulator before it is run as it is, where an emulator
/// was found, and nothing else is tried. The emulator gets the program and then the program's arguments in
/// their order.
pub proof fn law_foreign_program_is_emulated(
    s: Settings,
    host: u16,
    target: Target,
    asked: Seq<u8>,
    argv: Option<Seq<Seq<u8>>>,
    envp: Option<Seq<Seq<u8>>>,
    use_interp: bool,
)
    requires
        target.info is Some,
        target.info->0@.machine != host,
    ensures
        ({
            let all = attempts(s, host, target, asked, argv, envp, use_interp);
            &&& target.qemu is None ==> all.len() == 1
            &&& target.qemu matches Some(q) ==> {
                &&& all.len() == 2
                &&& all[0].way == Way::Run
                &&& all[0].path == q@
                &&& runs_through(all[0].argv, q@, target.path@, all.last().argv)
            }
        }),
{
}

/// Whether an environment asks for a preloaded library: it is the caller's own, or one of its first 4096
/// entries begins with `LD_PRELOAD=`.
pub open spec fn asks_for_preload(envp: Option<Seq<Seq<u8>>>) -> bool {
    envp is None || exists|i: int, rest: Seq<u8>|
        0 <= i < 4096 && i < envp->0.len() && #[trigger] envp->0[i] == #[trigger] (lit("LD_PRELOAD=")
            + rest)
}

/// Whether an environment asks for a preloaded library is decided by its entries.
pub proof fn law_preloads(envp: Option<Seq<Seq<u8>>>)
    ensures
        preloads(envp) <==> asks_for_preload(envp),
{
    let head = lit("LD_PRELOAD=");
    if let Some(e) = envp {
        if names_preload(e) {
            let i = choose|i: int|
                0 <= i < e.len() && i < ENV_LIMIT && head.is_prefix_of(#[trigger] e[i]);
            let rest = e[i].skip(head.len() as int);
            assert(e[i] =~= head + rest);
            assert(envp->0[i] == head + rest);
        }
        if asks_for_preload(envp) {
            let (i, rest) = choose|i: int, rest: Seq<u8>|
                0 <= i < 4096 && i < envp->0.len() && #[trigger] envp->0[i] == #[trigger] (head
                    + rest);
            assert((head + rest).subrange(0, head.len() as int) =~= head);
            assert(head.is_prefix_of(e[i]));
        }
    }
}

/// The bit that runs a file under its owner's identity, among the bits of a mode.
pub proof fn law_setuid(mode: u32)
    ensures
        is_setuid(Some(mode)) <==> mode & 0x800 == 0x800,
        !is_setuid(None),
{
    assert((mode & 0o4000 != 0) == (mode & 0x800 == 0x800)) by (bit_vector);
}

/// A program of the host's own machine is first run under the tracer where the preloaded library does not
/// reach it: it runs under its owner's identity, is static, or its environment does not ask for the library.
/// It is run so with the file's path and with the arguments of the last attempt. Then it is run
/// through its interpreter in the root filesystem, where it has one, there is a root filesystem and
/// `use_interp` allows it; the interpreter gets the program and then the program's arguments in their
/// order. Last it is run as it is, and nothing else is tried.
pub proof fn law_own_program(
    s: Settings,
    host: u16,
    target: Target,
    asked: Seq<u8>,
    argv: Option<Seq<Seq<u8>>>,
    envp: Option<Seq<Seq<u8>>>,
    use_interp: bool,
)
    requires
        target.info is Some,
        target.info->0@.machine == host,
    ensures
        ({
            let all = attempts(s, host, target, asked, argv, envp, use_interp);
            let info = target.info->0@;
            let traced = (target.mode is Some && target.mode->0 & 0x800 == 0x800) || info.is_static
                || !asks_for_preload(envp);
            let loaded = use_interp && s.rootfs.len() > 0 && info.interp.len() > 0;
            let at: int = if traced {
                1
            } else {
                0
            };
            &&& all.len() == at + (if loaded {
                2int
            } else {
                1
            })
            &&& traced ==> all[0] == (AttemptValue {
                way: Way::Trace,
                path: target.path@,
                argv: all.last().argv,
            })
            &&& loaded ==> {
                &&& all[at].way == Way::RunIfThere
                &&& all[at].path == s.rootfs + info.interp
                &&& runs_through(
                    all[at].argv,
                    s.rootfs + info.interp,
                    target.path@,
                    all.last().argv,
                )
            }
        }),
{
    law_preloads(envp);
    if target.mode is Some {
        law_setuid(target.mode->0);
    }
}

/// Each machine that can be emulated has its own emulator, the host's own machine and others have none.
pub proof fn law_emulators(host: u16, info: Option<ElfInfo>)
    ensures
        emulator_name(183) == Some("qemu-aarch64"@),
        emulator_name(62) == Some("qemu-x86_64"@),
        emulator_name(40) == Some("qemu-arm"@),
        emulator_name(3) == Some("qemu-i386"@),
        forall|m: u16|
            m != 183 && m != 62 && m != 40 && m != 3 ==> #[trigger] emulator_name(m) is None,
        info is None ==> emulator_for(host, info) is None,
        info is Some && info->0@.machine == host ==> emulator_for(host, info) is None,
        info is Some && info->0@.machine != host ==> emulator_for(host, info) == emulator_name(
            info->0@.machine,
        ),
{
}

/// An emulator is looked for in the directories one after the other; each that has a name, and for which the
/// path has fewer than 4096 bytes, gives the path of the file of that name in it.
pub proof fn law_search_by_directory(x: Seq<Seq<u8>>, y: Seq<Seq<u8>>, dir: Seq<u8>, name: Seq<u8>)
    ensures
        in_dirs(x + y, name) == in_dirs(x, name) + in_dirs(y, name),
        in_dirs(Seq::empty(), name) == Seq::<Seq<u8>>::empty(),
        in_dirs(seq![Seq::empty()], name) == Seq::<Seq<u8>>::empty(),
        dir.len() > 0 && dir.len() + name.len() + 1 < 4096 ==> in_dirs(seq![dir], name) == seq![
            dir + seq![0x2fu8] + name,
        ],
        dir.len() + name.len() + 1 >= 4096 ==> in_dirs(seq![dir], name) == Seq::<Seq<u8>>::empty(),
    decreases y.len(),
{
    reveal_with_fuel(in_dirs, 2);
    assert(seq![dir].drop_last() =~= Seq::<Seq<u8>>::empty());
    assert(seq![Seq::<u8>::empty()].drop_last() =~= Seq::<Seq<u8>>::empty());
    assert(in_dirs(Seq::empty(), name) =~= Seq::<Seq<u8>>::empty());
    assert(Seq::<Seq<u8>>::empty().push(dir + seq![0x2fu8] + name) =~= seq![
        dir + seq![0x2fu8] + name,
    ]);
    if y.len() == 0 {
        assert(x + y =~= x);
        assert(in_dirs(x, name) + in_dirs(y, name) =~= in_dirs(x, name));
    } else {
        assert((x + y).drop_last() =~= x + y.drop_last());
        assert((x + y).last() == y.last());
        law_search_by_directory(x, y.drop_last(), dir, name);
        assert(in_dirs(x + y, name) =~= in_dirs(x, name) + in_dirs(y, name));
    }
}

/// Without a setting there is no emulation; a setting with a slash in it is the emulator; any other one,
/// without a search path, leaves it at that; and with a search path it is looked for by the name that was
/// set, or by the usual name where the setting is empty.
pub proof fn law_emulator_by_setting(
    r: QemuSearch,
    setting: Option<&[u8]>,
    path_var: Option<&[u8]>,
    usual: Seq<u8>,
)
    requires
        is_search(r, setting, path_var, usual),
    ensures
        setting is None ==> r is Off,
        setting is Some && setting->0@.contains(0x2f) ==> r is Use && r->Use_0@ == setting->0@,
        setting is Some && !setting->0@.contains(0x2f) && path_var is None ==> r is Off,
        setting is Some && !setting->0@.contains(0x2f) && path_var is Some ==> r is Search
            && contents(r->Search_0@) == in_dirs(
            split(path_var->0@, 0x3a),
            if setting->0@.len() == 0 {
                usual
            } else {
                setting->0@
            },
        ),
{
}

/// Bytes that are UTF-8 count as they are, and others count as none.
pub proof fn law_utf8_or_empty(s: Seq<u8>)
    ensures
        vstd::utf8::valid_utf8(s) ==> utf8_or_empty(s) == s,
        !vstd::utf8::valid_utf8(s) ==> utf8_or_empty(s).len() == 0,
{
}

/// The arguments behind a program's own name are all the others, in their order.
pub proof fn law_rest_args(argv: Seq<Seq<u8>>)
    ensures
        argv.len() > 0 ==> rest_args(Some(argv)).len() == argv.len() - 1 && forall|k: int|
            1 <= k < argv.len() ==> rest_args(Some(argv))[k - 1] == #[trigger] argv[k],
        argv.len() == 0 ==> rest_args(Some(argv)).len() == 0,
        rest_args(None).len() == 0,
{
}

} // verus!
