//! The runner's own view of a root filesystem: its directories, its paths, and the environment of a
//! program that runs in it.
use vstd::prelude::*;

use crate::error::Error;
use crate::path::join_path;
#[allow(unused_imports)]
use crate::path::joined_path;
use crate::text::{add_text, add_texts, same_text, text_starts};
#[allow(unused_imports)]
use crate::text::{str_opt, texts};

verus! {

/// The root filesystem where none is named.
pub const DEFAULT_ROOTFS: &'static str = "/data/data/com.littlelinuxrunner/files/rootfs";

/// The intercept library where the root filesystem holds none.
pub const FALLBACK_LIB: &'static str = "/data/data/com.littlelinuxrunner/lib/libintercept.so";

/// The contents of a list of string pairs.
pub open spec fn pairs(list: Seq<(String, String)>) -> Seq<(Seq<char>, Seq<char>)> {
    list.map_values(|p: (String, String)| (p.0@, p.1@))
}

/// The top-level directories whose paths are translated.
pub open spec fn top_dirs() -> Seq<Seq<char>> {
    seq![
        "/usr"@,
        "/bin"@,
        "/lib"@,
        "/lib64"@,
        "/etc"@,
        "/var"@,
        "/opt"@,
        "/tmp"@,
        "/home"@,
        "/sbin"@,
        "/root"@,
    ]
}

/// The directories that a root filesystem is prepared with.
pub open spec fn base_dirs() -> Seq<Seq<char>> {
    seq![
        "usr"@,
        "bin"@,
        "lib"@,
        "lib64"@,
        "etc"@,
        "var"@,
        "opt"@,
        "tmp"@,
        "home"@,
        "sbin"@,
        "dev"@,
        "proc"@,
        "sys"@,
        "root"@,
    ]
}

/// Whether a path is the given directory or lies below it.
pub open spec fn is_below(dir: Seq<char>, path: Seq<char>) -> bool {
    path == dir || (dir + "/"@).is_prefix_of(path)
}

/// Whether a path lies in one of the top-level directories.
pub open spec fn in_top_dir(path: Seq<char>) -> bool {
    exists|i: int| 0 <= i < top_dirs().len() && is_below(#[trigger] top_dirs()[i], path)
}

/// Whether a path lies in one of the host's kernel file systems.
pub open spec fn is_kernel_path(path: Seq<char>) -> bool {
    "/proc/"@.is_prefix_of(path) || "/sys/"@.is_prefix_of(path) || "/dev/"@.is_prefix_of(path)
}

/// The host path of a path in a root filesystem: what lies in a top-level directory gets the root
/// filesystem in front, everything else and what begins with it already stays.
pub open spec fn host_path(rootfs: Seq<char>, path: Seq<char>) -> Seq<char> {
    if !is_kernel_path(path) && !rootfs.is_prefix_of(path) && in_top_dir(path) {
        rootfs + path
    } else {
        path
    }
}

fn names(list: &[&str]) -> (r: Vec<String>)
    ensures
        texts(r@) == list@.map_values(|s: &str| s@),
{
    let ghost all = list@.map_values(|s: &str| s@);
    let mut out: Vec<String> = Vec::new();
    let mut i: usize = 0;
    proof {
        assert(texts(out@) =~= all.take(0));
    }
    while i < list.len()
        invariant
            i <= list@.len(),
            all == list@.map_values(|s: &str| s@),
            texts(out@) == all.take(i as int),
        decreases list.len() - i,
    {
        let ghost done = texts(out@);
        let name = list[i].to_owned();
        out.push(name);
        proof {
            assert(texts(out@) =~= done.push(name@));
            assert(all.take(i + 1) =~= done.push(name@));
        }
        i += 1;
    }
    proof {
        assert(all.take(list@.len() as int) =~= all);
    }
    out
}

/// The translation of paths into a root filesystem.
pub struct PathTranslator {
    pub rootfs: String,
    /// The top-level directories, each with its place below the root filesystem.
    pub mappings: Vec<(String, String)>,
}

impl PathTranslator {
    /// The mappings are those of the top-level directories, each to its place below the root
    /// filesystem.
    pub open spec fn wf(&self) -> bool {
        pairs(self.mappings@) == top_dirs().map_values(
            |dir: Seq<char>| (dir, self.rootfs@ + dir),
        )
    }

    /// The translation into the given root filesystem.
    pub fn new(rootfs: &str) -> (r: PathTranslator)
        ensures
            r.rootfs@ == rootfs@,
            r.wf(),
    {
        let list: [&'static str; 11] = [
            "/usr",
            "/bin",
            "/lib",
            "/lib64",
            "/etc",
            "/var",
            "/opt",
            "/tmp",
            "/home",
            "/sbin",
            "/root",
        ];
        let dirs = names(list.as_slice());
        proof {
            assert(texts(dirs@) =~= top_dirs());
        }
        let ghost all = top_dirs().map_values(|dir: Seq<char>| (dir, rootfs@ + dir));
        let mut mappings: Vec<(String, String)> = Vec::new();
        let mut i: usize = 0;
        proof {
            assert(pairs(mappings@) =~= all.take(0));
        }
        while i < dirs.len()
            invariant
                i <= dirs@.len(),
                texts(dirs@) == top_dirs(),
                all == top_dirs().map_values(|dir: Seq<char>| (dir, rootfs@ + dir)),
                pairs(mappings@) == all.take(i as int),
            decreases dirs.len() - i,
        {
            let ghost done = pairs(mappings@);
            let dir = dirs[i].clone();
            let place = add_text(rootfs, dir.as_str());
            mappings.push((dir, place));
            proof {
                assert(texts(dirs@)[i as int] == dirs@[i as int]@);
                assert(pairs(mappings@) =~= done.push((dir@, place@)));
                assert(all.take(i + 1) =~= done.push((dir@, place@)));
            }
            i += 1;
        }
        proof {
            assert(texts(dirs@).len() == dirs@.len());
            assert(all.take(dirs@.len() as int) =~= all);
        }
        PathTranslator { rootfs: rootfs.to_owned(), mappings }
    }

    /// The host path of a path in the root filesystem.
    pub fn translate(&self, path: &str) -> (r: String)
        requires
            self.wf(),
        ensures
            r@ == host_path(self.rootfs@, path@),
    {
        if text_starts(path, "/proc/") || text_starts(path, "/sys/") || text_starts(path, "/dev/") {
            return path.to_owned();
        }
        if text_starts(path, self.rootfs.as_str()) {
            return path.to_owned();
        }
        let ghost all = pairs(self.mappings@);
        let mut i: usize = 0;
        while i < self.mappings.len()
            invariant
                i <= self.mappings@.len(),
                self.wf(),
                all == pairs(self.mappings@),
                !is_kernel_path(path@),
                !self.rootfs@.is_prefix_of(path@),
                forall|j: int| 0 <= j < i ==> !is_below(#[trigger] top_dirs()[j], path@),
            decreases self.mappings.len() - i,
        {
            let dir = &self.mappings[i].0;
            let place = &self.mappings[i].1;
            proof {
                assert(all[i as int] == (dir@, place@));
                assert(all.len() == top_dirs().len());
                assert(dir@ == top_dirs()[i as int]);
            }
            let entry = add_text(dir.as_str(), "/");
            if same_text(path, dir.as_str()) || text_starts(path, entry.as_str()) {
                proof {
                    assert(is_below(top_dirs()[i as int], path@));
                    lemma_below_is_prefix(dir@, path@);
                }
                let rest = strip(path, dir.as_str());
                let r = add_text(place.as_str(), rest.as_str());
                proof {
                    assert(r@ =~= self.rootfs@ + path@);
                }
                return r;
            }
            i += 1;
        }
        proof {
            assert(all.len() == top_dirs().len());
        }
        path.to_owned()
    }
}

proof fn lemma_below_is_prefix(dir: Seq<char>, path: Seq<char>)
    requires
        is_below(dir, path),
    ensures
        dir.is_prefix_of(path),
        dir + path.skip(dir.len() as int) == path,
{
    if path != dir {
        let entry = dir + "/"@;
        assert(path.subrange(0, dir.len() as int) =~= path.subrange(
            0,
            entry.len() as int,
        ).subrange(0, dir.len() as int));
        assert(entry.subrange(0, dir.len() as int) =~= dir);
    } else {
        assert(path.subrange(0, dir.len() as int) =~= dir);
    }
    assert(dir + path.skip(dir.len() as int) =~= path);
}

/// A path lies in at most one of the top-level directories, so the order in which they are tried is of
/// no account.
pub proof fn law_one_top_dir(path: Seq<char>, i: int, j: int)
    requires
        0 <= i < top_dirs().len(),
        0 <= j < top_dirs().len(),
        is_below(top_dirs()[i], path),
        is_below(top_dirs()[j], path),
    ensures
        i == j,
{
    reveal_strlit("/");
    reveal_strlit("/usr");
    reveal_strlit("/bin");
    reveal_strlit("/lib");
    reveal_strlit("/lib64");
    reveal_strlit("/etc");
    reveal_strlit("/var");
    reveal_strlit("/opt");
    reveal_strlit("/tmp");
    reveal_strlit("/home");
    reveal_strlit("/sbin");
    reveal_strlit("/root");
    let a = top_dirs()[i];
    let b = top_dirs()[j];
    lemma_below_is_prefix(a, path);
    lemma_below_is_prefix(b, path);
    lemma_below_ends(a, path);
    lemma_below_ends(b, path);
    assert(forall|k: int| 0 <= k < a.len() ==> a[k] == path[k]);
    assert(forall|k: int| 0 <= k < b.len() ==> b[k] == path[k]);
    assert(a[1] == path[1] && b[1] == path[1]);
    assert(a[2] == path[2] && b[2] == path[2]);
    assert(a[3] == path[3] && b[3] == path[3]);
}

proof fn lemma_below_ends(dir: Seq<char>, path: Seq<char>)
    requires
        is_below(dir, path),
    ensures
        dir.len() < path.len() ==> path[dir.len() as int] == '/',
{
    reveal_strlit("/");
    if path != dir {
        let entry = dir + "/"@;
        assert(path.subrange(0, entry.len() as int)[dir.len() as int] == entry[dir.len() as int]);
    }
}

/// Translating a path that was translated changes nothing more.
pub proof fn law_host_path_twice(rootfs: Seq<char>, path: Seq<char>)
    ensures
        host_path(rootfs, host_path(rootfs, path)) == host_path(rootfs, path),
{
    let r = host_path(rootfs, path);
    if r != path {
        assert((rootfs + path).subrange(0, rootfs.len() as int) =~= rootfs);
    }
}

/// The root filesystem is put in front of a path of a top-level directory that does not begin with it; a
/// kernel path, a path that begins with the root filesystem and a path of no top-level directory stay as
/// they are.
pub proof fn law_host_path_confined(rootfs: Seq<char>, path: Seq<char>)
    ensures
        in_top_dir(path) && !is_kernel_path(path) && !rootfs.is_prefix_of(path) ==> host_path(
            rootfs,
            path,
        ) == rootfs + path,
        is_kernel_path(path) || rootfs.is_prefix_of(path) || !in_top_dir(path) ==> host_path(
            rootfs,
            path,
        ) == path,
{
}

fn strip(path: &str, prefix: &str) -> (r: String)
    requires
        prefix@.is_prefix_of(path@),
    ensures
        r@ == path@.skip(prefix@.len() as int),
{
    let all = crate::text::chars_of(path);
    let head = crate::text::chars_of(prefix);
    let r = crate::text::piece(path, head.len(), all.len());
    proof {
        assert(r@ =~= path@.skip(prefix@.len() as int));
    }
    r
}

/// The variables that switch the hooks on: `LD_PRELOAD` and `LITTLE_ROOTFS`.
pub struct PreloadVars {
    pub ld_preload: String,
    pub little_rootfs: String,
}

/// What a program is started with; the variables are set on top of the runner's own.
pub struct SpawnPlan {
    pub program: String,
    pub args: Vec<String>,
    pub envs: Vec<(String, String)>,
}

/// The runner's handle on a root filesystem.
pub struct Manager {
    pub rootfs: String,
    pub hook_lib_path: String,
    pub preload_enabled: bool,
    pub path_translator: PathTranslator,
}

/// The environment of a program that runs in a root filesystem.
pub open spec fn spawn_envs(rootfs: Seq<char>, wayland: Option<Seq<char>>) -> Seq<
    (Seq<char>, Seq<char>),
> {
    seq![
        ("PATH"@, rootfs + "/usr/bin:"@ + rootfs + "/bin"@),
        ("LD_LIBRARY_PATH"@, rootfs + "/lib:"@ + rootfs + "/lib64"@),
        ("HOME"@, rootfs + "/root"@),
        ("TERM"@, "xterm-256color"@),
        (
            "WAYLAND_DISPLAY"@,
            match wayland {
                Some(w) => w,
                None => "little-wayland"@,
            },
        ),
    ]
}

impl Manager {
    /// The translator works on the same root filesystem, and the library is looked for in it.
    pub open spec fn wf(&self) -> bool {
        &&& self.path_translator.wf()
        &&& self.path_translator.rootfs@ == self.rootfs@
        &&& self.hook_lib_path@ == joined_path(
            joined_path(self.rootfs@, "lib"@),
            "libintercept.so"@,
        )
    }

    /// A handle on the given root filesystem, or on the default one where none is named.
    pub fn new(rootfs_path: &str) -> (r: Result<Manager, Error>)
        ensures
            r matches Ok(m) && m.wf() && !m.preload_enabled && m.rootfs@ == (if rootfs_path@.len()
                == 0 {
                DEFAULT_ROOTFS@
            } else {
                rootfs_path@
            }),
    {
        let rootfs = if rootfs_path.is_empty() {
            DEFAULT_ROOTFS.to_owned()
        } else {
            rootfs_path.to_owned()
        };
        let lib = join_path(rootfs.as_str(), "lib");
        let hook_lib_path = join_path(lib.as_str(), "libintercept.so");
        let path_translator = PathTranslator::new(rootfs.as_str());
        Ok(Manager { rootfs, hook_lib_path, preload_enabled: false, path_translator })
    }

    /// The directories that have to be made for the root filesystem to be used, in order: each with its
    /// name and its path.
    pub fn prepare_rootfs(&self) -> (r: Vec<(String, String)>)
        ensures
            pairs(r@) == base_dirs().map_values(
                |dir: Seq<char>| (dir, joined_path(self.rootfs@, dir)),
            ),
    {
        let list: [&'static str; 14] = [
            "usr",
            "bin",
            "lib",
            "lib64",
            "etc",
            "var",
            "opt",
            "tmp",
            "home",
            "sbin",
            "dev",
            "proc",
            "sys",
            "root",
        ];
        let dirs = names(list.as_slice());
        proof {
            assert(texts(dirs@) =~= base_dirs());
        }
        let ghost all = base_dirs().map_values(
            |dir: Seq<char>| (dir, joined_path(self.rootfs@, dir)),
        );
        let mut out: Vec<(String, String)> = Vec::new();
        let mut i: usize = 0;
        proof {
            assert(pairs(out@) =~= all.take(0));
        }
        while i < dirs.len()
            invariant
                i <= dirs@.len(),
                texts(dirs@) == base_dirs(),
                all == base_dirs().map_values(
                    |dir: Seq<char>| (dir, joined_path(self.rootfs@, dir)),
                ),
                pairs(out@) == all.take(i as int),
            decreases dirs.len() - i,
        {
            let ghost done = pairs(out@);
            let dir = dirs[i].clone();
            let place = join_path(self.rootfs.as_str(), dir.as_str());
            out.push((dir, place));
            proof {
                assert(texts(dirs@)[i as int] == dirs@[i as int]@);
                assert(pairs(out@) =~= done.push((dir@, place@)));
                assert(all.take(i + 1) =~= done.push((dir@, place@)));
            }
            i += 1;
        }
        proof {
            assert(texts(dirs@).len() == dirs@.len());
            assert(all.take(dirs@.len() as int) =~= all);
        }
        out
    }

    /// The error for a directory that could not be made.
    pub fn mkdir_error(dir: &str, cause: &str) -> (r: Error)
        ensures
            r matches Error::Intercept(m) && m@ == "mkdir "@ + dir@ + ": "@ + cause@,
    {
        let what = add_texts("mkdir ", dir, ": ");
        Error::Intercept(add_text(what.as_str(), cause))
    }

    /// Switches the hooks on, given whether the library in the root filesystem and the fallback exist:
    /// the variables to set, or none where there is no library, in which case nothing changes.
    pub fn enable_preload_hooks(&mut self, has_hook: bool, has_fallback: bool) -> (r: Option<
        PreloadVars,
    >)
        requires
            old(self).wf(),
        ensures
            has_hook ==> (r matches Some(v) && v.ld_preload@ == old(self).hook_lib_path@),
            !has_hook && has_fallback ==> (r matches Some(v) && v.ld_preload@ == FALLBACK_LIB@),
            r matches Some(v) ==> v.little_rootfs@ == old(self).rootfs@,
            r is None <==> !has_hook && !has_fallback,
            final(self).preload_enabled == (old(self).preload_enabled || r is Some),
            final(self).rootfs == old(self).rootfs,
            final(self).hook_lib_path == old(self).hook_lib_path,
            final(self).path_translator == old(self).path_translator,
            final(self).wf(),
    {
        let lib = if has_hook {
            self.hook_lib_path.clone()
        } else if has_fallback {
            FALLBACK_LIB.to_owned()
        } else {
            return None;
        };
        self.preload_enabled = true;
        Some(PreloadVars { ld_preload: lib, little_rootfs: self.rootfs.clone() })
    }

    /// The host path of a path in the root filesystem.
    pub fn translate_path(&self, path: &str) -> (r: String)
        requires
            self.wf(),
        ensures
            r@ == host_path(self.rootfs@, path@),
    {
        self.path_translator.translate(path)
    }

    /// The root filesystem.
    pub fn rootfs_path(&self) -> (r: &str)
        ensures
            r@ == self.rootfs@,
    {
        self.rootfs.as_str()
    }

    /// What a program in the root filesystem is started with, given the value of `WAYLAND_DISPLAY` where
    /// it is set.
    pub fn spawn_in_rootfs(&self, program: &str, args: &[&str], wayland: Option<&str>) -> (r:
        SpawnPlan)
        requires
            self.wf(),
        ensures
            r.program@ == host_path(self.rootfs@, program@),
            texts(r.args@) == args@.map_values(|s: &str| s@),
            pairs(r.envs@) == spawn_envs(self.rootfs@, str_opt(wayland)),
    {
        let rootfs = self.rootfs.as_str();
        let bin = add_texts(rootfs, "/usr/bin:", rootfs);
        let lib = add_texts(rootfs, "/lib:", rootfs);
        let display = match wayland {
            Some(w) => w.to_owned(),
            None => "little-wayland".to_owned(),
        };
        let mut envs: Vec<(String, String)> = Vec::new();
        envs.push(("PATH".to_owned(), add_text(bin.as_str(), "/bin")));
        envs.push(("LD_LIBRARY_PATH".to_owned(), add_text(lib.as_str(), "/lib64")));
        envs.push(("HOME".to_owned(), add_text(rootfs, "/root")));
        envs.push(("TERM".to_owned(), "xterm-256color".to_owned()));
        envs.push(("WAYLAND_DISPLAY".to_owned(), display));
        proof {
            assert(pairs(envs@) =~= spawn_envs(self.rootfs@, str_opt(wayland)));
        }
        SpawnPlan { program: self.translate_path(program), args: names(args), envs }
    }

    /// The error for a program that could not be started.
    pub fn spawn_error(program: &str, cause: &str) -> (r: Error)
        ensures
            r matches Error::Intercept(m) && m@ == "spawn "@ + program@ + ": "@ + cause@,
    {
        let what = add_texts("spawn ", program, ": ");
        Error::Intercept(add_text(what.as_str(), cause))
    }
}

/// The kernel's file systems are what lies below `/proc`, `/sys` and `/dev`, and the directories themselves
/// are not among it.
pub proof fn law_kernel_paths(path: Seq<char>, rest: Seq<char>)
    ensures
        is_kernel_path("/proc/"@ + rest),
        is_kernel_path("/sys/"@ + rest),
        is_kernel_path("/dev/"@ + rest),
        is_kernel_path(path) ==> exists|below: Seq<char>|
            path == #[trigger] ("/proc/"@ + below) || path == "/sys/"@ + below || path == "/dev/"@
                + below,
{
    let a = "/proc/"@;
    let b = "/sys/"@;
    let c = "/dev/"@;
    assert((a + rest).subrange(0, a.len() as int) =~= a);
    assert((b + rest).subrange(0, b.len() as int) =~= b);
    assert((c + rest).subrange(0, c.len() as int) =~= c);
    if is_kernel_path(path) {
        if a.is_prefix_of(path) {
            let below = path.skip(a.len() as int);
            assert(path =~= a + below);
        } else if b.is_prefix_of(path) {
            let below = path.skip(b.len() as int);
            assert(path =~= b + below);
            assert((a + below).len() >= 0);
        } else {
            let below = path.skip(c.len() as int);
            assert(path =~= c + below);
            assert((a + below).len() >= 0);
        }
    }
}

/// A path lies in a top-level directory exactly if it is one of eleven directories, or continues one of them
/// behind a slash.
pub proof fn law_top_dirs(path: Seq<char>)
    ensures
        in_top_dir(path) <==> {
            ||| path == "/usr"@ || ("/usr"@ + seq!['/']).is_prefix_of(path)
            ||| path == "/bin"@ || ("/bin"@ + seq!['/']).is_prefix_of(path)
            ||| path == "/lib"@ || ("/lib"@ + seq!['/']).is_prefix_of(path)
            ||| path == "/lib64"@ || ("/lib64"@ + seq!['/']).is_prefix_of(path)
            ||| path == "/etc"@ || ("/etc"@ + seq!['/']).is_prefix_of(path)
            ||| path == "/var"@ || ("/var"@ + seq!['/']).is_prefix_of(path)
            ||| path == "/opt"@ || ("/opt"@ + seq!['/']).is_prefix_of(path)
            ||| path == "/tmp"@ || ("/tmp"@ + seq!['/']).is_prefix_of(path)
            ||| path == "/home"@ || ("/home"@ + seq!['/']).is_prefix_of(path)
            ||| path == "/sbin"@ || ("/sbin"@ + seq!['/']).is_prefix_of(path)
            ||| path == "/root"@ || ("/root"@ + seq!['/']).is_prefix_of(path)
        },
{
    reveal_strlit("/");
    assert("/"@ =~= seq!['/']);
    let all = top_dirs();
    assert(all[0] == "/usr"@ && all[1] == "/bin"@ && all[2] == "/lib"@ && all[3] == "/lib64"@
        && all[4] == "/etc"@ && all[5] == "/var"@ && all[6] == "/opt"@ && all[7] == "/tmp"@ && all[8]
        == "/home"@ && all[9] == "/sbin"@ && all[10] == "/root"@);
    assert forall|i: int| 0 <= i < 11 && is_below(#[trigger] all[i], path) implies in_top_dir(path) by {
        assert(is_below(top_dirs()[i], path));
    }
    assert(is_below(all[0], path) ==> in_top_dir(path));
    assert(is_below(all[1], path) ==> in_top_dir(path));
    assert(is_below(all[2], path) ==> in_top_dir(path));
    assert(is_below(all[3], path) ==> in_top_dir(path));
    assert(is_below(all[4], path) ==> in_top_dir(path));
    assert(is_below(all[5], path) ==> in_top_dir(path));
    assert(is_below(all[6], path) ==> in_top_dir(path));
    assert(is_below(all[7], path) ==> in_top_dir(path));
    assert(is_below(all[8], path) ==> in_top_dir(path));
    assert(is_below(all[9], path) ==> in_top_dir(path));
    assert(is_below(all[10], path) ==> in_top_dir(path));
}

/// A root filesystem is prepared with the top-level directories and with those of the kernel.
pub proof fn law_base_dirs(dir: Seq<char>)
    ensures
        base_dirs().len() == 14,
        base_dirs().contains(dir) <==> top_dirs().contains(seq!['/'] + dir) || dir == "dev"@ || dir
            == "proc"@ || dir == "sys"@,
{
    reveal_strlit("usr");
    reveal_strlit("bin");
    reveal_strlit("lib");
    reveal_strlit("lib64");
    reveal_strlit("etc");
    reveal_strlit("var");
    reveal_strlit("opt");
    reveal_strlit("tmp");
    reveal_strlit("home");
    reveal_strlit("sbin");
    reveal_strlit("root");
    reveal_strlit("/usr");
    reveal_strlit("/bin");
    reveal_strlit("/lib");
    reveal_strlit("/lib64");
    reveal_strlit("/etc");
    reveal_strlit("/var");
    reveal_strlit("/opt");
    reveal_strlit("/tmp");
    reveal_strlit("/home");
    reveal_strlit("/sbin");
    reveal_strlit("/root");
    let base = base_dirs();
    let top = top_dirs();
    assert(top[0] =~= seq!['/'] + base[0]);
    assert(top[1] =~= seq!['/'] + base[1]);
    assert(top[2] =~= seq!['/'] + base[2]);
    assert(top[3] =~= seq!['/'] + base[3]);
    assert(top[4] =~= seq!['/'] + base[4]);
    assert(top[5] =~= seq!['/'] + base[5]);
    assert(top[6] =~= seq!['/'] + base[6]);
    assert(top[7] =~= seq!['/'] + base[7]);
    assert(top[8] =~= seq!['/'] + base[8]);
    assert(top[9] =~= seq!['/'] + base[9]);
    assert(top[10] =~= seq!['/'] + base[13]);
    assert(base[10] == "dev"@ && base[11] == "proc"@ && base[12] == "sys"@);
    if base.contains(dir) {
        let i = choose|i: int| 0 <= i < base.len() && base[i] == dir;
        if i < 10 {
            assert(top[i] == seq!['/'] + dir);
        } else if i == 13 {
            assert(top[10] == seq!['/'] + dir);
        }
    }
    if top.contains(seq!['/'] + dir) {
        let i = choose|i: int| 0 <= i < top.len() && top[i] == seq!['/'] + dir;
        let k = if i == 10 {
            13
        } else {
            i
        };
        assert((seq!['/'] + base[k]).skip(1) =~= base[k]);
        assert((seq!['/'] + dir).skip(1) =~= dir);
        assert(base[k] == dir);
    }
}

/// A program that runs in a root filesystem has its search paths and its home in it, a terminal, and the
/// display that the host has, or a display of its own.
pub proof fn law_spawn_environment(rootfs: Seq<char>, wayland: Option<Seq<char>>)
    ensures
        ({
            let env = spawn_envs(rootfs, wayland);
            &&& env.len() == 5
            &&& env[0] == ("PATH"@, rootfs + "/usr/bin:"@ + rootfs + "/bin"@)
            &&& env[1] == ("LD_LIBRARY_PATH"@, rootfs + "/lib:"@ + rootfs + "/lib64"@)
            &&& env[2] == ("HOME"@, rootfs + "/root"@)
            &&& env[3] == ("TERM"@, "xterm-256color"@)
            &&& wayland is Some ==> env[4] == ("WAYLAND_DISPLAY"@, wayland->0)
            &&& wayland is None ==> env[4] == ("WAYLAND_DISPLAY"@, "little-wayland"@)
        }),
{
}

} // verus!
