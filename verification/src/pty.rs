//! Terminal sessions: which are open, and what each is started with.
use std::collections::HashMap;
use vstd::prelude::*;
#[allow(unused_imports)]
use vstd::std_specs::iter::IteratorSpec;

use crate::bytes::part;
use crate::error::Error;
use crate::intercept::FALLBACK_LIB;
use crate::text::{add_text, add_texts, chars_of, number};
#[allow(unused_imports)]
use crate::text::{number_text, str_opt, texts};

verus! {

/// The shell where the given name cannot be handed to the kernel.
pub const DEFAULT_SHELL: &'static str = "/system/bin/sh";

/// An open terminal: the descriptor of its master side, and the shell that runs in it.
#[derive(Clone, Copy)]
pub struct Session {
    pub pty_master: i32,
    pub child_pid: i32,
}

/// What a session's shell is started with.
pub struct SessionPlan {
    pub id: u32,
    pub shell: String,
    /// The arguments that follow the shell's name.
    pub args: Vec<String>,
    pub env: Vec<String>,
}

/// Bytes for a terminal.
pub struct Input {
    pub fd: i32,
    pub data: Vec<u8>,
}

/// A new size for a terminal, in characters and in pixels.
pub struct Resize {
    pub fd: i32,
    pub ws_row: u16,
    pub ws_col: u16,
    pub ws_xpixel: u16,
    pub ws_ypixel: u16,
}

/// The sessions that are open, by number.
pub struct Manager {
    pub sessions: HashMap<u32, Session>,
    pub next_id: u32,
}

/// The intercept library of a root filesystem.
pub open spec fn hook_path(rootfs: Seq<char>) -> Seq<char> {
    rootfs + "/lib/libintercept.so"@
}

/// The variables of every session.
pub open spec fn common_env(wayland: Option<Seq<char>>) -> Seq<Seq<char>> {
    seq![
        "TERM=xterm-256color"@,
        "PS1=$ "@,
        "WAYLAND_DISPLAY="@ + (match wayland {
            Some(w) => w,
            None => Seq::empty(),
        }),
    ]
}

/// The variables of a session outside any root filesystem.
pub open spec fn host_env() -> Seq<Seq<char>> {
    seq![
        "PATH=/sbin:/system/bin:/system/xbin:/data/data/com.littlelinuxrunner/files/rootfs/usr/bin:/data/data/com.littlelinuxrunner/files/rootfs/bin"@,
        "HOME=/data/data/com.littlelinuxrunner"@,
    ]
}

/// The variables of a session inside a root filesystem.
pub open spec fn guest_env(rootfs: Seq<char>) -> Seq<Seq<char>> {
    seq![
        "HOME="@ + rootfs + "/root"@,
        "PATH="@ + rootfs + "/usr/bin:"@ + rootfs + "/bin:/system/bin:/system/xbin"@,
        "LD_LIBRARY_PATH="@ + rootfs + "/lib:"@ + rootfs + "/lib64:/system/lib64:/system/lib"@,
        "LITTLE_ROOTFS="@ + rootfs,
    ]
}

/// The variable that loads the hooks, where a library was found.
pub open spec fn preload_env(rootfs: Seq<char>, has_hook: bool, has_fallback: bool) -> Seq<Seq<char>> {
    if has_hook {
        seq!["LD_PRELOAD="@ + hook_path(rootfs)]
    } else if has_fallback {
        seq!["LD_PRELOAD="@ + FALLBACK_LIB@]
    } else {
        Seq::empty()
    }
}

/// The environment of a session.
pub open spec fn session_env(
    rootfs: Seq<char>,
    wayland: Option<Seq<char>>,
    has_hook: bool,
    has_fallback: bool,
) -> Seq<Seq<char>> {
    if rootfs.len() == 0 {
        common_env(wayland) + host_env()
    } else {
        common_env(wayland) + guest_env(rootfs) + preload_env(rootfs, has_hook, has_fallback)
    }
}

/// The error for a session that is not open.
pub open spec fn not_found(id: u32) -> Seq<char> {
    "Session "@ + number_text(id as nat) + " not found"@
}

/// The path at which the intercept library of a root filesystem is looked for.
pub fn preload_path(rootfs: &str) -> (r: String)
    ensures
        r@ == hook_path(rootfs@),
{
    add_text(rootfs, "/lib/libintercept.so")
}

fn missing(id: u32) -> (r: Error)
    ensures
        r matches Error::Pty(m) && m@ == not_found(id),
{
    Error::Pty(add_texts("Session ", number(id).as_str(), " not found"))
}

impl Manager {
    /// Numbers start at one, and every open session has one that was given out.
    pub open spec fn wf(&self) -> bool {
        &&& self.next_id >= 1
        &&& forall|id: u32| #[trigger]
            self.sessions@.contains_key(id) ==> 1 <= id < self.next_id
    }

    /// No session is open.
    pub fn new() -> (r: Result<Manager, Error>)
        ensures
            r matches Ok(m) && m.wf() && m.next_id == 1 && m.sessions@ == Map::<
                u32,
                Session,
            >::empty(),
    {
        Ok(Manager { sessions: HashMap::new(), next_id: 1 })
    }

    /// The environment of a session, given the value of `WAYLAND_DISPLAY` and whether the intercept
    /// library of the root filesystem and the fallback exist.
    pub fn build_envp(
        rootfs: &str,
        wayland: Option<&str>,
        has_hook: bool,
        has_fallback: bool,
    ) -> (r: Vec<String>)
        requires
            !rootfs@.contains('\0'),
            wayland matches Some(w) ==> !w@.contains('\0'),
        ensures
            texts(r@) == session_env(rootfs@, str_opt(wayland), has_hook, has_fallback),
    {
        let mut env: Vec<String> = Vec::new();
        let display = match wayland {
            Some(w) => w.to_owned(),
            None => String::new(),
        };
        proof {
            if wayland is None {
                assert(display@ =~= Seq::empty());
            }
        }
        env.push("TERM=xterm-256color".to_owned());
        env.push("PS1=$ ".to_owned());
        env.push(add_text("WAYLAND_DISPLAY=", display.as_str()));
        proof {
            assert(texts(env@) =~= common_env(str_opt(wayland)));
        }
        if rootfs.is_empty() {
            env.push(
                "PATH=/sbin:/system/bin:/system/xbin:/data/data/com.littlelinuxrunner/files/rootfs/usr/bin:/data/data/com.littlelinuxrunner/files/rootfs/bin".to_owned(),
            );
            env.push("HOME=/data/data/com.littlelinuxrunner".to_owned());
            proof {
                assert(texts(env@) =~= common_env(str_opt(wayland)) + host_env());
            }
            return env;
        }
        let home = add_texts("HOME=", rootfs, "/root");
        let bin = add_text(add_texts("PATH=", rootfs, "/usr/bin:").as_str(), rootfs);
        let lib = add_text(add_texts("LD_LIBRARY_PATH=", rootfs, "/lib:").as_str(), rootfs);
        env.push(home);
        env.push(add_text(bin.as_str(), "/bin:/system/bin:/system/xbin"));
        env.push(add_text(lib.as_str(), "/lib64:/system/lib64:/system/lib"));
        env.push(add_text("LITTLE_ROOTFS=", rootfs));
        proof {
            assert(texts(env@) =~= common_env(str_opt(wayland)) + guest_env(rootfs@));
        }
        if has_hook {
            env.push(add_text("LD_PRELOAD=", preload_path(rootfs).as_str()));
        } else if has_fallback {
            env.push(add_text("LD_PRELOAD=", FALLBACK_LIB));
        }
        proof {
            assert(texts(env@) =~= common_env(str_opt(wayland)) + guest_env(rootfs@) + preload_env(
                rootfs@,
                has_hook,
                has_fallback,
            ));
        }
        env
    }

    /// Takes the next number for a session and says what its shell is started with. The number is used
    /// up whether or not the terminal can be opened.
    pub fn create_session(
        &mut self,
        shell: &str,
        rootfs: &str,
        wayland: Option<&str>,
        has_hook: bool,
        has_fallback: bool,
    ) -> (r: SessionPlan)
        requires
            old(self).wf(),
            old(self).next_id < u32::MAX,
            !rootfs@.contains('\0'),
            wayland matches Some(w) ==> !w@.contains('\0'),
        ensures
            r.id == old(self).next_id,
            r.shell@ == (if shell@.contains('\0') {
                DEFAULT_SHELL@
            } else {
                shell@
            }),
            texts(r.args@) == seq!["-i"@],
            texts(r.env@) == session_env(rootfs@, str_opt(wayland), has_hook, has_fallback),
            final(self).next_id == old(self).next_id + 1,
            final(self).sessions == old(self).sessions,
            final(self).wf(),
            !final(self).sessions@.contains_key(r.id),
    {
        let id: u32 = self.next_id;
        self.next_id = id + 1;
        let name = if has_zero(shell) {
            DEFAULT_SHELL.to_owned()
        } else {
            shell.to_owned()
        };
        let mut args: Vec<String> = Vec::new();
        args.push("-i".to_owned());
        proof {
            assert(texts(args@) =~= seq!["-i"@]);
        }
        let env = Manager::build_envp(rootfs, wayland, has_hook, has_fallback);
        SessionPlan { id, shell: name, args, env }
    }

    /// What comes of a session that was asked for: its number once its terminal is open, or why it could
    /// not be opened.
    pub fn finish_session(&mut self, id: u32, opened: Result<Session, Error>) -> (r: Result<
        u32,
        Error,
    >)
        requires
            old(self).wf(),
            1 <= id < old(self).next_id,
        ensures
            opened matches Ok(session) ==> r == Ok::<u32, Error>(id) && final(self).sessions@
                == old(self).sessions@.insert(id, session),
            opened matches Err(e) ==> r == Err::<u32, Error>(e) && final(self).sessions@ == old(
                self,
            ).sessions@,
            final(self).next_id == old(self).next_id,
            final(self).wf(),
    {
        broadcast use vstd::std_specs::hash::group_hash_axioms;

        match opened {
            Ok(session) => {
                self.sessions.insert(id, session);
                Ok(id)
            },
            Err(e) => Err(e),
        }
    }

    /// Where the bytes for a session go.
    pub fn write_input(&self, session_id: u32, data: &[u8]) -> (r: Result<Input, Error>)
        ensures
            self.sessions@.contains_key(session_id) ==> (r matches Ok(i) && i.fd
                == self.sessions@[session_id].pty_master && i.data@ == data@),
            !self.sessions@.contains_key(session_id) ==> (r matches Err(Error::Pty(m)) && m@
                == not_found(session_id)),
    {
        broadcast use vstd::std_specs::hash::group_hash_axioms;

        proof {
            assert(data@.subrange(0, data@.len() as int) =~= data@);
        }
        match self.sessions.get(&session_id) {
            Some(session) => Ok(Input { fd: session.pty_master, data: part(data, 0, data.len()) }),
            None => Err(missing(session_id)),
        }
    }

    /// The size that a session's terminal is set to.
    pub fn resize(&self, session_id: u32, cols: u16, rows: u16) -> (r: Result<Resize, Error>)
        ensures
            self.sessions@.contains_key(session_id) ==> r == Ok::<Resize, Error>(
                (Resize {
                    fd: self.sessions@[session_id].pty_master,
                    ws_row: rows,
                    ws_col: cols,
                    ws_xpixel: 0,
                    ws_ypixel: 0,
                }),
            ),
            !self.sessions@.contains_key(session_id) ==> (r matches Err(Error::Pty(m)) && m@
                == not_found(session_id)),
    {
        broadcast use vstd::std_specs::hash::group_hash_axioms;

        match self.sessions.get(&session_id) {
            Some(session) => Ok(
                Resize {
                    fd: session.pty_master,
                    ws_row: rows,
                    ws_col: cols,
                    ws_xpixel: 0,
                    ws_ypixel: 0,
                },
            ),
            None => Err(missing(session_id)),
        }
    }

    /// The descriptor of a session, of which the caller gets a duplicate.
    pub fn get_session_fd(&self, session_id: u32) -> (r: Option<i32>)
        ensures
            r == (if self.sessions@.contains_key(session_id) {
                Some(self.sessions@[session_id].pty_master)
            } else {
                None
            }),
    {
        broadcast use vstd::std_specs::hash::group_hash_axioms;

        match self.sessions.get(&session_id) {
            Some(session) => Some(session.pty_master),
            None => None,
        }
    }

    /// Closes a session: what was open, so that its shell can be ended and its terminal closed.
    pub fn close_session(&mut self, session_id: u32) -> (r: Option<Session>)
        requires
            old(self).wf(),
        ensures
            r == (if old(self).sessions@.contains_key(session_id) {
                Some(old(self).sessions@[session_id])
            } else {
                None
            }),
            final(self).sessions@ == old(self).sessions@.remove(session_id),
            final(self).next_id == old(self).next_id,
            final(self).wf(),
    {
        broadcast use vstd::std_specs::hash::group_hash_axioms;

        self.sessions.remove(&session_id)
    }

    /// The numbers of the open sessions, each once.
    pub fn session_ids(&self) -> (r: Vec<u32>)
        ensures
            r@.no_duplicates(),
            r@.to_set() == self.sessions@.dom(),
    {
        broadcast use vstd::std_specs::hash::group_hash_axioms;

        let ghost all = vstd::std_specs::hash::spec_keys_iter(&self.sessions).remaining().unref();
        let mut out: Vec<u32> = Vec::new();
        for id in it: self.sessions.keys()
            invariant
                it.seq().unref() == all,
                out@ == all.take(it.index()),
        {
            out.push(*id);
        }
        proof {
            assert(out@ =~= all);
        }
        out
    }

    /// Closes every session: what was open under each number.
    pub fn close_all(&mut self) -> (r: Vec<(u32, Session)>)
        requires
            old(self).wf(),
        ensures
            r@.map_values(|p: (u32, Session)| p.0).no_duplicates(),
            r@.map_values(|p: (u32, Session)| p.0).to_set() == old(self).sessions@.dom(),
            forall|i: int|
                0 <= i < r@.len() ==> (#[trigger] r@[i]).1 == old(self).sessions@[r@[i].0],
            final(self).sessions@ == Map::<u32, Session>::empty(),
            final(self).next_id == old(self).next_id,
            final(self).wf(),
    {
        let ids = self.session_ids();
        let ghost open = self.sessions@;
        let mut out: Vec<(u32, Session)> = Vec::new();
        let mut i: usize = 0;
        while i < ids.len()
            invariant
                i <= ids@.len(),
                self.wf(),
                self.next_id == old(self).next_id,
                open == old(self).sessions@,
                ids@.no_duplicates(),
                ids@.to_set() == open.dom(),
                self.sessions@ == open.remove_keys(ids@.take(i as int).to_set()),
                out@.map_values(|p: (u32, Session)| p.0) == ids@.take(i as int),
                forall|j: int| 0 <= j < out@.len() ==> (#[trigger] out@[j]).1 == open[out@[j].0],
            decreases ids.len() - i,
        {
            let id: u32 = ids[i];
            let ghost gone = ids@.take(i as int);
            let ghost done = out@;
            proof {
                assert(ids@.to_set().contains(id));
                assert(!gone.to_set().contains(id)) by {
                    if gone.contains(id) {
                        let k = choose|k: int| 0 <= k < gone.len() && gone[k] == id;
                        assert(ids@[k] == ids@[i as int]);
                    }
                }
                assert(self.sessions@.contains_key(id));
                assert(ids@.take(i + 1) =~= gone.push(id));
            }
            if let Some(session) = self.close_session(id) {
                out.push((id, session));
            }
            proof {
                assert(out@.map_values(|p: (u32, Session)| p.0) =~= gone.push(id));
                assert forall|k: u32| gone.push(id).to_set().contains(k) == (gone.to_set().contains(k)
                    || k == id) by {
                    if gone.contains(k) {
                        let n = choose|n: int| 0 <= n < gone.len() && gone[n] == k;
                        assert(gone.push(id)[n] == k);
                    }
                    if k == id {
                        assert(gone.push(id)[gone.len() as int] == k);
                    }
                }
                assert(self.sessions@ =~= open.remove_keys(gone.push(id).to_set()));
            }
            i += 1;
        }
        proof {
            assert(ids@.take(ids@.len() as int) =~= ids@);
            assert(self.sessions@ =~= Map::<u32, Session>::empty());
        }
        out
    }
}

/// A number is given out once: the next session gets one that no open session has and that none had
/// before it, whatever was closed in between.
pub proof fn law_fresh_ids(before: Manager, after: Manager, first: u32, second: u32)
    requires
        before.wf(),
        after.wf(),
        first < before.next_id,
        before.next_id <= after.next_id,
        second == after.next_id,
    ensures
        first != second,
        !after.sessions@.contains_key(second),
{
}

/// What was opened is what is found under its number, until it is closed; other sessions keep theirs.
pub proof fn law_open_find_close(sessions: Map<u32, Session>, id: u32, session: Session, other: u32)
    requires
        other != id,
    ensures
        sessions.insert(id, session).contains_key(id),
        sessions.insert(id, session)[id] == session,
        !sessions.insert(id, session).remove(id).contains_key(id),
        sessions.insert(id, session).contains_key(other) == sessions.contains_key(other),
        sessions.contains_key(other) ==> sessions.insert(id, session)[other] == sessions[other],
        !sessions.contains_key(id) ==> sessions.insert(id, session).remove(id) == sessions,
{
    if !sessions.contains_key(id) {
        assert(sessions.insert(id, session).remove(id) =~= sessions);
    }
}

fn has_zero(s: &str) -> (r: bool)
    ensures
        r == s@.contains('\0'),
{
    let all = chars_of(s);
    let mut i: usize = 0;
    while i < all.len()
        invariant
            i <= all@.len(),
            all@ == s@,
            forall|j: int| 0 <= j < i ==> s@[j] != '\0',
        decreases all.len() - i,
    {
        if all[i] == '\0' {
            assert(s@[i as int] == '\0');
            return true;
        }
        i += 1;
    }
    false
}

/// A session without a root filesystem has five variables, none of which loads a library. A session in a root
/// filesystem has its home, its search paths and the root filesystem itself set to it; the library of the
/// root filesystem is loaded where there is one, else the fallback where there is that, and else none.
pub proof fn law_session_environment(
    rootfs: Seq<char>,
    wayland: Option<Seq<char>>,
    has_hook: bool,
    has_fallback: bool,
)
    ensures
        ({
            let env = session_env(rootfs, wayland, has_hook, has_fallback);
            &&& env[0] == "TERM=xterm-256color"@
            &&& env[1] == "PS1=$ "@
            &&& wayland is Some ==> env[2] == "WAYLAND_DISPLAY="@ + wayland->0
            &&& wayland is None ==> env[2] == "WAYLAND_DISPLAY="@
            &&& rootfs.len() == 0 ==> {
                &&& env.len() == 5
                &&& env[3]
                    == "PATH=/sbin:/system/bin:/system/xbin:/data/data/com.littlelinuxrunner/files/rootfs/usr/bin:/data/data/com.littlelinuxrunner/files/rootfs/bin"@
                &&& env[4] == "HOME=/data/data/com.littlelinuxrunner"@
            }
            &&& rootfs.len() > 0 ==> {
                &&& env[3] == "HOME="@ + rootfs + "/root"@
                &&& env[4] == "PATH="@ + rootfs + "/usr/bin:"@ + rootfs
                    + "/bin:/system/bin:/system/xbin"@
                &&& env[5] == "LD_LIBRARY_PATH="@ + rootfs + "/lib:"@ + rootfs
                    + "/lib64:/system/lib64:/system/lib"@
                &&& env[6] == "LITTLE_ROOTFS="@ + rootfs
                &&& has_hook ==> env.len() == 8 && env[7] == "LD_PRELOAD="@ + (rootfs
                    + "/lib/libintercept.so"@)
                &&& !has_hook && has_fallback ==> env.len() == 8 && env[7] == "LD_PRELOAD="@
                    + "/data/data/com.littlelinuxrunner/lib/libintercept.so"@
                &&& !has_hook && !has_fallback ==> env.len() == 7
            }
        }),
{
    assert("WAYLAND_DISPLAY="@ + Seq::<char>::empty() =~= "WAYLAND_DISPLAY="@);
}

/// A session that is not open is named by its number.
pub proof fn law_missing_session(id: u32)
    ensures
        ({
            let head = "Session "@;
            let tail = " not found"@;
            let text = not_found(id);
            let digits = text.subrange(head.len() as int, text.len() - tail.len());
            &&& text == head + digits + tail
            &&& crate::text::number_value(digits) == id
        }),
{
    crate::text::law_number_text(id as nat);
    let head = "Session "@;
    let tail = " not found"@;
    let text = not_found(id);
    assert(text.subrange(head.len() as int, text.len() - tail.len()) =~= number_text(id as nat));
}

} // verus!
