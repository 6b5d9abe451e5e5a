//! lroot: the rules by which a program is run inside an alternate root filesystem.
use vstd::prelude::*;

use error::Error;
use pty::{Input, Resize, Session, SessionPlan};
#[allow(unused_imports)]
use text::{str_opt, texts};

pub mod archive;
pub mod bytes;
pub mod call;
pub mod cli;
pub mod config;
pub mod distro;
pub mod elf;
pub mod error;
pub mod exec;
pub mod handover;
pub mod hooks;
pub mod identity;
pub mod intercept;
pub mod launch;
pub mod manage;
pub mod path;
pub mod procfs;
pub mod pty;
pub mod text;
pub mod tracer;
pub mod translate;
pub mod variant;
pub mod wait;

verus! {

/// The time between two looks at whether the runner is to end, in milliseconds.
pub const POLL_MILLIS: u64 = 100;

/// The runner: the root filesystem that was chosen, and the parts that are up.
pub struct App {
    pub running: bool,
    pub intercept_manager: Option<intercept::Manager>,
    pub pty_manager: Option<pty::Manager>,
    pub rootfs_path: String,
}

impl App {
    /// The parts that are up are well formed.
    pub open spec fn wf(&self) -> bool {
        &&& self.intercept_manager matches Some(m) ==> m.wf()
        &&& self.pty_manager matches Some(m) ==> m.wf()
    }

    /// A runner that runs, with nothing up and no root filesystem chosen.
    pub fn new() -> (r: App)
        ensures
            r.running,
            r.intercept_manager is None,
            r.pty_manager is None,
            r.rootfs_path@ == Seq::<char>::empty(),
            r.wf(),
    {
        let r = App {
            running: true,
            intercept_manager: None,
            pty_manager: None,
            rootfs_path: String::new(),
        };
        proof {
            assert(r.rootfs_path@ =~= Seq::<char>::empty());
        }
        r
    }

    /// Brings the parts up on the chosen root filesystem. Sessions of an earlier start end with it: they
    /// are handed back so that their shells can be ended.
    pub fn start(&mut self) -> (r: Result<Vec<(u32, Session)>, Error>)
        requires
            old(self).wf(),
        ensures
            r matches Ok(ended) && (match old(self).pty_manager {
                Some(m) => ended@.map_values(|p: (u32, Session)| p.0).to_set() == m.sessions@.dom()
                    && ended@.map_values(|p: (u32, Session)| p.0).no_duplicates() && forall|i: int|
                    0 <= i < ended@.len() ==> (#[trigger] ended@[i]).1 == m.sessions@[ended@[i].0],
                None => ended@.len() == 0,
            }),
            final(self).intercept_manager matches Some(m) && !m.preload_enabled && m.rootfs@ == (
            if old(self).rootfs_path@.len() == 0 {
                intercept::DEFAULT_ROOTFS@
            } else {
                old(self).rootfs_path@
            }),
            final(self).pty_manager matches Some(m) && m.next_id == 1 && m.sessions@ == Map::<
                u32,
                Session,
            >::empty(),
            final(self).running == old(self).running,
            final(self).rootfs_path@ == old(self).rootfs_path@,
            final(self).wf(),
    {
        let mut ended: Vec<(u32, Session)> = Vec::new();
        if let Some(m) = &mut self.pty_manager {
            ended = m.close_all();
        }
        self.intercept_manager = Some(intercept::Manager::new(self.rootfs_path.as_str())?);
        self.pty_manager = Some(pty::Manager::new()?);
        Ok(ended)
    }

    /// One look of the runner's loop: the status to exit with, or none where it is to go on.
    pub fn run(&self) -> (r: Option<i32>)
        ensures
            r == (if self.running {
                None
            } else {
                Some(0i32)
            }),
    {
        if self.running {
            None
        } else {
            Some(0)
        }
    }

    /// Asks the runner's loop to end.
    pub fn shutdown(&mut self)
        ensures
            *final(self) == (App { running: false, ..*old(self) }),
    {
        self.running = false;
    }

    /// Chooses the root filesystem for the next start.
    pub fn set_rootfs_path(&mut self, path: &str)
        ensures
            final(self).rootfs_path@ == path@,
            final(self).running == old(self).running,
            final(self).intercept_manager == old(self).intercept_manager,
            final(self).pty_manager == old(self).pty_manager,
    {
        self.rootfs_path = path.to_owned();
    }

    /// The root filesystem that was chosen.
    pub fn rootfs_path(&self) -> (r: &str)
        ensures
            r@ == self.rootfs_path@,
    {
        self.rootfs_path.as_str()
    }

    /// Takes the next number for a session of the chosen root filesystem and says what its shell is
    /// started with, as [`pty::Manager::create_session`] does.
    pub fn create_pty_session(
        &mut self,
        shell: &str,
        wayland: Option<&str>,
        has_hook: bool,
        has_fallback: bool,
    ) -> (r: Result<SessionPlan, Error>)
        requires
            old(self).wf(),
            old(self).pty_manager matches Some(m) ==> m.next_id < u32::MAX
                && !old(self).rootfs_path@.contains('\0'),
            old(self).pty_manager is Some && wayland is Some ==> !wayland->0@.contains('\0'),
        ensures
            old(self).pty_manager is None ==> is_not_up(r) && *final(self) == *old(self),
            old(self).pty_manager matches Some(m) ==> {
                &&& r matches Ok(plan)
                &&& plan.id == m.next_id
                &&& plan.shell@ == (if shell@.contains('\0') {
                    pty::DEFAULT_SHELL@
                } else {
                    shell@
                })
                &&& texts(plan.args@) == seq!["-i"@]
                &&& texts(plan.env@) == pty::session_env(
                    old(self).rootfs_path@,
                    str_opt(wayland),
                    has_hook,
                    has_fallback,
                )
                &&& final(self).pty_manager matches Some(n) && n.next_id == m.next_id + 1
                    && n.sessions == m.sessions
            },
            final(self).running == old(self).running,
            final(self).rootfs_path == old(self).rootfs_path,
            final(self).intercept_manager == old(self).intercept_manager,
            final(self).wf(),
    {
        match &mut self.pty_manager {
            Some(m) => Ok(
                m.create_session(shell, self.rootfs_path.as_str(), wayland, has_hook, has_fallback),
            ),
            None => Err(not_up()),
        }
    }

    /// What comes of a session that was asked for, as [`pty::Manager::finish_session`] says it.
    pub fn finish_pty_session(&mut self, id: u32, opened: Result<Session, Error>) -> (r: Result<
        u32,
        Error,
    >)
        requires
            old(self).wf(),
            old(self).pty_manager matches Some(m) ==> 1 <= id < m.next_id,
        ensures
            old(self).pty_manager is None ==> is_not_up(r) && *final(self) == *old(self),
            old(self).pty_manager matches Some(m) ==> {
                &&& final(self).pty_manager matches Some(n) && n.next_id == m.next_id && n.sessions@
                    == (match opened {
                    Ok(session) => m.sessions@.insert(id, session),
                    Err(_) => m.sessions@,
                })
                &&& r == (match opened {
                    Ok(_) => Ok::<u32, Error>(id),
                    Err(e) => Err::<u32, Error>(e),
                })
            },
            final(self).running == old(self).running,
            final(self).rootfs_path == old(self).rootfs_path,
            final(self).intercept_manager == old(self).intercept_manager,
            final(self).wf(),
    {
        match &mut self.pty_manager {
            Some(m) => m.finish_session(id, opened),
            None => Err(not_up()),
        }
    }

    /// The descriptor of a session, of which the caller gets a duplicate.
    pub fn get_session_fd(&self, session_id: u32) -> (r: Option<i32>)
        ensures
            r == (match self.pty_manager {
                Some(m) if m.sessions@.contains_key(session_id) => Some(
                    m.sessions@[session_id].pty_master,
                ),
                _ => None,
            }),
    {
        match &self.pty_manager {
            Some(m) => m.get_session_fd(session_id),
            None => None,
        }
    }

    /// Where the bytes for a session go.
    pub fn write_pty(&self, session_id: u32, data: &[u8]) -> (r: Result<Input, Error>)
        ensures
            self.pty_manager is None ==> is_not_up(r),
            self.pty_manager matches Some(m) ==> (if m.sessions@.contains_key(session_id) {
                r matches Ok(i) && i.fd == m.sessions@[session_id].pty_master && i.data@ == data@
            } else {
                r matches Err(Error::Pty(t)) && t@ == pty::not_found(session_id)
            }),
    {
        match &self.pty_manager {
            Some(m) => m.write_input(session_id, data),
            None => Err(not_up()),
        }
    }

    /// The size that a session's terminal is set to.
    pub fn resize_pty(&self, session_id: u32, cols: u16, rows: u16) -> (r: Result<Resize, Error>)
        ensures
            self.pty_manager is None ==> is_not_up(r),
            self.pty_manager matches Some(m) ==> (if m.sessions@.contains_key(session_id) {
                r == Ok::<Resize, Error>(
                    (Resize {
                        fd: m.sessions@[session_id].pty_master,
                        ws_row: rows,
                        ws_col: cols,
                        ws_xpixel: 0,
                        ws_ypixel: 0,
                    }),
                )
            } else {
                r matches Err(Error::Pty(t)) && t@ == pty::not_found(session_id)
            }),
    {
        match &self.pty_manager {
            Some(m) => m.resize(session_id, cols, rows),
            None => Err(not_up()),
        }
    }
}

/// Whether a request was refused because the sessions are not up.
pub open spec fn is_not_up<T>(r: Result<T, Error>) -> bool {
    r matches Err(Error::InvalidState(m)) && m@ == "PTY manager not initialized"@
}

fn not_up() -> (r: Error)
    ensures
        r matches Error::InvalidState(m) && m@ == "PTY manager not initialized"@,
{
    Error::InvalidState("PTY manager not initialized".to_owned())
}

} // verus!
