//! The tracer: it translates the path arguments of a program that the intercept library does not reach.
//!
//! At each system call that the program enters, a `Stop` decides step by step what to ask of the traced
//! process: every step takes the answer to the last question and gives the next one.
use vstd::prelude::*;

use crate::bytes::{append, part};
#[allow(unused_imports)]
use crate::bytes::{before, contents_opt, decimal, lit};
use crate::call::AT_FDCWD;
use crate::config::Config;
#[allow(unused_imports)]
use crate::config::Settings;
use crate::procfs::read_cstring;
use crate::translate::{translate, PATH_LIMIT};
#[allow(unused_imports)]
use crate::translate::translated;

verus! {

/// The most memory that one path takes below the stack of the traced process.
pub const SCRATCH_LIMIT: u64 = 4096;

/// The registers of a traced process that matter at a system call.
#[derive(Clone, Copy, PartialEq, Eq, Structural)]
pub struct Regs {
    pub sysno: i64,
    pub a0: u64,
    pub a1: u64,
    pub a2: u64,
    pub a3: u64,
    pub a4: u64,
    pub a5: u64,
    pub sp: u64,
}

impl Regs {
    /// An argument of the system call; there are six.
    pub open spec fn arg(self, n: int) -> u64 {
        if n == 0 {
            self.a0
        } else if n == 1 {
            self.a1
        } else if n == 2 {
            self.a2
        } else if n == 3 {
            self.a3
        } else if n == 4 {
            self.a4
        } else if n == 5 {
            self.a5
        } else {
            0
        }
    }

    /// The registers with another argument; where there is no such argument nothing changes.
    pub open spec fn with_arg(self, n: int, val: u64) -> Regs {
        if n == 0 {
            Regs { a0: val, ..self }
        } else if n == 1 {
            Regs { a1: val, ..self }
        } else if n == 2 {
            Regs { a2: val, ..self }
        } else if n == 3 {
            Regs { a3: val, ..self }
        } else if n == 4 {
            Regs { a4: val, ..self }
        } else if n == 5 {
            Regs { a5: val, ..self }
        } else {
            self
        }
    }
}

/// The number of the system call.
pub fn ptrace_syscall_no(regs: &Regs) -> (r: i64)
    ensures
        r == regs.sysno,
{
    regs.sysno
}

/// An argument of the system call.
pub fn ptrace_arg(regs: &Regs, n: usize) -> (r: u64)
    ensures
        r == regs.arg(n as int),
{
    match n {
        0 => regs.a0,
        1 => regs.a1,
        2 => regs.a2,
        3 => regs.a3,
        4 => regs.a4,
        5 => regs.a5,
        _ => 0,
    }
}

/// Changes an argument of the system call.
pub fn ptrace_set_arg(regs: &mut Regs, n: usize, val: u64)
    ensures
        *final(regs) == old(regs).with_arg(n as int, val),
{
    match n {
        0 => regs.a0 = val,
        1 => regs.a1 = val,
        2 => regs.a2 = val,
        3 => regs.a3 = val,
        4 => regs.a4 = val,
        5 => regs.a5 = val,
        _ => {},
    }
}

/// The stack pointer.
pub fn ptrace_sp(regs: &Regs) -> (r: u64)
    ensures
        r == regs.sp,
{
    regs.sp
}

/// A process number as it stands in a path below `/proc`; a negative one leaves no digits.
pub open spec fn pid_digits(pid: i32) -> Seq<u8> {
    if pid >= 0 {
        decimal(pid as nat)
    } else {
        Seq::empty()
    }
}

/// A file descriptor as it stands in a path below `/proc`.
pub open spec fn fd_digits(fd: i32) -> Seq<u8> {
    if fd >= 0 {
        decimal(fd as nat)
    } else {
        seq![0x2d] + decimal((-fd) as nat)
    }
}

fn digits(n: u32) -> (r: Vec<u8>)
    ensures
        r@ == decimal(n as nat),
    decreases n,
{
    if n < 10 {
        let mut out: Vec<u8> = Vec::new();
        out.push(0x30 + n as u8);
        proof {
            assert(out@ =~= decimal(n as nat));
        }
        out
    } else {
        let mut out = digits(n / 10);
        out.push(0x30 + (n % 10) as u8);
        out
    }
}

fn pid_text(pid: i32) -> (r: Vec<u8>)
    ensures
        r@ == pid_digits(pid),
{
    if pid >= 0 {
        digits(pid as u32)
    } else {
        Vec::new()
    }
}

/// The file through which the memory of a process is read and written.
pub fn mem_path(pid: i32) -> (r: Vec<u8>)
    ensures
        r@ == lit("/proc/") + pid_digits(pid) + lit("/mem"),
{
    let mut out = vstd::slice::slice_to_vec("/proc/".as_bytes());
    let number = pid_text(pid);
    append(&mut out, number.as_slice());
    append(&mut out, "/mem".as_bytes());
    out
}

/// The link that shows where a file descriptor of a process leads.
pub fn fd_link_path(pid: i32, fd: i32) -> (r: Vec<u8>)
    requires
        fd > i32::MIN,
    ensures
        r@ == lit("/proc/") + pid_digits(pid) + lit("/fd/") + fd_digits(fd),
{
    let mut out = vstd::slice::slice_to_vec("/proc/".as_bytes());
    let number = pid_text(pid);
    append(&mut out, number.as_slice());
    append(&mut out, "/fd/".as_bytes());
    let mut shown: Vec<u8> = Vec::new();
    if fd < 0 {
        shown.push(0x2d);
        let tail = digits((-fd) as u32);
        append(&mut shown, tail.as_slice());
        proof {
            assert(shown@ =~= fd_digits(fd));
        }
    } else {
        shown = digits(fd as u32);
    }
    append(&mut out, shown.as_slice());
    out
}

/// The text in a piece of memory of which `n` bytes could be read: it ends at the first zero byte.
pub fn tracee_read_string(buf: &[u8], n: i64) -> (r: Option<Vec<u8>>)
    requires
        n <= buf@.len(),
    ensures
        contents_opt(r) == (if n <= 0 {
            None
        } else {
            Some(before(buf@.take(n as int), 0))
        }),
{
    if n <= 0 {
        return None;
    }
    proof {
        assert(buf.len() == buf@.len());
    }
    let got = vstd::slice::slice_subrange(buf, 0, n as usize);
    proof {
        assert(got@ =~= buf@.take(n as int));
    }
    Some(read_cstring(got))
}

/// The machine that a traced program runs on.
#[derive(Clone, Copy, PartialEq, Eq, Structural)]
pub enum Arch {
    Aarch64,
    X86_64,
    X86,
}

/// What a system call does with paths.
#[derive(Clone, Copy, PartialEq, Eq, Structural)]
pub enum Kind {
    /// It runs the program at its first argument.
    Exec,
    /// It runs the program at its second argument, from the directory at its first.
    ExecAt,
    /// It uses the path at its second argument, from the directory at its first.
    At,
    /// It uses the path at its first argument.
    First,
    /// It uses the path at its second argument.
    Second,
    /// It uses the path at its third argument.
    Third,
    /// It uses the paths at its second and fourth argument, from the directories in front of them.
    Both,
    /// It uses the paths at its first and second argument.
    Pair,
    /// It uses no path that is translated.
    Other,
}

/// What a system call does with paths, by its number on 64-bit ARM.
pub open spec fn arm64_kind(sysno: i64) -> Kind {
    if sysno == 221 {
        Kind::Exec
    } else if sysno == 281 {
        Kind::ExecAt
    } else if sysno == 34 || sysno == 35 || sysno == 48 || sysno == 53 || sysno == 54
        || sysno == 56 || sysno == 78 || sysno == 79 || sysno == 88
        || sysno == 291 || sysno == 437 || sysno == 439 || sysno == 452 {
        Kind::At
    } else if sysno == 8 || sysno == 9 || sysno == 11 || sysno == 12 || sysno == 39
        || sysno == 43 || sysno == 45 || sysno == 49 {
        Kind::First
    } else if sysno == 40 {
        Kind::Second
    } else if sysno == 36 {
        Kind::Third
    } else if sysno == 37 || sysno == 38 || sysno == 276 {
        Kind::Both
    } else {
        Kind::Other
    }
}

/// What a system call does with paths, by its number on 64-bit x86.
pub open spec fn x86_64_kind(sysno: i64) -> Kind {
    if sysno == 59 {
        Kind::Exec
    } else if sysno == 322 {
        Kind::ExecAt
    } else if sysno == 257 || sysno == 258 || sysno == 260 || sysno == 261 || sysno == 262
        || sysno == 263 || sysno == 267 || sysno == 268 || sysno == 269
        || sysno == 280 || sysno == 332 || sysno == 437 || sysno == 439
        || sysno == 452 {
        Kind::At
    } else if sysno == 2 || sysno == 4 || sysno == 6 || sysno == 21 || sysno == 76
        || sysno == 80 || sysno == 83 || sysno == 84 || sysno == 85
        || sysno == 87 || sysno == 89 || sysno == 90 || sysno == 92
        || sysno == 94 || sysno == 132 || sysno == 137 || sysno == 166
        || sysno == 191 || sysno == 192 || sysno == 194 || sysno == 195
        || sysno == 235 {
        Kind::First
    } else if sysno == 88 || sysno == 165 {
        Kind::Second
    } else if sysno == 266 {
        Kind::Third
    } else if sysno == 264 || sysno == 265 || sysno == 316 {
        Kind::Both
    } else if sysno == 82 || sysno == 86 {
        Kind::Pair
    } else {
        Kind::Other
    }
}

/// What a system call does with paths, by its number on 32-bit x86.
pub open spec fn x86_kind(sysno: i64) -> Kind {
    if sysno == 11 {
        Kind::Exec
    } else if sysno == 358 {
        Kind::ExecAt
    } else if sysno == 295 || sysno == 296 || sysno == 298 || sysno == 299 || sysno == 300
        || sysno == 301 || sysno == 305 || sysno == 306 || sysno == 307
        || sysno == 320 || sysno == 383 || sysno == 412 || sysno == 437
        || sysno == 439 || sysno == 452 {
        Kind::At
    } else if sysno == 5 || sysno == 8 || sysno == 10 || sysno == 12 || sysno == 15
        || sysno == 16 || sysno == 18 || sysno == 22 || sysno == 30
        || sysno == 33 || sysno == 39 || sysno == 40 || sysno == 52
        || sysno == 84 || sysno == 85 || sysno == 92 || sysno == 99
        || sysno == 106 || sysno == 107 || sysno == 182 || sysno == 193
        || sysno == 195 || sysno == 196 || sysno == 198 || sysno == 212
        || sysno == 229 || sysno == 230 || sysno == 232 || sysno == 233
        || sysno == 268 || sysno == 271 {
        Kind::First
    } else if sysno == 21 || sysno == 83 {
        Kind::Second
    } else if sysno == 304 {
        Kind::Third
    } else if sysno == 302 || sysno == 303 || sysno == 353 {
        Kind::Both
    } else if sysno == 9 || sysno == 38 {
        Kind::Pair
    } else {
        Kind::Other
    }
}

/// What a system call does with paths, by its number on the given machine. The calls are those that the
/// hooks translate for a program that they reach, in every form that the machine has of them.
pub open spec fn kind_of(arch: Arch, sysno: i64) -> Kind {
    match arch {
        Arch::Aarch64 => arm64_kind(sysno),
        Arch::X86_64 => x86_64_kind(sysno),
        Arch::X86 => x86_kind(sysno),
    }
}

fn call_kind_arm64(sysno: i64) -> (r: Kind)
    ensures
        r == arm64_kind(sysno),
{
    if sysno == 221 {
        Kind::Exec
    } else if sysno == 281 {
        Kind::ExecAt
    } else if sysno == 34 || sysno == 35 || sysno == 48 || sysno == 53 || sysno == 54
        || sysno == 56 || sysno == 78 || sysno == 79 || sysno == 88
        || sysno == 291 || sysno == 437 || sysno == 439 || sysno == 452 {
        Kind::At
    } else if sysno == 8 || sysno == 9 || sysno == 11 || sysno == 12 || sysno == 39
        || sysno == 43 || sysno == 45 || sysno == 49 {
        Kind::First
    } else if sysno == 40 {
        Kind::Second
    } else if sysno == 36 {
        Kind::Third
    } else if sysno == 37 || sysno == 38 || sysno == 276 {
        Kind::Both
    } else {
        Kind::Other
    }
}

fn call_kind_x86_64(sysno: i64) -> (r: Kind)
    ensures
        r == x86_64_kind(sysno),
{
    if sysno == 59 {
        Kind::Exec
    } else if sysno == 322 {
        Kind::ExecAt
    } else if sysno == 257 || sysno == 258 || sysno == 260 || sysno == 261 || sysno == 262
        || sysno == 263 || sysno == 267 || sysno == 268 || sysno == 269
        || sysno == 280 || sysno == 332 || sysno == 437 || sysno == 439
        || sysno == 452 {
        Kind::At
    } else if sysno == 2 || sysno == 4 || sysno == 6 || sysno == 21 || sysno == 76
        || sysno == 80 || sysno == 83 || sysno == 84 || sysno == 85
        || sysno == 87 || sysno == 89 || sysno == 90 || sysno == 92
        || sysno == 94 || sysno == 132 || sysno == 137 || sysno == 166
        || sysno == 191 || sysno == 192 || sysno == 194 || sysno == 195
        || sysno == 235 {
        Kind::First
    } else if sysno == 88 || sysno == 165 {
        Kind::Second
    } else if sysno == 266 {
        Kind::Third
    } else if sysno == 264 || sysno == 265 || sysno == 316 {
        Kind::Both
    } else if sysno == 82 || sysno == 86 {
        Kind::Pair
    } else {
        Kind::Other
    }
}

fn call_kind_x86(sysno: i64) -> (r: Kind)
    ensures
        r == x86_kind(sysno),
{
    if sysno == 11 {
        Kind::Exec
    } else if sysno == 358 {
        Kind::ExecAt
    } else if sysno == 295 || sysno == 296 || sysno == 298 || sysno == 299 || sysno == 300
        || sysno == 301 || sysno == 305 || sysno == 306 || sysno == 307
        || sysno == 320 || sysno == 383 || sysno == 412 || sysno == 437
        || sysno == 439 || sysno == 452 {
        Kind::At
    } else if sysno == 5 || sysno == 8 || sysno == 10 || sysno == 12 || sysno == 15
        || sysno == 16 || sysno == 18 || sysno == 22 || sysno == 30
        || sysno == 33 || sysno == 39 || sysno == 40 || sysno == 52
        || sysno == 84 || sysno == 85 || sysno == 92 || sysno == 99
        || sysno == 106 || sysno == 107 || sysno == 182 || sysno == 193
        || sysno == 195 || sysno == 196 || sysno == 198 || sysno == 212
        || sysno == 229 || sysno == 230 || sysno == 232 || sysno == 233
        || sysno == 268 || sysno == 271 {
        Kind::First
    } else if sysno == 21 || sysno == 83 {
        Kind::Second
    } else if sysno == 304 {
        Kind::Third
    } else if sysno == 302 || sysno == 303 || sysno == 353 {
        Kind::Both
    } else if sysno == 9 || sysno == 38 {
        Kind::Pair
    } else {
        Kind::Other
    }
}

/// What a system call does with paths, by its number on the given machine.
pub fn call_kind(arch: Arch, sysno: i64) -> (r: Kind)
    ensures
        r == kind_of(arch, sysno),
{
    match arch {
        Arch::Aarch64 => call_kind_arm64(sysno),
        Arch::X86_64 => call_kind_x86_64(sysno),
        Arch::X86 => call_kind_x86(sysno),
    }
}

/// When the registers are written back after a path argument was dealt with.
#[derive(Clone, Copy, PartialEq, Eq, Structural)]
pub enum Goal {
    /// If the path was dealt with.
    IfPlaced,
    /// If the path has another place than before.
    IfMoved,
    /// Not yet: another path argument follows.
    First,
    /// In any case.
    Second,
}

/// A path argument that is being dealt with.
#[derive(Clone, Copy, PartialEq, Eq, Structural)]
pub struct Job {
    /// The directory from which the path counts; absent where the call takes none.
    pub dirfd: Option<i32>,
    /// Which argument it is.
    pub slot: u8,
    /// The address of the path.
    pub addr: u64,
    pub goal: Goal,
    /// The address below which a new place for the path has to lie; absent where that is the stack.
    pub below: Option<u64>,
}

/// Where a path argument ends up.
#[derive(Clone, Copy, PartialEq, Eq, Structural)]
pub enum Place {
    /// It could not be dealt with.
    Nowhere,
    /// Translation leaves it alone.
    Kept,
    /// Its translation was written to this address.
    Moved(u64),
}

/// How far the work on a system call has come.
pub enum Phase<B> {
    /// The registers of a program on this machine were asked for.
    Start(Arch),
    /// The path of a program that is run was asked for.
    ExecText(bool),
    /// The linkage of a program that is run was asked for.
    ExecProbe(bool),
    /// The path was asked for.
    Text(Job),
    /// The path of the directory was asked for; the path counts from there.
    Link(Job, B),
    /// The registers were asked for again, to place the translated path.
    Place(Job, B),
    /// The translated path is being written: its address and its length.
    Body(Job, u64, u64),
    /// The zero byte behind the translated path is being written.
    Tail(Job, u64),
    /// The registers are being written back.
    Save,
    /// There is nothing more to do.
    Over,
}

/// The work on one system call.
pub struct Stop<B> {
    pub phase: Phase<B>,
    pub regs: Regs,
    /// Whether the program that is run will be reached by the intercept library, so that the tracer
    /// leaves it after this call.
    pub detach: bool,
}

/// What is asked of the traced process.
pub enum Need<B> {
    /// Read the registers.
    ReadRegs,
    /// Read the text at this address.
    ReadText(u64),
    /// Tell whether the program at this path is static; one that is no program is not.
    ProbeStatic(B),
    /// Read the path of this directory.
    ReadLink(i32),
    /// Write these bytes to this address.
    Write(u64, B),
    /// Write the registers back.
    WriteRegs(Regs),
    /// Nothing: the call may go on, and the flag tells whether to leave the process after it.
    Finish(bool),
}

/// What the traced process answered.
pub enum Answer<B> {
    Regs(Option<Regs>),
    Text(Option<B>),
    Flag(bool),
}

impl<B> Answer<B> {
    /// The registers in an answer.
    pub open spec fn regs(self) -> Option<Regs> {
        match self {
            Answer::Regs(r) => r,
            _ => None,
        }
    }

    /// The text in an answer.
    pub open spec fn text(self) -> Option<B> {
        match self {
            Answer::Text(t) => t,
            _ => None,
        }
    }

    /// The flag in an answer.
    pub open spec fn flag(self) -> bool {
        match self {
            Answer::Flag(f) => f,
            _ => false,
        }
    }
}

/// The mathematical value of a phase.
pub open spec fn phase_value(p: Phase<Vec<u8>>) -> Phase<Seq<u8>> {
    match p {
        Phase::Start(arch) => Phase::Start(arch),
        Phase::ExecText(at) => Phase::ExecText(at),
        Phase::ExecProbe(at) => Phase::ExecProbe(at),
        Phase::Text(job) => Phase::Text(job),
        Phase::Link(job, path) => Phase::Link(job, path@),
        Phase::Place(job, text) => Phase::Place(job, text@),
        Phase::Body(job, addr, len) => Phase::Body(job, addr, len),
        Phase::Tail(job, addr) => Phase::Tail(job, addr),
        Phase::Save => Phase::Save,
        Phase::Over => Phase::Over,
    }
}

/// The mathematical value of the work on a system call.
pub open spec fn stop_value(s: Stop<Vec<u8>>) -> Stop<Seq<u8>> {
    Stop { phase: phase_value(s.phase), regs: s.regs, detach: s.detach }
}

/// The mathematical value of a question.
pub open spec fn need_value(n: Need<Vec<u8>>) -> Need<Seq<u8>> {
    match n {
        Need::ReadRegs => Need::ReadRegs,
        Need::ReadText(addr) => Need::ReadText(addr),
        Need::ProbeStatic(path) => Need::ProbeStatic(path@),
        Need::ReadLink(fd) => Need::ReadLink(fd),
        Need::Write(addr, bytes) => Need::Write(addr, bytes@),
        Need::WriteRegs(regs) => Need::WriteRegs(regs),
        Need::Finish(detach) => Need::Finish(detach),
    }
}

/// The mathematical value of an answer.
pub open spec fn answer_value(a: Answer<Vec<u8>>) -> Answer<Seq<u8>> {
    match a {
        Answer::Regs(r) => Answer::Regs(r),
        Answer::Text(t) => Answer::Text(contents_opt(t)),
        Answer::Flag(f) => Answer::Flag(f),
    }
}

/// The memory that a text and the zero byte behind it take below the stack, in steps of 16 bytes.
pub open spec fn scratch_size(len: int) -> int {
    (len + 16) / 16 * 16
}

/// Where a text of the given length is written below the stack; nowhere if it is too long.
pub open spec fn scratch_at(sp: u64, len: int) -> Option<u64> {
    if scratch_size(len) > SCRATCH_LIMIT {
        None
    } else if sp >= scratch_size(len) {
        Some((sp - scratch_size(len)) as u64)
    } else {
        Some((sp - scratch_size(len) + 0x1_0000_0000_0000_0000) as u64)
    }
}

/// An address further on, from the start of memory again behind its end.
pub open spec fn offset_addr(addr: u64, len: int) -> u64 {
    if addr + len > u64::MAX {
        (addr + len - 0x1_0000_0000_0000_0000) as u64
    } else {
        (addr + len) as u64
    }
}

/// Where a text of the given length is written below the stack; nowhere if it is too long.
pub fn scratch(sp: u64, len: usize) -> (r: Option<u64>)
    ensures
        r == scratch_at(sp, len as int),
{
    if len >= SCRATCH_LIMIT as usize {
        return None;
    }
    let size: u64 = (len as u64 + 16) / 16 * 16;
    if size > SCRATCH_LIMIT {
        None
    } else {
        Some(sp.wrapping_sub(size))
    }
}

/// The work is over.
pub open spec fn finished(regs: Regs, detach: bool) -> (Stop<Seq<u8>>, Need<Seq<u8>>) {
    (Stop { phase: Phase::Over, regs, detach }, Need::Finish(detach))
}

/// The registers are written back.
pub open spec fn saving(regs: Regs, detach: bool) -> (Stop<Seq<u8>>, Need<Seq<u8>>) {
    (Stop { phase: Phase::Save, regs, detach }, Need::WriteRegs(regs))
}

/// The work on a path argument begins.
pub open spec fn begun(regs: Regs, detach: bool, job: Job) -> (Stop<Seq<u8>>, Need<Seq<u8>>) {
    (Stop { phase: Phase::Text(job), regs, detach }, Need::ReadText(job.addr))
}

/// The registers once a path argument has the given place.
pub open spec fn placed(regs: Regs, job: Job, place: Place) -> Regs {
    match place {
        Place::Moved(addr) => regs.with_arg(job.slot as int, addr),
        _ => regs,
    }
}

/// The second path argument of a call that has two. Where the first one was moved, the second one's
/// place lies below it.
pub open spec fn second_job(regs: Regs, first: Job, place: Place) -> Job {
    let below = match place {
        Place::Moved(addr) => Some(addr),
        _ => None,
    };
    if first.dirfd is Some {
        Job { dirfd: Some(regs.a2 as i32), slot: 3, addr: regs.a3, goal: Goal::Second, below }
    } else {
        Job { dirfd: None, slot: 1, addr: regs.a1, goal: Goal::Second, below }
    }
}

/// A path argument was dealt with: its place is known, or it has none.
pub open spec fn dealt(
    regs: Regs,
    detach: bool,
    job: Job,
    place: Place,
) -> (Stop<Seq<u8>>, Need<Seq<u8>>) {
    let changed = placed(regs, job, place);
    match job.goal {
        Goal::IfPlaced => if place != Place::Nowhere {
            saving(changed, detach)
        } else {
            finished(regs, detach)
        },
        Goal::IfMoved => if place is Moved && place->Moved_0 != job.addr {
            saving(changed, detach)
        } else {
            finished(regs, detach)
        },
        Goal::First => begun(changed, detach, second_job(changed, job, place)),
        Goal::Second => saving(changed, detach),
    }
}

/// A translated path is written below the stack, and below the path that was written before it for the
/// same call; or it has no place there.
pub open spec fn writing(
    regs: Regs,
    detach: bool,
    job: Job,
    sp: u64,
    text: Seq<u8>,
) -> (Stop<Seq<u8>>, Need<Seq<u8>>) {
    let top = match job.below {
        Some(addr) => addr,
        None => sp,
    };
    match scratch_at(top, text.len() as int) {
        Some(addr) => (
            Stop { phase: Phase::Body(job, addr, text.len() as u64), regs, detach },
            Need::Write(addr, text),
        ),
        None => dealt(regs, detach, job, Place::Nowhere),
    }
}

/// A path from a known directory is translated: where translation leaves it alone it keeps its place,
/// else it needs one below the stack as it is now.
pub open spec fn resolving(
    s: Settings,
    regs: Regs,
    detach: bool,
    job: Job,
    full: Seq<u8>,
) -> (Stop<Seq<u8>>, Need<Seq<u8>>) {
    let text = translated(s, full);
    if text == full {
        dealt(regs, detach, job, Place::Kept)
    } else {
        (Stop { phase: Phase::Place(job, text), regs, detach }, Need::ReadRegs)
    }
}

/// The text of a path argument is known, or cannot be read.
pub open spec fn after_text(
    s: Settings,
    regs: Regs,
    detach: bool,
    job: Job,
    text: Option<Seq<u8>>,
) -> (Stop<Seq<u8>>, Need<Seq<u8>>) {
    match (text, job.dirfd) {
        (None, _) => dealt(regs, detach, job, Place::Nowhere),
        (Some(path), None) => if translated(s, path) == path {
            dealt(regs, detach, job, Place::Nowhere)
        } else {
            writing(regs, detach, job, regs.sp, translated(s, path))
        },
        (Some(path), Some(fd)) => if path.len() == 0 {
            dealt(regs, detach, job, Place::Nowhere)
        } else if path[0] == 0x2f {
            resolving(s, regs, detach, job, path)
        } else if fd == AT_FDCWD {
            dealt(regs, detach, job, Place::Nowhere)
        } else {
            (Stop { phase: Phase::Link(job, path), regs, detach }, Need::ReadLink(fd))
        },
    }
}

/// A path argument of a call that takes no directory for it.
pub open spec fn plain_job(regs: Regs, slot: u8, goal: Goal) -> Job {
    Job { dirfd: None, slot, addr: regs.arg(slot as int), goal, below: None }
}

/// The registers at the start of a system call are known: the work that the call needs begins.
pub open spec fn after_regs(arch: Arch, regs: Regs) -> (Stop<Seq<u8>>, Need<Seq<u8>>) {
    let dirfd = Some(regs.a0 as i32);
    match kind_of(arch, regs.sysno) {
        Kind::Exec => if regs.a0 == 0 {
            finished(regs, false)
        } else {
            (
                Stop { phase: Phase::ExecText(false), regs, detach: false },
                Need::ReadText(regs.a0),
            )
        },
        Kind::ExecAt => if regs.a1 == 0 {
            finished(regs, false)
        } else {
            (
                Stop { phase: Phase::ExecText(true), regs, detach: false },
                Need::ReadText(regs.a1),
            )
        },
        Kind::At => begun(
            regs,
            false,
            Job { dirfd, slot: 1, addr: regs.a1, goal: Goal::IfMoved, below: None },
        ),
        Kind::First => if regs.a0 == 0 {
            finished(regs, false)
        } else {
            begun(regs, false, plain_job(regs, 0, Goal::IfPlaced))
        },
        Kind::Second => if regs.a1 == 0 {
            finished(regs, false)
        } else {
            begun(regs, false, plain_job(regs, 1, Goal::IfPlaced))
        },
        Kind::Third => if regs.a2 == 0 {
            finished(regs, false)
        } else {
            begun(regs, false, plain_job(regs, 2, Goal::IfPlaced))
        },
        Kind::Both => begun(
            regs,
            false,
            Job { dirfd, slot: 1, addr: regs.a1, goal: Goal::First, below: None },
        ),
        Kind::Pair => begun(regs, false, plain_job(regs, 0, Goal::First)),
        Kind::Other => finished(regs, false),
    }
}

/// The path argument of a call that runs a program.
pub open spec fn exec_job(regs: Regs, at: bool) -> Job {
    if at {
        Job { dirfd: Some(regs.a0 as i32), slot: 1, addr: regs.a1, goal: Goal::IfPlaced, below: None }
    } else {
        plain_job(regs, 0, Goal::IfPlaced)
    }
}

/// What an answer leads to.
pub open spec fn next(s: Settings, stop: Stop<Seq<u8>>, answer: Answer<Seq<u8>>) -> (
    Stop<Seq<u8>>,
    Need<Seq<u8>>,
) {
    let regs = stop.regs;
    let detach = stop.detach;
    match stop.phase {
        Phase::Start(arch) => match answer.regs() {
            Some(r) => after_regs(arch, r),
            None => finished(regs, false),
        },
        Phase::ExecText(at) => match answer.text() {
            Some(path) => if path.len() == 0 || path[0] != 0x2f {
                finished(regs, false)
            } else {
                (Stop { phase: Phase::ExecProbe(at), regs, detach }, Need::ProbeStatic(path))
            },
            None => finished(regs, false),
        },
        Phase::ExecProbe(at) => begun(regs, !answer.flag(), exec_job(regs, at)),
        Phase::Text(job) => after_text(s, regs, detach, job, answer.text()),
        Phase::Link(job, path) => match answer.text() {
            Some(dir) => resolving(s, regs, detach, job, dir + seq![0x2f] + path),
            None => dealt(regs, detach, job, Place::Nowhere),
        },
        Phase::Place(job, text) => match answer.regs() {
            Some(r) => writing(regs, detach, job, r.sp, text),
            None => dealt(regs, detach, job, Place::Nowhere),
        },
        Phase::Body(job, addr, len) => if answer.flag() {
            (
                Stop { phase: Phase::Tail(job, addr), regs, detach },
                Need::Write(offset_addr(addr, len as int), seq![0]),
            )
        } else {
            dealt(regs, detach, job, Place::Nowhere)
        },
        Phase::Tail(job, addr) => if answer.flag() {
            dealt(regs, detach, job, Place::Moved(addr))
        } else {
            dealt(regs, detach, job, Place::Nowhere)
        },
        Phase::Save => finished(regs, detach),
        Phase::Over => finished(regs, detach),
    }
}

fn finish(regs: Regs, detach: bool) -> (r: (Stop<Vec<u8>>, Need<Vec<u8>>))
    ensures
        (stop_value(r.0), need_value(r.1)) == finished(regs, detach),
{
    (Stop { phase: Phase::Over, regs, detach }, Need::Finish(detach))
}

fn save(regs: Regs, detach: bool) -> (r: (Stop<Vec<u8>>, Need<Vec<u8>>))
    ensures
        (stop_value(r.0), need_value(r.1)) == saving(regs, detach),
{
    (Stop { phase: Phase::Save, regs, detach }, Need::WriteRegs(regs))
}

fn begin(regs: Regs, detach: bool, job: Job) -> (r: (Stop<Vec<u8>>, Need<Vec<u8>>))
    ensures
        (stop_value(r.0), need_value(r.1)) == begun(regs, detach, job),
{
    (Stop { phase: Phase::Text(job), regs, detach }, Need::ReadText(job.addr))
}

fn deal(regs: Regs, detach: bool, job: Job, place: Place) -> (r: (Stop<Vec<u8>>, Need<Vec<u8>>))
    ensures
        (stop_value(r.0), need_value(r.1)) == dealt(regs, detach, job, place),
{
    let mut changed = regs;
    let mut moved: bool = false;
    let mut below: Option<u64> = None;
    if let Place::Moved(addr) = place {
        moved = addr != job.addr;
        below = Some(addr);
        ptrace_set_arg(&mut changed, job.slot as usize, addr);
    }
    match job.goal {
        Goal::IfPlaced => if place != Place::Nowhere {
            save(changed, detach)
        } else {
            finish(regs, detach)
        },
        Goal::IfMoved => if moved {
            save(changed, detach)
        } else {
            finish(regs, detach)
        },
        Goal::First => {
            let second = if job.dirfd.is_some() {
                Job {
                    dirfd: Some(ptrace_arg(&changed, 2) as i32),
                    slot: 3,
                    addr: ptrace_arg(&changed, 3),
                    goal: Goal::Second,
                    below,
                }
            } else {
                Job {
                    dirfd: None,
                    slot: 1,
                    addr: ptrace_arg(&changed, 1),
                    goal: Goal::Second,
                    below,
                }
            };
            begin(changed, detach, second)
        },
        Goal::Second => save(changed, detach),
    }
}

fn plain(regs: Regs, slot: u8, goal: Goal) -> (r: Job)
    ensures
        r == plain_job(regs, slot, goal),
{
    Job { dirfd: None, slot, addr: ptrace_arg(&regs, slot as usize), goal, below: None }
}

fn write_text(regs: Regs, detach: bool, job: Job, sp: u64, text: Vec<u8>) -> (r: (
    Stop<Vec<u8>>,
    Need<Vec<u8>>,
))
    ensures
        (stop_value(r.0), need_value(r.1)) == writing(regs, detach, job, sp, text@),
{
    let top: u64 = match job.below {
        Some(addr) => addr,
        None => sp,
    };
    match scratch(top, text.len()) {
        Some(addr) => (
            Stop { phase: Phase::Body(job, addr, text.len() as u64), regs, detach },
            Need::Write(addr, text),
        ),
        None => deal(regs, detach, job, Place::Nowhere),
    }
}

/// Deals with a path argument whose directory is known.
pub fn resolve_ptrace_path(
    config: &Config,
    regs: Regs,
    detach: bool,
    job: Job,
    full: Vec<u8>,
) -> (r: (Stop<Vec<u8>>, Need<Vec<u8>>))
    ensures
        (stop_value(r.0), need_value(r.1)) == resolving(config@, regs, detach, job, full@),
{
    let text = translate(config, full.as_slice());
    if crate::bytes::same(text.as_slice(), full.as_slice()) {
        deal(regs, detach, job, Place::Kept)
    } else {
        (Stop { phase: Phase::Place(job, text), regs, detach }, Need::ReadRegs)
    }
}

/// Deals with a path argument of a call that takes no directory: only a path that translation moves is
/// given a new place.
pub fn translate_tracee_path(config: &Config, regs: Regs, detach: bool, job: Job, path: Vec<u8>) -> (r:
    (Stop<Vec<u8>>, Need<Vec<u8>>))
    ensures
        (stop_value(r.0), need_value(r.1)) == (if translated(config@, path@) == path@ {
            dealt(regs, detach, job, Place::Nowhere)
        } else {
            writing(regs, detach, job, regs.sp, translated(config@, path@))
        }),
{
    let text = translate(config, path.as_slice());
    if crate::bytes::same(text.as_slice(), path.as_slice()) {
        deal(regs, detach, job, Place::Nowhere)
    } else {
        write_text(regs, detach, job, ptrace_sp(&regs), text)
    }
}

fn take_text(
    config: &Config,
    regs: Regs,
    detach: bool,
    job: Job,
    text: Option<Vec<u8>>,
) -> (r: (Stop<Vec<u8>>, Need<Vec<u8>>))
    ensures
        (stop_value(r.0), need_value(r.1)) == after_text(
            config@,
            regs,
            detach,
            job,
            contents_opt(text),
        ),
{
    let path = match text {
        None => return deal(regs, detach, job, Place::Nowhere),
        Some(p) => p,
    };
    match job.dirfd {
        None => translate_tracee_path(config, regs, detach, job, path),
        Some(fd) => if path.len() == 0 {
            deal(regs, detach, job, Place::Nowhere)
        } else if path[0] == 0x2f {
            resolve_ptrace_path(config, regs, detach, job, path)
        } else if fd == AT_FDCWD {
            deal(regs, detach, job, Place::Nowhere)
        } else {
            (Stop { phase: Phase::Link(job, path), regs, detach }, Need::ReadLink(fd))
        },
    }
}

fn take_regs(arch: Arch, regs: Regs) -> (r: (Stop<Vec<u8>>, Need<Vec<u8>>))
    ensures
        (stop_value(r.0), need_value(r.1)) == after_regs(arch, regs),
{
    let dirfd: Option<i32> = Some(ptrace_arg(&regs, 0) as i32);
    match call_kind(arch, ptrace_syscall_no(&regs)) {
        Kind::Exec => if regs.a0 == 0 {
            finish(regs, false)
        } else {
            (
                Stop { phase: Phase::ExecText(false), regs, detach: false },
                Need::ReadText(regs.a0),
            )
        },
        Kind::ExecAt => if regs.a1 == 0 {
            finish(regs, false)
        } else {
            (
                Stop { phase: Phase::ExecText(true), regs, detach: false },
                Need::ReadText(regs.a1),
            )
        },
        Kind::At => begin(
            regs,
            false,
            Job { dirfd, slot: 1, addr: regs.a1, goal: Goal::IfMoved, below: None },
        ),
        Kind::First => if regs.a0 == 0 {
            finish(regs, false)
        } else {
            begin(regs, false, plain(regs, 0, Goal::IfPlaced))
        },
        Kind::Second => if regs.a1 == 0 {
            finish(regs, false)
        } else {
            begin(regs, false, plain(regs, 1, Goal::IfPlaced))
        },
        Kind::Third => if regs.a2 == 0 {
            finish(regs, false)
        } else {
            begin(regs, false, plain(regs, 2, Goal::IfPlaced))
        },
        Kind::Both => begin(
            regs,
            false,
            Job { dirfd, slot: 1, addr: regs.a1, goal: Goal::First, below: None },
        ),
        Kind::Pair => begin(regs, false, plain(regs, 0, Goal::First)),
        Kind::Other => finish(regs, false),
    }
}

fn regs_in(answer: Answer<Vec<u8>>) -> (r: Option<Regs>)
    ensures
        r == answer_value(answer).regs(),
{
    match answer {
        Answer::Regs(r) => r,
        _ => None,
    }
}

fn text_in(answer: Answer<Vec<u8>>) -> (r: Option<Vec<u8>>)
    ensures
        contents_opt(r) == answer_value(answer).text(),
{
    match answer {
        Answer::Text(t) => t,
        _ => None,
    }
}

fn flag_in(answer: Answer<Vec<u8>>) -> (r: bool)
    ensures
        r == answer_value(answer).flag(),
{
    match answer {
        Answer::Flag(f) => f,
        _ => false,
    }
}

/// The work on a system call of a program on the given machine begins: the registers are wanted first.
pub fn start_stop(arch: Arch) -> (r: (Stop<Vec<u8>>, Need<Vec<u8>>))
    ensures
        r.0.phase == Phase::<Vec<u8>>::Start(arch),
        !r.0.detach,
        r.1 == Need::<Vec<u8>>::ReadRegs,
{
    let none = Regs { sysno: -1, a0: 0, a1: 0, a2: 0, a3: 0, a4: 0, a5: 0, sp: 0 };
    (Stop { phase: Phase::Start(arch), regs: none, detach: false }, Need::ReadRegs)
}

/// Goes on with the work on a system call: what the answer to the last question leads to. An answer of
/// another kind than was asked for counts as a failure.
pub fn handle_ptrace_syscall(config: &Config, stop: Stop<Vec<u8>>, answer: Answer<Vec<u8>>) -> (r: (
    Stop<Vec<u8>>,
    Need<Vec<u8>>,
))
    ensures
        (stop_value(r.0), need_value(r.1)) == next(config@, stop_value(stop), answer_value(answer)),
{
    let regs = stop.regs;
    let detach: bool = stop.detach;
    match stop.phase {
        Phase::Start(arch) => match regs_in(answer) {
            Some(r) => take_regs(arch, r),
            None => finish(regs, false),
        },
        Phase::ExecText(at) => match text_in(answer) {
            Some(path) => if path.len() == 0 || path[0] != 0x2f {
                finish(regs, false)
            } else {
                (Stop { phase: Phase::ExecProbe(at), regs, detach }, Need::ProbeStatic(path))
            },
            None => finish(regs, false),
        },
        Phase::ExecProbe(at) => {
            let job = if at {
                Job {
                    dirfd: Some(ptrace_arg(&regs, 0) as i32),
                    slot: 1,
                    addr: ptrace_arg(&regs, 1),
                    goal: Goal::IfPlaced,
                    below: None,
                }
            } else {
                plain(regs, 0, Goal::IfPlaced)
            };
            begin(regs, !flag_in(answer), job)
        },
        Phase::Text(job) => take_text(config, regs, detach, job, text_in(answer)),
        Phase::Link(job, path) => match text_in(answer) {
            Some(dir) => {
                let mut full = dir;
                full.push(0x2f);
                append(&mut full, path.as_slice());
                proof {
                    assert(full@ =~= dir@ + seq![0x2f] + path@);
                }
                resolve_ptrace_path(config, regs, detach, job, full)
            },
            None => deal(regs, detach, job, Place::Nowhere),
        },
        Phase::Place(job, text) => match regs_in(answer) {
            Some(r) => write_text(regs, detach, job, ptrace_sp(&r), text),
            None => deal(regs, detach, job, Place::Nowhere),
        },
        Phase::Body(job, addr, len) => if flag_in(answer) {
            let mut zero: Vec<u8> = Vec::new();
            zero.push(0);
            proof {
                assert(zero@ =~= seq![0u8]);
            }
            (
                Stop { phase: Phase::Tail(job, addr), regs, detach },
                Need::Write(addr.wrapping_add(len), zero),
            )
        } else {
            deal(regs, detach, job, Place::Nowhere)
        },
        Phase::Tail(job, addr) => if flag_in(answer) {
            deal(regs, detach, job, Place::Moved(addr))
        } else {
            deal(regs, detach, job, Place::Nowhere)
        },
        Phase::Save => finish(regs, detach),
        Phase::Over => finish(regs, detach),
    }
}

// ---- What holds of the work on a system call ----

/// How many questions a phase can still lead to, at the most.
pub open spec fn rank(phase: Phase<Seq<u8>>) -> int {
    match phase {
        Phase::Start(_) => 14,
        Phase::ExecText(_) => 13,
        Phase::ExecProbe(_) => 12,
        Phase::Text(job) => job_rank(job) + 5,
        Phase::Link(job, _) => job_rank(job) + 4,
        Phase::Place(job, _) => job_rank(job) + 3,
        Phase::Body(job, _, _) => job_rank(job) + 2,
        Phase::Tail(job, _) => job_rank(job) + 1,
        Phase::Save => 1,
        Phase::Over => 0,
    }
}

/// How many questions can follow once a path argument is dealt with, at the most.
pub open spec fn job_rank(job: Job) -> int {
    if job.goal == Goal::First {
        6
    } else {
        1
    }
}

/// The work on a system call comes to an end: every answer leaves fewer questions, and there are at most
/// fourteen of them.
pub proof fn law_work_ends(s: Settings, stop: Stop<Seq<u8>>, answer: Answer<Seq<u8>>)
    ensures
        stop.phase != Phase::<Seq<u8>>::Over ==> rank(next(s, stop, answer).0.phase) < rank(
            stop.phase,
        ),
        0 <= rank(stop.phase) <= 14,
        next(s, stop, answer).0.phase == Phase::<Seq<u8>>::Over <==> next(s, stop, answer).1
            is Finish,
{
}

/// The job of a phase, where there is one.
pub open spec fn job_in(phase: Phase<Seq<u8>>) -> Option<Job> {
    match phase {
        Phase::Text(job) => Some(job),
        Phase::Link(job, _) => Some(job),
        Phase::Place(job, _) => Some(job),
        Phase::Body(job, _, _) => Some(job),
        Phase::Tail(job, _) => Some(job),
        _ => None,
    }
}

/// The address of the path that is being dealt with is the argument that the registers hold.
pub open spec fn in_step(stop: Stop<Seq<u8>>) -> bool {
    job_in(stop.phase) matches Some(job) ==> job.slot <= 3 && job.addr == stop.regs.arg(
        job.slot as int,
    )
}

/// From the start on, the address of the path that is being dealt with is the argument that the
/// registers hold.
pub proof fn law_stays_in_step(s: Settings, stop: Stop<Seq<u8>>, answer: Answer<Seq<u8>>)
    requires
        in_step(stop),
    ensures
        in_step(next(s, stop, answer).0),
{
}

/// Once the registers are known, no answer changes any of them but the path argument that is being dealt
/// with, and that one only to the address at which the translated path was just written.
pub proof fn law_only_the_path_changes(s: Settings, stop: Stop<Seq<u8>>, answer: Answer<Seq<u8>>)
    requires
        in_step(stop),
        !(stop.phase is Start),
    ensures
        next(s, stop, answer).0.regs == stop.regs || (stop.phase matches Phase::Tail(job, addr)
            && next(s, stop, answer).0.regs == stop.regs.with_arg(job.slot as int, addr)),
{
}

/// Registers are written back only as they are known to be.
pub proof fn law_writes_known_registers(s: Settings, stop: Stop<Seq<u8>>, answer: Answer<Seq<u8>>)
    ensures
        next(s, stop, answer).1 matches Need::WriteRegs(regs) ==> regs == next(
            s,
            stop,
            answer,
        ).0.regs,
{
}

/// Below the stack nothing is written but a path that translation gave, and the zero byte behind it.
pub proof fn law_writes_translations(s: Settings, stop: Stop<Seq<u8>>, answer: Answer<Seq<u8>>)
    requires
        stop.phase matches Phase::Place(_, text) ==> is_translation(s, text),
    ensures
        next(s, stop, answer).0.phase matches Phase::Place(_, text) ==> is_translation(s, text),
        next(s, stop, answer).1 matches Need::Write(_, bytes) ==> is_translation(s, bytes)
            || bytes == seq![0u8],
{
    match stop.phase {
        Phase::Text(job) => {
            if let Some(path) = answer.text() {
                if translated(s, path) != path {
                    assert(gives(s, path, translated(s, path)));
                }
            }
        },
        Phase::Link(job, path) => {
            if let Some(dir) = answer.text() {
                let full = dir + seq![0x2f] + path;
                if translated(s, full) != full {
                    assert(gives(s, full, translated(s, full)));
                }
            }
        },
        _ => {},
    }
}

/// Whether translation moves one path to another.
pub open spec fn gives(s: Settings, path: Seq<u8>, text: Seq<u8>) -> bool {
    text == translated(s, path) && text != path
}

/// Whether a text is what translation moved some path to.
pub open spec fn is_translation(s: Settings, text: Seq<u8>) -> bool {
    exists|path: Seq<u8>| gives(s, path, text)
}

/// What is written lies below the stack pointer and does not reach it.
pub proof fn law_scratch_below_stack(sp: u64, len: nat)
    requires
        scratch_at(sp, len as int) is Some,
        sp >= SCRATCH_LIMIT,
    ensures
        scratch_at(sp, len as int)->0 + len + 1 <= sp,
        sp - scratch_at(sp, len as int)->0 <= SCRATCH_LIMIT,
{
}

/// How far one address lies behind another, memory starting again behind its end.
pub open spec fn distance(from: u64, to: u64) -> int {
    if to >= from {
        to - from
    } else {
        to - from + 0x1_0000_0000_0000_0000
    }
}

/// Memory with bytes written to an address.
pub open spec fn stored(mem: spec_fn(u64) -> u8, addr: u64, bytes: Seq<u8>) -> spec_fn(u64) -> u8 {
    |a: u64|
        if distance(addr, a) < bytes.len() {
            bytes[distance(addr, a)]
        } else {
            mem(a)
        }
}

/// Whether memory shows a text at an address, closed by a zero byte.
pub open spec fn shows(mem: spec_fn(u64) -> u8, addr: u64, text: Seq<u8>) -> bool {
    &&& forall|i: int| 0 <= i < text.len() ==> #[trigger] mem(offset_addr(addr, i)) == text[i]
    &&& mem(offset_addr(addr, text.len() as int)) == 0
}

/// Memory once a text and the zero byte behind it are written.
pub open spec fn with_text(mem: spec_fn(u64) -> u8, addr: u64, text: Seq<u8>) -> spec_fn(u64) -> u8 {
    stored(stored(mem, addr, text), offset_addr(addr, text.len() as int), seq![0u8])
}

/// What two writes ask for: a text, and the zero byte behind it.
pub open spec fn writes_text(
    body: Need<Seq<u8>>,
    tail: Need<Seq<u8>>,
    addr: u64,
    text: Seq<u8>,
) -> bool {
    body == Need::Write(addr, text) && tail == Need::Write(
        offset_addr(addr, text.len() as int),
        seq![0u8],
    )
}

/// A text that was written is what memory shows.
proof fn lemma_text_shows(mem: spec_fn(u64) -> u8, addr: u64, text: Seq<u8>)
    requires
        text.len() < PATH_LIMIT,
    ensures
        shows(with_text(mem, addr, text), addr, text),
{
    let after = with_text(mem, addr, text);
    let end = offset_addr(addr, text.len() as int);
    assert forall|i: int| 0 <= i < text.len() implies #[trigger] after(offset_addr(addr, i))
        == text[i] by {
        assert(distance(addr, offset_addr(addr, i)) == i);
        assert(distance(end, offset_addr(addr, i)) >= 1);
    }
    assert(distance(end, end) == 0);
}

/// A text that is written below another one leaves it as it is.
proof fn lemma_text_below(mem: spec_fn(u64) -> u8, addr: u64, text: Seq<u8>, below: u64, other: Seq<u8>)
    requires
        text.len() < PATH_LIMIT,
        other.len() < PATH_LIMIT,
        shows(mem, addr, text),
        scratch_at(addr, other.len() as int) == Some(below),
    ensures
        shows(with_text(mem, below, other), addr, text),
        forall|i: int, j: int|
            0 <= i <= text.len() && 0 <= j <= other.len() ==> #[trigger] offset_addr(addr, i)
                != #[trigger] offset_addr(below, j),
{
    let after = with_text(mem, below, other);
    let end = offset_addr(below, other.len() as int);
    assert(distance(below, addr) == scratch_size(other.len() as int));
    assert forall|i: int| 0 <= i <= text.len() implies #[trigger] after(offset_addr(addr, i)) == mem(
        offset_addr(addr, i),
    ) by {
        assert(distance(below, offset_addr(addr, i)) == scratch_size(other.len() as int) + i);
        assert(distance(end, offset_addr(addr, i)) == scratch_size(other.len() as int)
            - other.len() + i);
    }
    assert forall|i: int, j: int| 0 <= i <= text.len() && 0 <= j <= other.len() implies #[trigger] offset_addr(
        addr,
        i,
    ) != #[trigger] offset_addr(below, j) by {
        assert(distance(below, offset_addr(addr, i)) == scratch_size(other.len() as int) + i);
        assert(distance(below, offset_addr(below, j)) == j);
    }
}

/// Where the translation of a path goes, given the address below which it has to lie.
pub open spec fn place_for(s: Settings, top: u64, path: Seq<u8>) -> u64 {
    scratch_at(top, translated(s, path).len() as int)->0
}

/// Whether a path is an absolute one that translation moves.
pub open spec fn is_given_a_place(s: Settings, path: Seq<u8>) -> bool {
    path.len() > 0 && path[0] == 0x2f && translated(s, path) != path
}

/// The translation of a path fits below any address.
proof fn lemma_has_place(s: Settings, top: u64, path: Seq<u8>)
    requires
        is_given_a_place(s, path),
    ensures
        translated(s, path).len() < PATH_LIMIT,
        scratch_at(top, translated(s, path).len() as int) == Some(place_for(s, top, path)),
{
}

/// A traced call with a directory and an absolute path that translation moves gets the translated path:
/// if the process answers every question, its memory shows the translation at the address that the path
/// argument is changed to, and no other register changes.
pub proof fn law_traced_path_is_translated(
    s: Settings,
    start: Stop<Seq<u8>>,
    arch: Arch,
    regs: Regs,
    path: Seq<u8>,
    now: Regs,
    mem: spec_fn(u64) -> u8,
)
    requires
        start.phase == Phase::<Seq<u8>>::Start(arch),
        kind_of(arch, regs.sysno) == Kind::At,
        is_given_a_place(s, path),
    ensures
        ({
            let addr = place_for(s, now.sp, path);
            let entered = next(s, start, Answer::Regs(Some(regs)));
            let read = next(s, entered.0, Answer::Text(Some(path)));
            let body = next(s, read.0, Answer::Regs(Some(now)));
            let tail = next(s, body.0, Answer::Flag(true));
            let closed = next(s, tail.0, Answer::Flag(true));
            &&& entered.1 == Need::<Seq<u8>>::ReadText(regs.a1)
            &&& read.1 == Need::<Seq<u8>>::ReadRegs
            &&& writes_text(body.1, tail.1, addr, translated(s, path))
            &&& closed.0.regs == regs.with_arg(1, addr)
            &&& addr != regs.a1 ==> closed.1 == Need::<Seq<u8>>::WriteRegs(regs.with_arg(1, addr))
            &&& addr == regs.a1 ==> closed.1 == Need::<Seq<u8>>::Finish(false)
            &&& shows(with_text(mem, addr, translated(s, path)), addr, translated(s, path))
        }),
{
    lemma_has_place(s, now.sp, path);
    lemma_text_shows(mem, place_for(s, now.sp, path), translated(s, path));
}

/// A traced call with a directory other than the current one gets the translation of a relative path: if
/// the process answers every question, its memory shows the translation of the path from that directory on
/// at the address that the path argument is changed to, and no other register changes.
pub proof fn law_traced_relative_path_is_translated(
    s: Settings,
    start: Stop<Seq<u8>>,
    arch: Arch,
    regs: Regs,
    path: Seq<u8>,
    dir: Seq<u8>,
    now: Regs,
    mem: spec_fn(u64) -> u8,
)
    requires
        start.phase == Phase::<Seq<u8>>::Start(arch),
        kind_of(arch, regs.sysno) == Kind::At,
        regs.a0 as i32 != AT_FDCWD,
        path.len() > 0,
        path[0] != 0x2f,
        is_given_a_place(s, dir + seq![0x2f] + path),
    ensures
        ({
            let full = dir + seq![0x2f] + path;
            let addr = place_for(s, now.sp, full);
            let entered = next(s, start, Answer::Regs(Some(regs)));
            let read = next(s, entered.0, Answer::Text(Some(path)));
            let found = next(s, read.0, Answer::Text(Some(dir)));
            let body = next(s, found.0, Answer::Regs(Some(now)));
            let tail = next(s, body.0, Answer::Flag(true));
            let closed = next(s, tail.0, Answer::Flag(true));
            &&& entered.1 == Need::<Seq<u8>>::ReadText(regs.a1)
            &&& read.1 == Need::<Seq<u8>>::ReadLink(regs.a0 as i32)
            &&& found.1 == Need::<Seq<u8>>::ReadRegs
            &&& writes_text(body.1, tail.1, addr, translated(s, full))
            &&& closed.0.regs == regs.with_arg(1, addr)
            &&& addr != regs.a1 ==> closed.1 == Need::<Seq<u8>>::WriteRegs(regs.with_arg(1, addr))
            &&& addr == regs.a1 ==> closed.1 == Need::<Seq<u8>>::Finish(false)
            &&& shows(with_text(mem, addr, translated(s, full)), addr, translated(s, full))
        }),
{
    let full = dir + seq![0x2f] + path;
    lemma_has_place(s, now.sp, full);
    lemma_text_shows(mem, place_for(s, now.sp, full), translated(s, full));
}

/// A traced call without a directory gets the translation of an absolute path that translation moves,
/// whichever of its arguments that is: if the process answers every question, its memory shows the
/// translation at the address that the argument is changed to, and no other register changes.
pub proof fn law_traced_plain_path_is_translated(
    s: Settings,
    start: Stop<Seq<u8>>,
    arch: Arch,
    regs: Regs,
    slot: u8,
    path: Seq<u8>,
    mem: spec_fn(u64) -> u8,
)
    requires
        start.phase == Phase::<Seq<u8>>::Start(arch),
        (kind_of(arch, regs.sysno) == Kind::First && slot == 0) || (kind_of(arch, regs.sysno)
            == Kind::Second && slot == 1) || (kind_of(arch, regs.sysno) == Kind::Third && slot
            == 2),
        regs.arg(slot as int) != 0,
        is_given_a_place(s, path),
    ensures
        ({
            let addr = place_for(s, regs.sp, path);
            let entered = next(s, start, Answer::Regs(Some(regs)));
            let body = next(s, entered.0, Answer::Text(Some(path)));
            let tail = next(s, body.0, Answer::Flag(true));
            let closed = next(s, tail.0, Answer::Flag(true));
            let saved = next(s, closed.0, Answer::Flag(true));
            &&& entered.1 == Need::<Seq<u8>>::ReadText(regs.arg(slot as int))
            &&& writes_text(body.1, tail.1, addr, translated(s, path))
            &&& closed.1 == Need::<Seq<u8>>::WriteRegs(regs.with_arg(slot as int, addr))
            &&& saved.1 == Need::<Seq<u8>>::Finish(false)
            &&& shows(with_text(mem, addr, translated(s, path)), addr, translated(s, path))
        }),
{
    lemma_has_place(s, regs.sp, path);
    lemma_text_shows(mem, place_for(s, regs.sp, path), translated(s, path));
}

/// A traced call that runs a program gets the translation of the program's path, and the tracer leaves
/// the process afterwards if the program is not static.
pub proof fn law_traced_program_is_translated(
    s: Settings,
    start: Stop<Seq<u8>>,
    arch: Arch,
    regs: Regs,
    path: Seq<u8>,
    is_static: bool,
    mem: spec_fn(u64) -> u8,
)
    requires
        start.phase == Phase::<Seq<u8>>::Start(arch),
        kind_of(arch, regs.sysno) == Kind::Exec,
        regs.a0 != 0,
        is_given_a_place(s, path),
    ensures
        ({
            let addr = place_for(s, regs.sp, path);
            let entered = next(s, start, Answer::Regs(Some(regs)));
            let named = next(s, entered.0, Answer::Text(Some(path)));
            let probed = next(s, named.0, Answer::Flag(is_static));
            let body = next(s, probed.0, Answer::Text(Some(path)));
            let tail = next(s, body.0, Answer::Flag(true));
            let closed = next(s, tail.0, Answer::Flag(true));
            let saved = next(s, closed.0, Answer::Flag(true));
            &&& entered.1 == Need::<Seq<u8>>::ReadText(regs.a0)
            &&& named.1 == Need::ProbeStatic(path)
            &&& probed.1 == Need::<Seq<u8>>::ReadText(regs.a0)
            &&& writes_text(body.1, tail.1, addr, translated(s, path))
            &&& closed.1 == Need::<Seq<u8>>::WriteRegs(regs.with_arg(0, addr))
            &&& saved.1 == Need::<Seq<u8>>::Finish(!is_static)
            &&& shows(with_text(mem, addr, translated(s, path)), addr, translated(s, path))
        }),
{
    lemma_has_place(s, regs.sp, path);
    lemma_text_shows(mem, place_for(s, regs.sp, path), translated(s, path));
}

/// A traced call that runs a program from a directory gets the translation of the program's path where
/// that is absolute, and the tracer leaves the process afterwards if the program is not static.
pub proof fn law_traced_program_at_is_translated(
    s: Settings,
    start: Stop<Seq<u8>>,
    arch: Arch,
    regs: Regs,
    path: Seq<u8>,
    is_static: bool,
    now: Regs,
    mem: spec_fn(u64) -> u8,
)
    requires
        start.phase == Phase::<Seq<u8>>::Start(arch),
        kind_of(arch, regs.sysno) == Kind::ExecAt,
        regs.a1 != 0,
        is_given_a_place(s, path),
    ensures
        ({
            let addr = place_for(s, now.sp, path);
            let entered = next(s, start, Answer::Regs(Some(regs)));
            let named = next(s, entered.0, Answer::Text(Some(path)));
            let probed = next(s, named.0, Answer::Flag(is_static));
            let read = next(s, probed.0, Answer::Text(Some(path)));
            let body = next(s, read.0, Answer::Regs(Some(now)));
            let tail = next(s, body.0, Answer::Flag(true));
            let closed = next(s, tail.0, Answer::Flag(true));
            let saved = next(s, closed.0, Answer::Flag(true));
            &&& entered.1 == Need::<Seq<u8>>::ReadText(regs.a1)
            &&& named.1 == Need::ProbeStatic(path)
            &&& probed.1 == Need::<Seq<u8>>::ReadText(regs.a1)
            &&& read.1 == Need::<Seq<u8>>::ReadRegs
            &&& writes_text(body.1, tail.1, addr, translated(s, path))
            &&& closed.1 == Need::<Seq<u8>>::WriteRegs(regs.with_arg(1, addr))
            &&& saved.1 == Need::<Seq<u8>>::Finish(!is_static)
            &&& shows(with_text(mem, addr, translated(s, path)), addr, translated(s, path))
        }),
{
    lemma_has_place(s, now.sp, path);
    lemma_text_shows(mem, place_for(s, now.sp, path), translated(s, path));
}

/// Whether memory shows two texts at two addresses, and the two do not overlap.
pub open spec fn shows_both(
    mem: spec_fn(u64) -> u8,
    first: u64,
    old_text: Seq<u8>,
    second: u64,
    new_text: Seq<u8>,
) -> bool {
    &&& shows(mem, first, old_text)
    &&& shows(mem, second, new_text)
    &&& forall|i: int, j: int|
        0 <= i <= old_text.len() && 0 <= j <= new_text.len() ==> #[trigger] offset_addr(first, i)
            != #[trigger] offset_addr(second, j)
}

/// A traced call with two directories and two absolute paths that translation moves gets both
/// translations: if the process answers every question, they are written to places that do not overlap,
/// its memory shows each at the address that its own argument is changed to, and no other register
/// changes.
pub proof fn law_traced_paths_are_both_translated(
    s: Settings,
    start: Stop<Seq<u8>>,
    arch: Arch,
    regs: Regs,
    old_path: Seq<u8>,
    new_path: Seq<u8>,
    now: Regs,
    later: Regs,
    mem: spec_fn(u64) -> u8,
)
    requires
        start.phase == Phase::<Seq<u8>>::Start(arch),
        kind_of(arch, regs.sysno) == Kind::Both,
        is_given_a_place(s, old_path),
        is_given_a_place(s, new_path),
    ensures
        ({
            let first = place_for(s, now.sp, old_path);
            let second = place_for(s, first, new_path);
            let entered = next(s, start, Answer::Regs(Some(regs)));
            let read = next(s, entered.0, Answer::Text(Some(old_path)));
            let body = next(s, read.0, Answer::Regs(Some(now)));
            let tail = next(s, body.0, Answer::Flag(true));
            let between = next(s, tail.0, Answer::Flag(true));
            let again = next(s, between.0, Answer::Text(Some(new_path)));
            let more = next(s, again.0, Answer::Regs(Some(later)));
            let end = next(s, more.0, Answer::Flag(true));
            let closed = next(s, end.0, Answer::Flag(true));
            let saved = next(s, closed.0, Answer::Flag(true));
            &&& entered.1 == Need::<Seq<u8>>::ReadText(regs.a1)
            &&& read.1 == Need::<Seq<u8>>::ReadRegs
            &&& writes_text(body.1, tail.1, first, translated(s, old_path))
            &&& between.1 == Need::<Seq<u8>>::ReadText(regs.a3)
            &&& again.1 == Need::<Seq<u8>>::ReadRegs
            &&& writes_text(more.1, end.1, second, translated(s, new_path))
            &&& closed.1 == Need::<Seq<u8>>::WriteRegs(regs.with_arg(1, first).with_arg(3, second))
            &&& saved.1 == Need::<Seq<u8>>::Finish(false)
            &&& shows_both(
                with_text(
                    with_text(mem, first, translated(s, old_path)),
                    second,
                    translated(s, new_path),
                ),
                first,
                translated(s, old_path),
                second,
                translated(s, new_path),
            )
        }),
{
    lemma_two_places(s, now.sp, old_path, new_path, mem);
}

/// A traced call with two absolute paths that translation moves, and without directories, gets both
/// translations, each at a place of its own.
pub proof fn law_traced_pair_is_translated(
    s: Settings,
    start: Stop<Seq<u8>>,
    arch: Arch,
    regs: Regs,
    old_path: Seq<u8>,
    new_path: Seq<u8>,
    mem: spec_fn(u64) -> u8,
)
    requires
        start.phase == Phase::<Seq<u8>>::Start(arch),
        kind_of(arch, regs.sysno) == Kind::Pair,
        is_given_a_place(s, old_path),
        is_given_a_place(s, new_path),
    ensures
        ({
            let first = place_for(s, regs.sp, old_path);
            let second = place_for(s, first, new_path);
            let entered = next(s, start, Answer::Regs(Some(regs)));
            let body = next(s, entered.0, Answer::Text(Some(old_path)));
            let tail = next(s, body.0, Answer::Flag(true));
            let between = next(s, tail.0, Answer::Flag(true));
            let more = next(s, between.0, Answer::Text(Some(new_path)));
            let end = next(s, more.0, Answer::Flag(true));
            let closed = next(s, end.0, Answer::Flag(true));
            let saved = next(s, closed.0, Answer::Flag(true));
            &&& entered.1 == Need::<Seq<u8>>::ReadText(regs.a0)
            &&& writes_text(body.1, tail.1, first, translated(s, old_path))
            &&& between.1 == Need::<Seq<u8>>::ReadText(regs.a1)
            &&& writes_text(more.1, end.1, second, translated(s, new_path))
            &&& closed.1 == Need::<Seq<u8>>::WriteRegs(regs.with_arg(0, first).with_arg(1, second))
            &&& saved.1 == Need::<Seq<u8>>::Finish(false)
            &&& shows_both(
                with_text(
                    with_text(mem, first, translated(s, old_path)),
                    second,
                    translated(s, new_path),
                ),
                first,
                translated(s, old_path),
                second,
                translated(s, new_path),
            )
        }),
{
    lemma_two_places(s, regs.sp, old_path, new_path, mem);
}

/// Two translations that are written one below the other can both be read.
proof fn lemma_two_places(
    s: Settings,
    sp: u64,
    old_path: Seq<u8>,
    new_path: Seq<u8>,
    mem: spec_fn(u64) -> u8,
)
    requires
        is_given_a_place(s, old_path),
        is_given_a_place(s, new_path),
    ensures
        ({
            let first = place_for(s, sp, old_path);
            let second = place_for(s, first, new_path);
            let one = with_text(mem, first, translated(s, old_path));
            &&& scratch_at(sp, translated(s, old_path).len() as int) == Some(first)
            &&& scratch_at(first, translated(s, new_path).len() as int) == Some(second)
            &&& shows_both(
                with_text(one, second, translated(s, new_path)),
                first,
                translated(s, old_path),
                second,
                translated(s, new_path),
            )
        }),
{
    let first = place_for(s, sp, old_path);
    let second = place_for(s, first, new_path);
    let one = with_text(mem, first, translated(s, old_path));
    lemma_has_place(s, sp, old_path);
    lemma_has_place(s, first, new_path);
    lemma_text_shows(mem, first, translated(s, old_path));
    lemma_text_shows(one, second, translated(s, new_path));
    lemma_text_below(one, first, translated(s, old_path), second, translated(s, new_path));
}

/// The tracer leaves a process after a call only if the call runs a program that is not static: that is
/// settled when the program is looked at, and nothing later changes it.
pub proof fn law_static_programs_stay_traced(
    s: Settings,
    stop: Stop<Seq<u8>>,
    answer: Answer<Seq<u8>>,
)
    ensures
        stop.phase is Start ==> !next(s, stop, answer).0.detach,
        stop.phase is ExecProbe ==> next(s, stop, answer).0.detach == !answer.flag(),
        !(stop.phase is Start || stop.phase is ExecText || stop.phase is ExecProbe) ==> next(
            s,
            stop,
            answer,
        ).0.detach == stop.detach,
        stop.phase is ExecText && !stop.detach ==> !next(s, stop, answer).0.detach,
        next(s, stop, answer).1 matches Need::Finish(leave) ==> leave == next(
            s,
            stop,
            answer,
        ).0.detach,
{
}

/// On 64-bit ARM these are the numbers of all the calls whose paths are translated, each under what it does with
/// them.
pub proof fn law_calls_on_arm64(sysno: i64)
    ensures
        kind_of(Arch::Aarch64, sysno) == Kind::Exec <==> seq![
            221i64,
        ].contains(sysno),
        kind_of(Arch::Aarch64, sysno) == Kind::ExecAt <==> seq![
            281i64,
        ].contains(sysno),
        kind_of(Arch::Aarch64, sysno) == Kind::At <==> seq![
            34i64, 35i64, 48i64, 53i64, 54i64, 56i64, 78i64, 79i64, 88i64, 291i64, 437i64,
            439i64, 452i64,
        ].contains(sysno),
        kind_of(Arch::Aarch64, sysno) == Kind::First <==> seq![
            8i64, 9i64, 11i64, 12i64, 39i64, 43i64, 45i64, 49i64,
        ].contains(sysno),
        kind_of(Arch::Aarch64, sysno) == Kind::Second <==> seq![
            40i64,
        ].contains(sysno),
        kind_of(Arch::Aarch64, sysno) == Kind::Third <==> seq![
            36i64,
        ].contains(sysno),
        kind_of(Arch::Aarch64, sysno) == Kind::Both <==> seq![
            37i64, 38i64, 276i64,
        ].contains(sysno),
        kind_of(Arch::Aarch64, sysno) != Kind::Pair,
{
    let exec_list = seq![
        221i64,
    ];
    assert(exec_list[0] == 221);
    let execat_list = seq![
        281i64,
    ];
    assert(execat_list[0] == 281);
    let at_list = seq![
        34i64, 35i64, 48i64, 53i64, 54i64, 56i64, 78i64, 79i64, 88i64, 291i64, 437i64, 439i64,
        452i64,
    ];
    assert(at_list[0] == 34 && at_list[1] == 35 && at_list[2] == 48 && at_list[3] == 53
        && at_list[4] == 54 && at_list[5] == 56 && at_list[6] == 78 && at_list[7] == 79
        && at_list[8] == 88 && at_list[9] == 291 && at_list[10] == 437 && at_list[11] == 439
        && at_list[12] == 452);
    let first_list = seq![
        8i64, 9i64, 11i64, 12i64, 39i64, 43i64, 45i64, 49i64,
    ];
    assert(first_list[0] == 8 && first_list[1] == 9 && first_list[2] == 11
        && first_list[3] == 12 && first_list[4] == 39 && first_list[5] == 43
        && first_list[6] == 45 && first_list[7] == 49);
    let second_list = seq![
        40i64,
    ];
    assert(second_list[0] == 40);
    let third_list = seq![
        36i64,
    ];
    assert(third_list[0] == 36);
    let both_list = seq![
        37i64, 38i64, 276i64,
    ];
    assert(both_list[0] == 37 && both_list[1] == 38 && both_list[2] == 276);
}

/// On 64-bit x86 these are the numbers of all the calls whose paths are translated, each under what it does with
/// them.
pub proof fn law_calls_on_x86_64(sysno: i64)
    ensures
        kind_of(Arch::X86_64, sysno) == Kind::Exec <==> seq![
            59i64,
        ].contains(sysno),
        kind_of(Arch::X86_64, sysno) == Kind::ExecAt <==> seq![
            322i64,
        ].contains(sysno),
        kind_of(Arch::X86_64, sysno) == Kind::At <==> seq![
            257i64, 258i64, 260i64, 261i64, 262i64, 263i64, 267i64, 268i64, 269i64, 280i64,
            332i64, 437i64, 439i64, 452i64,
        ].contains(sysno),
        kind_of(Arch::X86_64, sysno) == Kind::First <==> seq![
            2i64, 4i64, 6i64, 21i64, 76i64, 80i64, 83i64, 84i64, 85i64, 87i64, 89i64, 90i64,
            92i64, 94i64, 132i64, 137i64, 166i64, 191i64, 192i64, 194i64, 195i64, 235i64,
        ].contains(sysno),
        kind_of(Arch::X86_64, sysno) == Kind::Second <==> seq![
            88i64, 165i64,
        ].contains(sysno),
        kind_of(Arch::X86_64, sysno) == Kind::Third <==> seq![
            266i64,
        ].contains(sysno),
        kind_of(Arch::X86_64, sysno) == Kind::Both <==> seq![
            264i64, 265i64, 316i64,
        ].contains(sysno),
        kind_of(Arch::X86_64, sysno) == Kind::Pair <==> seq![
            82i64, 86i64,
        ].contains(sysno),
{
    let exec_list = seq![
        59i64,
    ];
    assert(exec_list[0] == 59);
    let execat_list = seq![
        322i64,
    ];
    assert(execat_list[0] == 322);
    let at_list = seq![
        257i64, 258i64, 260i64, 261i64, 262i64, 263i64, 267i64, 268i64, 269i64, 280i64, 332i64,
        437i64, 439i64, 452i64,
    ];
    assert(at_list[0] == 257 && at_list[1] == 258 && at_list[2] == 260 && at_list[3] == 261
        && at_list[4] == 262 && at_list[5] == 263 && at_list[6] == 267 && at_list[7] == 268
        && at_list[8] == 269 && at_list[9] == 280 && at_list[10] == 332 && at_list[11] == 437
        && at_list[12] == 439 && at_list[13] == 452);
    let first_list = seq![
        2i64, 4i64, 6i64, 21i64, 76i64, 80i64, 83i64, 84i64, 85i64, 87i64, 89i64, 90i64, 92i64,
        94i64, 132i64, 137i64, 166i64, 191i64, 192i64, 194i64, 195i64, 235i64,
    ];
    assert(first_list[0] == 2 && first_list[1] == 4 && first_list[2] == 6 && first_list[3] == 21
        && first_list[4] == 76 && first_list[5] == 80 && first_list[6] == 83
        && first_list[7] == 84 && first_list[8] == 85 && first_list[9] == 87
        && first_list[10] == 89 && first_list[11] == 90 && first_list[12] == 92
        && first_list[13] == 94 && first_list[14] == 132 && first_list[15] == 137
        && first_list[16] == 166 && first_list[17] == 191 && first_list[18] == 192
        && first_list[19] == 194 && first_list[20] == 195 && first_list[21] == 235);
    let second_list = seq![
        88i64, 165i64,
    ];
    assert(second_list[0] == 88 && second_list[1] == 165);
    let third_list = seq![
        266i64,
    ];
    assert(third_list[0] == 266);
    let both_list = seq![
        264i64, 265i64, 316i64,
    ];
    assert(both_list[0] == 264 && both_list[1] == 265 && both_list[2] == 316);
    let pair_list = seq![
        82i64, 86i64,
    ];
    assert(pair_list[0] == 82 && pair_list[1] == 86);
}

/// On 32-bit x86 these are the numbers of all the calls whose paths are translated, each under what it does with
/// them.
pub proof fn law_calls_on_x86(sysno: i64)
    ensures
        kind_of(Arch::X86, sysno) == Kind::Exec <==> seq![
            11i64,
        ].contains(sysno),
        kind_of(Arch::X86, sysno) == Kind::ExecAt <==> seq![
            358i64,
        ].contains(sysno),
        kind_of(Arch::X86, sysno) == Kind::At <==> seq![
            295i64, 296i64, 298i64, 299i64, 300i64, 301i64, 305i64, 306i64, 307i64, 320i64,
            383i64, 412i64, 437i64, 439i64, 452i64,
        ].contains(sysno),
        kind_of(Arch::X86, sysno) == Kind::First <==> seq![
            5i64, 8i64, 10i64, 12i64, 15i64, 16i64, 18i64, 22i64, 30i64, 33i64, 39i64, 40i64,
            52i64, 84i64, 85i64, 92i64, 99i64, 106i64, 107i64, 182i64, 193i64, 195i64, 196i64,
            198i64, 212i64, 229i64, 230i64, 232i64, 233i64, 268i64, 271i64,
        ].contains(sysno),
        kind_of(Arch::X86, sysno) == Kind::Second <==> seq![
            21i64, 83i64,
        ].contains(sysno),
        kind_of(Arch::X86, sysno) == Kind::Third <==> seq![
            304i64,
        ].contains(sysno),
        kind_of(Arch::X86, sysno) == Kind::Both <==> seq![
            302i64, 303i64, 353i64,
        ].contains(sysno),
        kind_of(Arch::X86, sysno) == Kind::Pair <==> seq![
            9i64, 38i64,
        ].contains(sysno),
{
    let exec_list = seq![
        11i64,
    ];
    assert(exec_list[0] == 11);
    let execat_list = seq![
        358i64,
    ];
    assert(execat_list[0] == 358);
    let at_list = seq![
        295i64, 296i64, 298i64, 299i64, 300i64, 301i64, 305i64, 306i64, 307i64, 320i64, 383i64,
        412i64, 437i64, 439i64, 452i64,
    ];
    assert(at_list[0] == 295 && at_list[1] == 296 && at_list[2] == 298 && at_list[3] == 299
        && at_list[4] == 300 && at_list[5] == 301 && at_list[6] == 305 && at_list[7] == 306
        && at_list[8] == 307 && at_list[9] == 320 && at_list[10] == 383 && at_list[11] == 412
        && at_list[12] == 437 && at_list[13] == 439 && at_list[14] == 452);
    let first_list = seq![
        5i64, 8i64, 10i64, 12i64, 15i64, 16i64, 18i64, 22i64, 30i64, 33i64, 39i64, 40i64, 52i64,
        84i64, 85i64, 92i64, 99i64, 106i64, 107i64, 182i64, 193i64, 195i64, 196i64, 198i64,
        212i64, 229i64, 230i64, 232i64, 233i64, 268i64, 271i64,
    ];
    assert(first_list[0] == 5 && first_list[1] == 8 && first_list[2] == 10
        && first_list[3] == 12 && first_list[4] == 15 && first_list[5] == 16
        && first_list[6] == 18 && first_list[7] == 22 && first_list[8] == 30
        && first_list[9] == 33 && first_list[10] == 39 && first_list[11] == 40
        && first_list[12] == 52 && first_list[13] == 84 && first_list[14] == 85
        && first_list[15] == 92 && first_list[16] == 99 && first_list[17] == 106
        && first_list[18] == 107 && first_list[19] == 182 && first_list[20] == 193
        && first_list[21] == 195 && first_list[22] == 196 && first_list[23] == 198
        && first_list[24] == 212 && first_list[25] == 229 && first_list[26] == 230
        && first_list[27] == 232 && first_list[28] == 233 && first_list[29] == 268
        && first_list[30] == 271);
    let second_list = seq![
        21i64, 83i64,
    ];
    assert(second_list[0] == 21 && second_list[1] == 83);
    let third_list = seq![
        304i64,
    ];
    assert(third_list[0] == 304);
    let both_list = seq![
        302i64, 303i64, 353i64,
    ];
    assert(both_list[0] == 302 && both_list[1] == 303 && both_list[2] == 353);
    let pair_list = seq![
        9i64, 38i64,
    ];
    assert(pair_list[0] == 9 && pair_list[1] == 38);
}

/// Changing an argument changes that one and nothing else.
pub proof fn law_registers(regs: Regs, n: int, m: int, val: u64)
    requires
        0 <= n < 6,
    ensures
        regs.with_arg(n, val).arg(n) == val,
        m != n ==> regs.with_arg(n, val).arg(m) == regs.arg(m),
        regs.with_arg(n, val).sysno == regs.sysno,
        regs.with_arg(n, val).sp == regs.sp,
        regs.arg(0) == regs.a0 && regs.arg(1) == regs.a1 && regs.arg(2) == regs.a2 && regs.arg(3)
            == regs.a3 && regs.arg(4) == regs.a4 && regs.arg(5) == regs.a5,
{
}

/// A text and the zero byte behind it take the fewest whole blocks of 16 bytes that hold them, right below
/// the given address; a text of 4096 bytes or more has no place.
pub proof fn law_scratch(sp: u64, len: nat)
    ensures
        len >= 4096 <==> scratch_at(sp, len as int) is None,
        len < 4096 ==> {
            let size = distance(scratch_at(sp, len as int)->0, sp);
            size % 16 == 0 && len + 1 <= size <= len + 16
        },
{
}

/// A number in a path below `/proc` stands there in decimal: a descriptor below zero behind a dash, and a
/// process below zero not at all.
pub proof fn law_numbers_below_proc(n: i32)
    requires
        n > i32::MIN,
    ensures
        n >= 0 ==> crate::bytes::digits_value(pid_digits(n)) == n && pid_digits(n).len() > 0,
        n >= 0 ==> fd_digits(n) == pid_digits(n),
        n < 0 ==> pid_digits(n).len() == 0,
        n < 0 ==> fd_digits(n).len() > 1 && fd_digits(n)[0] == 0x2d && crate::bytes::digits_value(
            fd_digits(n).skip(1),
        ) == -n,
{
    if n >= 0 {
        crate::bytes::law_decimal(n as nat);
    } else {
        crate::bytes::law_decimal((-n) as nat);
        assert(fd_digits(n).skip(1) =~= decimal((-n) as nat));
    }
}

/// The first question behind the registers is for the path that the call takes, at the argument that holds
/// it; a call without such a path, and one whose only path is the null pointer, goes on as it is. Nothing is
/// asked for where the registers cannot be read.
pub proof fn law_entry(s: Settings, start: Stop<Seq<u8>>, arch: Arch, regs: Regs)
    requires
        start.phase == Phase::<Seq<u8>>::Start(arch),
    ensures
        next(s, start, Answer::Regs(None)).1 == Need::<Seq<u8>>::Finish(false),
        ({
            let kind = kind_of(arch, regs.sysno);
            let step = next(s, start, Answer::Regs(Some(regs)));
            &&& step.0.regs == regs
            &&& kind == Kind::Other ==> step.1 == Need::<Seq<u8>>::Finish(false)
            &&& kind == Kind::At || kind == Kind::Both ==> step.1 == Need::<Seq<u8>>::ReadText(
                regs.a1,
            )
            &&& kind == Kind::Pair ==> step.1 == Need::<Seq<u8>>::ReadText(regs.a0)
            &&& kind == Kind::Exec || kind == Kind::First ==> step.1 == (if regs.a0 == 0 {
                Need::<Seq<u8>>::Finish(false)
            } else {
                Need::<Seq<u8>>::ReadText(regs.a0)
            })
            &&& kind == Kind::ExecAt || kind == Kind::Second ==> step.1 == (if regs.a1 == 0 {
                Need::<Seq<u8>>::Finish(false)
            } else {
                Need::<Seq<u8>>::ReadText(regs.a1)
            })
            &&& kind == Kind::Third ==> step.1 == (if regs.a2 == 0 {
                Need::<Seq<u8>>::Finish(false)
            } else {
                Need::<Seq<u8>>::ReadText(regs.a2)
            })
        }),
{
}

/// A program that is not named by an absolute path, or whose name cannot be read, is left to the kernel,
/// and the tracer stays.
pub proof fn law_program_without_absolute_path(
    s: Settings,
    start: Stop<Seq<u8>>,
    arch: Arch,
    regs: Regs,
    text: Option<Seq<u8>>,
)
    requires
        start.phase == Phase::<Seq<u8>>::Start(arch),
        (kind_of(arch, regs.sysno) == Kind::Exec && regs.a0 != 0) || (kind_of(arch, regs.sysno)
            == Kind::ExecAt && regs.a1 != 0),
        text is None || text->0.len() == 0 || text->0[0] != 0x2f,
    ensures
        ({
            let entered = next(s, start, Answer::Regs(Some(regs)));
            next(s, entered.0, Answer::Text(text)).1 == Need::<Seq<u8>>::Finish(false)
        }),
{
}

/// What follows on a path argument that keeps its place: a call with one path goes on as it is, and one with
/// two goes on to its second path, or has its registers written back if it was that.
pub open spec fn goes_on_without(stop: Stop<Seq<u8>>, job: Job, need: Need<Seq<u8>>) -> bool {
    match job.goal {
        Goal::First => need == Need::<Seq<u8>>::ReadText(
            if job.dirfd is Some {
                stop.regs.a3
            } else {
                stop.regs.a1
            },
        ),
        Goal::Second => need == Need::<Seq<u8>>::WriteRegs(stop.regs),
        _ => need == Need::<Seq<u8>>::Finish(stop.detach),
    }
}

/// Where the process gives no answer to a question about a path argument, or a write to its memory fails,
/// that argument keeps its place and the work goes on without it.
pub proof fn law_unanswered(s: Settings, stop: Stop<Seq<u8>>, answer: Answer<Seq<u8>>, job: Job)
    requires
        job_in(stop.phase) == Some(job),
        answer == Answer::<Seq<u8>>::Regs(None) || answer == Answer::<Seq<u8>>::Text(None) || answer
            == Answer::<Seq<u8>>::Flag(false),
    ensures
        next(s, stop, answer).0.regs == stop.regs,
        goes_on_without(stop, job, next(s, stop, answer).1),
{
}

/// A path that translation does not move is not written anywhere, and the work goes on without it. Such are
/// all relative paths of a call that takes no directory or counts from the current one. Only a call that
/// runs a program from a directory still has its registers written back, as they are.
pub proof fn law_path_that_stays(s: Settings, stop: Stop<Seq<u8>>, job: Job, path: Seq<u8>)
    requires
        stop.phase == Phase::<Seq<u8>>::Text(job),
        job.dirfd is None || path.len() == 0 || path[0] == 0x2f || job.dirfd == Some(-100i32),
        translated(s, path) == path,
    ensures
        next(s, stop, Answer::Text(Some(path))).0.regs == stop.regs,
        goes_on_without(stop, job, next(s, stop, Answer::Text(Some(path))).1) || (job.goal
            == Goal::IfPlaced && job.dirfd is Some && next(s, stop, Answer::Text(Some(path))).1
            == Need::<Seq<u8>>::WriteRegs(stop.regs)),
        job.goal == Goal::IfPlaced && (job.dirfd is None || path.len() == 0 || path[0] != 0x2f)
            ==> goes_on_without(stop, job, next(s, stop, Answer::Text(Some(path))).1),
{
}

/// A relative path of a call that counts from another directory than the current one has the path of that
/// directory asked for; where translation leaves the path from there alone, nothing is written.
pub proof fn law_relative_path_that_stays(
    s: Settings,
    stop: Stop<Seq<u8>>,
    job: Job,
    path: Seq<u8>,
    dir: Seq<u8>,
)
    requires
        stop.phase == Phase::<Seq<u8>>::Text(job),
        job.dirfd is Some,
        job.dirfd->0 != -100,
        path.len() > 0,
        path[0] != 0x2f,
        translated(s, dir + seq![0x2f] + path) == dir + seq![0x2f] + path,
    ensures
        ({
            let read = next(s, stop, Answer::Text(Some(path)));
            let found = next(s, read.0, Answer::Text(Some(dir)));
            &&& read.1 == Need::<Seq<u8>>::ReadLink(job.dirfd->0)
            &&& found.0.regs == stop.regs
            &&& goes_on_without(stop, job, found.1) || (job.goal == Goal::IfPlaced && found.1
                == Need::<Seq<u8>>::WriteRegs(stop.regs))
        }),
{
}

/// A translation that was written to the memory of the process is used: once the zero byte behind it is
/// written, the path argument is changed to its address, and the registers are written back with it; a
/// call with two paths first goes on to its second one, with the registers changed. Nothing is written back
/// where a call's only path has the address already that it would be changed to.
pub proof fn law_written_path_is_used(s: Settings, stop: Stop<Seq<u8>>, job: Job, addr: u64)
    requires
        stop.phase == Phase::<Seq<u8>>::Tail(job, addr),
        in_step(stop),
    ensures
        ({
            let step = next(s, stop, Answer::Flag(true));
            &&& step.0.regs == stop.regs.with_arg(job.slot as int, addr)
            &&& job.goal == Goal::First ==> step.1 is ReadText && job_in(step.0.phase) is Some
                && job_in(step.0.phase)->0.goal == Goal::Second
            &&& job.goal == Goal::IfPlaced || job.goal == Goal::Second ==> step.1 == Need::<
                Seq<u8>,
            >::WriteRegs(step.0.regs)
            &&& job.goal == Goal::IfMoved && addr != stop.regs.arg(job.slot as int) ==> step.1
                == Need::<Seq<u8>>::WriteRegs(step.0.regs)
        }),
{
}

/// The work ends behind the registers that were written back, with the process being left as was settled
/// before.
pub proof fn law_saved_is_over(s: Settings, stop: Stop<Seq<u8>>, answer: Answer<Seq<u8>>)
    requires
        stop.phase is Save || stop.phase is Over,
    ensures
        next(s, stop, answer).1 == Need::<Seq<u8>>::Finish(stop.detach),
{
}

/// What is asked of the process in the course of the given answers.
pub open spec fn questions(
    s: Settings,
    stop: Stop<Seq<u8>>,
    answers: Seq<Answer<Seq<u8>>>,
) -> Seq<Need<Seq<u8>>>
    decreases answers.len(),
{
    if answers.len() == 0 {
        Seq::empty()
    } else {
        let step = next(s, stop, answers[0]);
        seq![step.1] + questions(s, step.0, answers.skip(1))
    }
}

/// Whether the registers are written back at some point, with this argument.
pub open spec fn writes_back(asked: Seq<Need<Seq<u8>>>, slot: int, addr: u64) -> bool {
    exists|k: int|
        0 <= k < asked.len() && (#[trigger] asked[k]) is WriteRegs && asked[k]->WriteRegs_0.arg(slot)
            == addr
}

/// The work on the second path of a call never ends without the registers being written back, with the other
/// arguments as they are, whatever the process answers.
proof fn lemma_second_path_saves(
    s: Settings,
    stop: Stop<Seq<u8>>,
    answers: Seq<Answer<Seq<u8>>>,
    job: Job,
    slot: int,
)
    requires
        job_in(stop.phase) == Some(job),
        job.goal == Goal::Second,
        slot != job.slot,
        questions(s, stop, answers).len() > 0,
        questions(s, stop, answers).last() is Finish,
    ensures
        writes_back(questions(s, stop, answers), slot, stop.regs.arg(slot)),
    decreases answers.len(),
{
    let step = next(s, stop, answers[0]);
    let rest = questions(s, step.0, answers.skip(1));
    let all = questions(s, stop, answers);
    assert(all[0] == step.1);
    if step.1 is WriteRegs {
        assert(all[0]->WriteRegs_0.arg(slot) == stop.regs.arg(slot));
    } else {
        assert(!(step.1 is Finish));
        assert(rest.len() > 0) by {
            if rest.len() == 0 {
                assert(all.last() == step.1);
            }
        }
        assert(rest.last() == all.last());
        assert(job_in(step.0.phase) == Some(job));
        assert(step.0.regs == stop.regs);
        lemma_second_path_saves(s, step.0, answers.skip(1), job, slot);
        let k = choose|k: int|
            0 <= k < rest.len() && (#[trigger] rest[k]) is WriteRegs && rest[k]->WriteRegs_0.arg(slot)
                == stop.regs.arg(slot);
        assert(all[k + 1] == rest[k]);
    }
}

/// The first path of a call with two directories is not lost: once its translation is written, no course of
/// answers about the second path ends without the registers being written back with the address of that
/// translation, be the second path relative, the kernel's, or not to be read at all.
pub proof fn law_first_path_is_not_lost(
    s: Settings,
    start: Stop<Seq<u8>>,
    arch: Arch,
    regs: Regs,
    path: Seq<u8>,
    now: Regs,
    later: Seq<Answer<Seq<u8>>>,
)
    requires
        start.phase == Phase::<Seq<u8>>::Start(arch),
        kind_of(arch, regs.sysno) == Kind::Both,
        is_given_a_place(s, path),
    ensures
        ({
            let addr = place_for(s, now.sp, path);
            let entered = next(s, start, Answer::Regs(Some(regs)));
            let read = next(s, entered.0, Answer::Text(Some(path)));
            let body = next(s, read.0, Answer::Regs(Some(now)));
            let tail = next(s, body.0, Answer::Flag(true));
            let between = next(s, tail.0, Answer::Flag(true));
            let asked = questions(s, between.0, later);
            &&& writes_text(body.1, tail.1, addr, translated(s, path))
            &&& between.1 == Need::<Seq<u8>>::ReadText(regs.a3)
            &&& asked.len() > 0 && asked.last() is Finish ==> writes_back(asked, 1, addr)
        }),
{
    lemma_has_place(s, now.sp, path);
    let addr = place_for(s, now.sp, path);
    let entered = next(s, start, Answer::Regs(Some(regs)));
    let read = next(s, entered.0, Answer::Text(Some(path)));
    let body = next(s, read.0, Answer::Regs(Some(now)));
    let tail = next(s, body.0, Answer::Flag(true));
    let between = next(s, tail.0, Answer::Flag(true));
    let asked = questions(s, between.0, later);
    if asked.len() > 0 && asked.last() is Finish {
        let job = job_in(between.0.phase)->0;
        assert(between.0.regs.arg(1) == addr);
        lemma_second_path_saves(s, between.0, later, job, 1);
    }
}

/// The first path of a call with two paths and no directories is not lost either.
pub proof fn law_first_of_pair_is_not_lost(
    s: Settings,
    start: Stop<Seq<u8>>,
    arch: Arch,
    regs: Regs,
    path: Seq<u8>,
    later: Seq<Answer<Seq<u8>>>,
)
    requires
        start.phase == Phase::<Seq<u8>>::Start(arch),
        kind_of(arch, regs.sysno) == Kind::Pair,
        is_given_a_place(s, path),
    ensures
        ({
            let addr = place_for(s, regs.sp, path);
            let entered = next(s, start, Answer::Regs(Some(regs)));
            let body = next(s, entered.0, Answer::Text(Some(path)));
            let tail = next(s, body.0, Answer::Flag(true));
            let between = next(s, tail.0, Answer::Flag(true));
            let asked = questions(s, between.0, later);
            &&& writes_text(body.1, tail.1, addr, translated(s, path))
            &&& between.1 == Need::<Seq<u8>>::ReadText(regs.a1)
            &&& asked.len() > 0 && asked.last() is Finish ==> writes_back(asked, 0, addr)
        }),
{
    lemma_has_place(s, regs.sp, path);
    let addr = place_for(s, regs.sp, path);
    let entered = next(s, start, Answer::Regs(Some(regs)));
    let body = next(s, entered.0, Answer::Text(Some(path)));
    let tail = next(s, body.0, Answer::Flag(true));
    let between = next(s, tail.0, Answer::Flag(true));
    let asked = questions(s, between.0, later);
    if asked.len() > 0 && asked.last() is Finish {
        let job = job_in(between.0.phase)->0;
        assert(between.0.regs.arg(0) == addr);
        lemma_second_path_saves(s, between.0, later, job, 0);
    }
}

/// Where the first path of a call with two directories keeps its place, the second one's translation is
/// written below the stack and the registers are written back with its address alone changed.
pub proof fn law_second_path_alone(
    s: Settings,
    start: Stop<Seq<u8>>,
    arch: Arch,
    regs: Regs,
    old_path: Option<Seq<u8>>,
    new_path: Seq<u8>,
    now: Regs,
)
    requires
        start.phase == Phase::<Seq<u8>>::Start(arch),
        kind_of(arch, regs.sysno) == Kind::Both,
        old_path is None || old_path->0.len() == 0 || (old_path->0[0] == 0x2f && translated(
            s,
            old_path->0,
        ) == old_path->0) || (old_path->0[0] != 0x2f && regs.a0 as i32 == -100),
        is_given_a_place(s, new_path),
    ensures
        ({
            let addr = place_for(s, now.sp, new_path);
            let entered = next(s, start, Answer::Regs(Some(regs)));
            let between = next(s, entered.0, Answer::Text(old_path));
            let again = next(s, between.0, Answer::Text(Some(new_path)));
            let more = next(s, again.0, Answer::Regs(Some(now)));
            let end = next(s, more.0, Answer::Flag(true));
            let closed = next(s, end.0, Answer::Flag(true));
            &&& between.1 == Need::<Seq<u8>>::ReadText(regs.a3)
            &&& again.1 == Need::<Seq<u8>>::ReadRegs
            &&& writes_text(more.1, end.1, addr, translated(s, new_path))
            &&& closed.1 == Need::<Seq<u8>>::WriteRegs(regs.with_arg(3, addr))
        }),
{
    lemma_has_place(s, now.sp, new_path);
}

/// Where the first path of a call with two paths and no directories keeps its place, the second one's
/// translation is written below the stack and the registers are written back with its address alone changed.
pub proof fn law_second_of_pair_alone(
    s: Settings,
    start: Stop<Seq<u8>>,
    arch: Arch,
    regs: Regs,
    old_path: Option<Seq<u8>>,
    new_path: Seq<u8>,
)
    requires
        start.phase == Phase::<Seq<u8>>::Start(arch),
        kind_of(arch, regs.sysno) == Kind::Pair,
        old_path is None || translated(s, old_path->0) == old_path->0,
        is_given_a_place(s, new_path),
    ensures
        ({
            let addr = place_for(s, regs.sp, new_path);
            let entered = next(s, start, Answer::Regs(Some(regs)));
            let between = next(s, entered.0, Answer::Text(old_path));
            let more = next(s, between.0, Answer::Text(Some(new_path)));
            let end = next(s, more.0, Answer::Flag(true));
            let closed = next(s, end.0, Answer::Flag(true));
            &&& between.1 == Need::<Seq<u8>>::ReadText(regs.a1)
            &&& writes_text(more.1, end.1, addr, translated(s, new_path))
            &&& closed.1 == Need::<Seq<u8>>::WriteRegs(regs.with_arg(1, addr))
        }),
{
    lemma_has_place(s, regs.sp, new_path);
}

/// The second path counts from the second directory: a relative one has that directory's path asked for.
pub proof fn law_second_directory(
    s: Settings,
    start: Stop<Seq<u8>>,
    arch: Arch,
    regs: Regs,
    new_path: Seq<u8>,
)
    requires
        start.phase == Phase::<Seq<u8>>::Start(arch),
        kind_of(arch, regs.sysno) == Kind::Both,
        new_path.len() > 0,
        new_path[0] != 0x2f,
        regs.a2 as i32 != -100,
    ensures
        ({
            let entered = next(s, start, Answer::Regs(Some(regs)));
            let between = next(s, entered.0, Answer::Text(None));
            let again = next(s, between.0, Answer::Text(Some(new_path)));
            again.1 == Need::<Seq<u8>>::ReadLink(regs.a2 as i32)
        }),
{
}

/// Whichever path argument of a call counts from another directory than the current one: a relative path is
/// joined to the path of that directory by a slash, and where translation moves the whole, its translation is
/// written below the stack, or below the path that was written before it, and used.
pub proof fn law_relative_path_is_written(
    s: Settings,
    stop: Stop<Seq<u8>>,
    job: Job,
    path: Seq<u8>,
    dir: Seq<u8>,
    now: Regs,
)
    requires
        stop.phase == Phase::<Seq<u8>>::Text(job),
        in_step(stop),
        job.dirfd is Some,
        job.dirfd->0 != -100,
        path.len() > 0,
        path[0] != 0x2f,
        is_given_a_place(s, dir + seq![0x2f] + path),
    ensures
        ({
            let full = dir + seq![0x2f] + path;
            let top = if job.below is Some {
                job.below->0
            } else {
                now.sp
            };
            let addr = place_for(s, top, full);
            let read = next(s, stop, Answer::Text(Some(path)));
            let found = next(s, read.0, Answer::Text(Some(dir)));
            let body = next(s, found.0, Answer::Regs(Some(now)));
            let tail = next(s, body.0, Answer::Flag(true));
            let closed = next(s, tail.0, Answer::Flag(true));
            &&& read.1 == Need::<Seq<u8>>::ReadLink(job.dirfd->0)
            &&& found.1 == Need::<Seq<u8>>::ReadRegs
            &&& writes_text(body.1, tail.1, addr, translated(s, full))
            &&& closed.0.regs == stop.regs.with_arg(job.slot as int, addr)
        }),
{
    let full = dir + seq![0x2f] + path;
    let top = if job.below is Some {
        job.below->0
    } else {
        now.sp
    };
    lemma_has_place(s, top, full);
}

/// The two paths of a call with two directories count each from its own: the second one from the directory
/// in front of it and below the first one's place, where that was moved.
pub proof fn law_second_path_counts_from_its_directory(
    s: Settings,
    start: Stop<Seq<u8>>,
    arch: Arch,
    regs: Regs,
    old_path: Seq<u8>,
    new_path: Seq<u8>,
    dir: Seq<u8>,
    now: Regs,
    later: Regs,
)
    requires
        start.phase == Phase::<Seq<u8>>::Start(arch),
        kind_of(arch, regs.sysno) == Kind::Both,
        is_given_a_place(s, old_path),
        new_path.len() > 0,
        new_path[0] != 0x2f,
        regs.a2 as i32 != -100,
        is_given_a_place(s, dir + seq![0x2f] + new_path),
    ensures
        ({
            let full = dir + seq![0x2f] + new_path;
            let first = place_for(s, now.sp, old_path);
            let second = place_for(s, first, full);
            let entered = next(s, start, Answer::Regs(Some(regs)));
            let read = next(s, entered.0, Answer::Text(Some(old_path)));
            let body = next(s, read.0, Answer::Regs(Some(now)));
            let tail = next(s, body.0, Answer::Flag(true));
            let between = next(s, tail.0, Answer::Flag(true));
            let again = next(s, between.0, Answer::Text(Some(new_path)));
            let found = next(s, again.0, Answer::Text(Some(dir)));
            let more = next(s, found.0, Answer::Regs(Some(later)));
            let end = next(s, more.0, Answer::Flag(true));
            let closed = next(s, end.0, Answer::Flag(true));
            &&& between.1 == Need::<Seq<u8>>::ReadText(regs.a3)
            &&& again.1 == Need::<Seq<u8>>::ReadLink(regs.a2 as i32)
            &&& writes_text(more.1, end.1, second, translated(s, full))
            &&& closed.1 == Need::<Seq<u8>>::WriteRegs(regs.with_arg(1, first).with_arg(3, second))
        }),
{
    let full = dir + seq![0x2f] + new_path;
    lemma_has_place(s, now.sp, old_path);
    lemma_has_place(s, place_for(s, now.sp, old_path), full);
}

} // verus!
