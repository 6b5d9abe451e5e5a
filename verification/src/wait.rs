//! What the status of a child process says, and how the tracer goes on by it.
use vstd::prelude::*;

verus! {

/// The stop signal of a traced system call: a trap, marked by the tracer's option.
pub const SYSCALL_STOP: i32 = 0x85;

/// `libc::WIFEXITED`: the child ended on its own if the low seven bits are zero.
pub assume_specification[ libc::WIFEXITED ](status: libc::c_int) -> (r: bool)
    ensures
        r == (status & 0x7f == 0),
;

/// `libc::WEXITSTATUS`: the exit code is in the second byte.
pub assume_specification[ libc::WEXITSTATUS ](status: libc::c_int) -> (r: libc::c_int)
    ensures
        r == (status >> 8) & 0xff,
;

/// `libc::WIFSIGNALED`: the child was ended by a signal if the low seven bits are neither zero nor all
/// set.
pub assume_specification[ libc::WIFSIGNALED ](status: libc::c_int) -> (r: bool)
    ensures
        r == (1 <= status & 0x7f <= 0x7e),
;

/// `libc::WTERMSIG`: the signal that ended the child is in the low seven bits.
pub assume_specification[ libc::WTERMSIG ](status: libc::c_int) -> (r: libc::c_int)
    ensures
        r == status & 0x7f,
;

/// `libc::WIFSTOPPED`: the child is stopped if the low byte has its low seven bits set and the eighth
/// clear.
pub assume_specification[ libc::WIFSTOPPED ](status: libc::c_int) -> (r: bool)
    ensures
        r == (status & 0xff == 0x7f),
;

/// `libc::WSTOPSIG`: the signal that stopped the child is in the second byte.
pub assume_specification[ libc::WSTOPSIG ](status: libc::c_int) -> (r: libc::c_int)
    ensures
        r == (status >> 8) & 0xff,
;

/// The exit code that a wait for a child leads to: 1 where the wait failed, the child's own where it
/// ended, 128 and the signal where it was killed; none where it goes on.
pub open spec fn exit_code(ret: i32, status: i32) -> Option<i32> {
    if ret <= 0 {
        Some(1)
    } else if status & 0x7f == 0 {
        Some((status >> 8) & 0xff)
    } else if 1 <= status & 0x7f <= 0x7e {
        Some((128 + (status & 0x7f)) as i32)
    } else {
        None
    }
}

/// The exit code that a wait for a child leads to, `ret` being what the wait returned; none where the
/// wait has to be repeated.
pub fn wait_and_exit(ret: i32, status: i32) -> (r: Option<i32>)
    ensures
        r == exit_code(ret, status),
{
    if ret <= 0 {
        return Some(1);
    }
    if libc::WIFEXITED(status) {
        return Some(libc::WEXITSTATUS(status));
    }
    if libc::WIFSIGNALED(status) {
        return Some(128 + libc::WTERMSIG(status));
    }
    None
}

/// What becomes of the process that starts a traced program.
#[derive(Clone, Copy, PartialEq, Eq, Structural)]
pub enum ForkStep {
    /// The program could not be started: another way of running it is tried.
    Failed,
    /// This is the child: it asks to be traced and runs the program.
    Child,
    /// This is the tracer: it waits for the child's first stop.
    Tracer,
}

/// What becomes of the process that starts a traced program, given what `fork` returned.
pub fn ptrace_fallback_execve(pid: i32) -> (r: ForkStep)
    ensures
        r == (if pid == 0 {
            ForkStep::Child
        } else if pid < 0 {
            ForkStep::Failed
        } else {
            ForkStep::Tracer
        }),
{
    if pid == 0 {
        ForkStep::Child
    } else if pid < 0 {
        ForkStep::Failed
    } else {
        ForkStep::Tracer
    }
}

/// Whether the first wait for a traced child found it stopped; otherwise the tracer ends with code 1.
pub fn first_stop(ret: i32, status: i32) -> (r: bool)
    ensures
        r == (ret > 0 && status & 0xff == 0x7f),
{
    ret > 0 && libc::WIFSTOPPED(status)
}

/// Where the tracer stands between two waits.
#[derive(Clone, Copy, PartialEq, Eq, Structural)]
pub struct TraceLoop {
    /// Whether the child is inside a system call.
    pub in_syscall: bool,
    /// Whether the tracer leaves the child when it comes out of that call.
    pub detach_next: bool,
}

/// What the tracer does next.
#[derive(Clone, Copy, PartialEq, Eq, Structural)]
pub enum LoopStep {
    /// It ends with this code.
    Exit(i32),
    /// It lets the child go on to the next stop, with this signal; 0 is none.
    Resume(i32),
    /// It deals with the system call that the child enters, and reports back by `entered`.
    Enter,
    /// It leaves the child and waits for its end.
    Leave,
}

/// What a wait leads to.
pub open spec fn loop_step(l: TraceLoop, ret: i32, status: i32) -> (TraceLoop, LoopStep) {
    let sig = (status >> 8) & 0xff;
    match exit_code(ret, status) {
        Some(code) => (l, LoopStep::Exit(code)),
        None => if sig != SYSCALL_STOP {
            (l, LoopStep::Resume(sig))
        } else if !l.in_syscall {
            (TraceLoop { in_syscall: true, ..l }, LoopStep::Enter)
        } else if l.detach_next {
            (TraceLoop { in_syscall: false, ..l }, LoopStep::Leave)
        } else {
            (TraceLoop { in_syscall: false, ..l }, LoopStep::Resume(0))
        },
    }
}

/// The tracer's loop starts outside of any system call.
pub fn start_loop() -> (r: TraceLoop)
    ensures
        r == (TraceLoop { in_syscall: false, detach_next: false }),
{
    TraceLoop { in_syscall: false, detach_next: false }
}

/// What a wait leads to, `ret` being what it returned.
pub fn ptrace_loop(l: TraceLoop, ret: i32, status: i32) -> (r: (TraceLoop, LoopStep))
    ensures
        r == loop_step(l, ret, status),
{
    if let Some(code) = wait_and_exit(ret, status) {
        return (l, LoopStep::Exit(code));
    }
    let sig: i32 = libc::WSTOPSIG(status);
    if sig != SYSCALL_STOP {
        return (l, LoopStep::Resume(sig));
    }
    if l.in_syscall {
        let out = TraceLoop { in_syscall: false, detach_next: l.detach_next };
        if l.detach_next {
            (out, LoopStep::Leave)
        } else {
            (out, LoopStep::Resume(0))
        }
    } else {
        (TraceLoop { in_syscall: true, detach_next: l.detach_next }, LoopStep::Enter)
    }
}

/// The system call that the child entered was dealt with: whether the tracer leaves it afterwards is
/// noted, and the child goes on.
pub fn entered(l: TraceLoop, detach: bool) -> (r: (TraceLoop, LoopStep))
    ensures
        r == (TraceLoop { detach_next: detach, ..l }, LoopStep::Resume(0)),
{
    (TraceLoop { in_syscall: l.in_syscall, detach_next: detach }, LoopStep::Resume(0))
}

// ---- What holds of the tracer as a whole ----

/// A child that was killed and one that exited with the same number are told apart: codes of killed
/// children lie above 128.
pub proof fn law_killed_codes(ret: i32, status: i32)
    requires
        ret > 0,
        1 <= status & 0x7f <= 0x7e,
    ensures
        exit_code(ret, status) is Some,
        128 < exit_code(ret, status)->0 < 255,
{
}

/// The tracer leaves a child only when it comes out of a system call after which it was to leave.
pub proof fn law_leaves_only_when_told(l: TraceLoop, ret: i32, status: i32)
    ensures
        loop_step(l, ret, status).1 == LoopStep::Leave ==> l.in_syscall && l.detach_next,
{
}

/// Two stops of the same system call in a row enter it and come out of it.
pub proof fn law_enter_and_leave_alternate(l: TraceLoop, ret: i32, status: i32)
    requires
        exit_code(ret, status) is None,
        (status >> 8) & 0xff == SYSCALL_STOP,
    ensures
        loop_step(l, ret, status).0.in_syscall == !l.in_syscall,
        loop_step(l, ret, status).1 == LoopStep::Enter <==> !l.in_syscall,
{
}

/// The code with which a child exits comes through the status that a wait gives of it, as does the signal
/// that killed it, whether memory was dumped or not; a child that is stopped goes on, and a wait that failed
/// ends in failure.
pub proof fn law_exit_codes(ret: i32, code: i32, sig: i32)
    requires
        ret > 0,
        0 <= code <= 255,
        1 <= sig <= 126,
    ensures
        exit_code(ret, code << 8) == Some(code),
        exit_code(ret, sig) == Some((128 + sig) as i32),
        exit_code(ret, sig | 0x80) == Some((128 + sig) as i32),
        exit_code(ret, (code << 8) | 0x7f) is None,
{
    assert((code << 8) & 0x7f == 0 && ((code << 8) >> 8) & 0xff == code) by (bit_vector)
        requires
            0 <= code <= 255,
    ;
    assert(sig & 0x7f == sig && (sig | 0x80) & 0x7f == sig) by (bit_vector)
        requires
            1 <= sig <= 126,
    ;
    assert(((code << 8) | 0x7f) & 0x7f == 0x7f) by (bit_vector);
}

/// A wait that failed ends in failure, whatever the status.
pub proof fn law_failed_wait(ret: i32, status: i32, l: TraceLoop)
    requires
        ret <= 0,
    ensures
        exit_code(ret, status) == Some(1i32),
        loop_step(l, ret, status) == (l, LoopStep::Exit(1)),
{
}

/// The tracer ends with the code of a child that ended or was killed. A signal that stopped the child is
/// handed on to it and changes nothing. The stop of a system call is an entry if the child is outside of
/// one; else the child comes out of it, and is left if that was noted, and goes on without a signal if not.
/// The note stays as it is.
pub proof fn law_trace_loop(l: TraceLoop, ret: i32, sig: i32, code: i32)
    requires
        ret > 0,
        0 <= sig <= 255,
        0 <= code <= 255,
    ensures
        loop_step(l, ret, code << 8) == (l, LoopStep::Exit(code)),
        1 <= sig <= 126 ==> loop_step(l, ret, sig) == (l, LoopStep::Exit((128 + sig) as i32)),
        sig != 0x85 ==> loop_step(l, ret, (sig << 8) | 0x7f) == (l, LoopStep::Resume(sig)),
        sig == 0x85 ==> loop_step(l, ret, (sig << 8) | 0x7f) == (if !l.in_syscall {
            (TraceLoop { in_syscall: true, detach_next: l.detach_next }, LoopStep::Enter)
        } else if l.detach_next {
            (TraceLoop { in_syscall: false, detach_next: l.detach_next }, LoopStep::Leave)
        } else {
            (TraceLoop { in_syscall: false, detach_next: l.detach_next }, LoopStep::Resume(0))
        }),
{
    law_exit_codes(ret, code, if 1 <= sig <= 126 {
        sig
    } else {
        1
    });
    assert(((sig << 8) | 0x7f) & 0x7f == 0x7f && (((sig << 8) | 0x7f) >> 8) & 0xff == sig) by (bit_vector)
        requires
            0 <= sig <= 255,
    ;
}

} // verus!
