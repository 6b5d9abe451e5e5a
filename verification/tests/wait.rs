use lroot::wait::{
    entered, first_stop, ptrace_fallback_execve, ptrace_loop, start_loop, wait_and_exit, ForkStep,
    LoopStep, TraceLoop,
};

#[test]
fn exit_codes_follow_the_status() {
    assert_eq!(wait_and_exit(-1, 0), Some(1));
    assert_eq!(wait_and_exit(0, 0), Some(1));
    assert_eq!(wait_and_exit(7, 0), Some(0));
    assert_eq!(wait_and_exit(7, 42 << 8), Some(42));
    assert_eq!(wait_and_exit(7, libc::SIGKILL), Some(137));
    assert_eq!(wait_and_exit(7, 126), Some(254));
    assert_eq!(wait_and_exit(7, (libc::SIGTRAP << 8) | 0x7f), None);
}

#[test]
fn fork_tells_child_and_tracer_apart() {
    assert!(ptrace_fallback_execve(0) == ForkStep::Child);
    assert!(ptrace_fallback_execve(-1) == ForkStep::Failed);
    assert!(ptrace_fallback_execve(99) == ForkStep::Tracer);
    assert!(first_stop(99, (libc::SIGTRAP << 8) | 0x7f));
    assert!(!first_stop(-1, (libc::SIGTRAP << 8) | 0x7f));
    assert!(!first_stop(99, 1 << 8));
}

#[test]
fn calls_are_entered_and_left_in_turn() {
    let stop = ((libc::SIGTRAP | 0x80) << 8) | 0x7f;
    let (l, step) = ptrace_loop(start_loop(), 9, stop);
    assert!(step == LoopStep::Enter);
    assert!(l.in_syscall);
    let (l, step) = entered(l, false);
    assert!(step == LoopStep::Resume(0));
    let (l, step) = ptrace_loop(l, 9, stop);
    assert!(step == LoopStep::Resume(0));
    assert!(!l.in_syscall);
    let (l, _) = ptrace_loop(l, 9, stop);
    let (l, _) = entered(l, true);
    let (l, step) = ptrace_loop(l, 9, stop);
    assert!(step == LoopStep::Leave);
    assert!(l == TraceLoop { in_syscall: false, detach_next: true });
}

#[test]
fn other_signals_are_handed_on() {
    let l = TraceLoop { in_syscall: true, detach_next: true };
    let (same, step) = ptrace_loop(l, 9, (libc::SIGUSR1 << 8) | 0x7f);
    assert!(step == LoopStep::Resume(libc::SIGUSR1));
    assert!(same == l);
    assert!(ptrace_loop(l, 9, 3 << 8).1 == LoopStep::Exit(3));
    assert!(ptrace_loop(l, -1, 3 << 8).1 == LoopStep::Exit(1));
}
