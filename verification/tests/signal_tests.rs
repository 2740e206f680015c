use lind::sigcalls::{
    any_pending_unblocked, prlimit_check, sigaction_check, SIGKILL, SIGSTOP, rlimit_for, sigprocmask_step, SigmaskStep, RLIMIT_AS,
    RLIMIT_CORE, RLIMIT_DATA, RLIMIT_NOFILE, RLIMIT_NPROC, RLIMIT_RSS, RLIMIT_STACK, SIG_BLOCK,
    SIG_SETMASK, SIG_UNBLOCK,
};

#[test]
fn sigprocmask_block_unblock_setmask() {
    assert_eq!(
        sigprocmask_step(SIG_BLOCK, 0b0011, 0b0110),
        Ok(SigmaskStep { new_mask: 0b0111, unblocked: 0 })
    );
    assert_eq!(
        sigprocmask_step(SIG_UNBLOCK, 0b0111, 0b0110),
        Ok(SigmaskStep { new_mask: 0b0001, unblocked: 0b0110 })
    );
    // previously blocked 0b1010, new mask 0b0011: bit 3 is released
    assert_eq!(
        sigprocmask_step(SIG_SETMASK, 0b1010, 0b0011),
        Ok(SigmaskStep { new_mask: 0b0011, unblocked: 0b1000 })
    );
}

#[test]
fn sigprocmask_rejects_unknown_mode() {
    assert_eq!(sigprocmask_step(3, 1, 1), Err(-22));
    assert_eq!(sigprocmask_step(-1, 0, 0), Err(-22));
}

#[test]
fn pending_signal_detection() {
    assert!(!any_pending_unblocked(0b1000, &vec![]));
    assert!(!any_pending_unblocked(0b1000, &vec![0b0001, 0b0100]));
    assert!(any_pending_unblocked(0b1000, &vec![0b0001, 0b1000]));
    assert!(!any_pending_unblocked(0, &vec![u64::MAX]));
}

#[test]
fn prlimit_checks_and_limits() {
    assert_eq!(prlimit_check(0, false), Ok(()));
    assert_eq!(prlimit_check(5, false), Err(-3));
    assert_eq!(prlimit_check(0, true), Err(-1));
    assert_eq!(rlimit_for(RLIMIT_STACK), 8 * 1024 * 1024);
    assert_eq!(rlimit_for(RLIMIT_NOFILE), 1024);
    assert_eq!(rlimit_for(RLIMIT_DATA), 0xFFFF_FFFF);
    assert_eq!(rlimit_for(RLIMIT_RSS), 0xFFFF_FFFF);
    assert_eq!(rlimit_for(RLIMIT_AS), 0xFFFF_FFFF);
    assert_eq!(rlimit_for(RLIMIT_NPROC), 2048);
    assert_eq!(rlimit_for(RLIMIT_CORE), 0);
    assert_eq!(rlimit_for(1000), 0);
}

#[test]
fn sigaction_refuses_kill_and_stop() {
    assert_eq!(sigaction_check(SIGKILL), Err(-22));
    assert_eq!(sigaction_check(SIGSTOP), Err(-22));
    assert_eq!(sigaction_check(2), Ok(()));
}
