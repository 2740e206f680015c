//! The decisions of the signal-mask and resource-limit syscalls: how a
//! cage's blocked-signal mask changes, which signals a change unblocks,
//! whether a pending signal must be delivered afterwards, and which limits
//! `getrlimit` reports. Values are those of Linux.
use crate::consts::{neg, EINVAL, EPERM, ESRCH, MAX_CAGEID, MAX_LINEAR_MEMORY_SIZE};
use vstd::prelude::*;

verus! {

/// `sigprocmask` modes.
pub const SIG_BLOCK: i32 = 0;
pub const SIG_UNBLOCK: i32 = 1;
pub const SIG_SETMASK: i32 = 2;

/// The two signals whose action cannot be changed.
pub const SIGKILL: i32 = 9;
pub const SIGSTOP: i32 = 19;

/// Resource numbers of `prlimit64`.
pub const RLIMIT_DATA: u32 = 2;
pub const RLIMIT_STACK: u32 = 3;
pub const RLIMIT_CORE: u32 = 4;
pub const RLIMIT_RSS: u32 = 5;
pub const RLIMIT_NPROC: u32 = 6;
pub const RLIMIT_NOFILE: u32 = 7;
pub const RLIMIT_AS: u32 = 9;

/// The outcome of a mask change: the new mask, and the signals that were
/// blocked before and are not any more.
#[derive(Clone, Copy, PartialEq, Eq, Structural, Debug)]
pub struct SigmaskStep {
    pub new_mask: u64,
    pub unblocked: u64,
}

/// What `sigprocmask` does to the mask `curr` with the set `set`.
pub open spec fn sigmask_result(how: i32, curr: u64, set: u64) -> Result<SigmaskStep, i32> {
    if how == SIG_BLOCK {
        Ok(SigmaskStep { new_mask: curr | set, unblocked: 0 })
    } else if how == SIG_UNBLOCK {
        Ok(SigmaskStep { new_mask: curr & !set, unblocked: set })
    } else if how == SIG_SETMASK {
        Ok(SigmaskStep { new_mask: set, unblocked: (curr ^ set) & curr })
    } else {
        Err(neg(EINVAL))
    }
}

/// Change the blocked-signal mask `curr` by `set` as `how` says: block adds
/// the signals of `set`, unblock removes them, set-mask replaces the mask.
/// Any other mode is refused with `-EINVAL`. Besides the new mask, the
/// result holds the signals whose pending instances must now be checked:
/// all of `set` on unblock, the signals blocked before and absent from
/// `set` on set-mask, none on block.
pub fn sigprocmask_step(how: i32, curr: u64, set: u64) -> (r: Result<SigmaskStep, i32>)
    ensures
        r == sigmask_result(how, curr, set),
{
    if how == SIG_BLOCK {
        Ok(SigmaskStep { new_mask: curr | set, unblocked: 0 })
    } else if how == SIG_UNBLOCK {
        Ok(SigmaskStep { new_mask: curr & !set, unblocked: set })
    } else if how == SIG_SETMASK {
        Ok(SigmaskStep { new_mask: set, unblocked: (curr ^ set) & curr })
    } else {
        Err(-EINVAL)
    }
}

/// Whether `sigaction` may install a new action for `sig`: never for
/// `SIGKILL` or `SIGSTOP` (`-EINVAL`).
pub fn sigaction_check(sig: i32) -> (r: Result<(), i32>)
    ensures
        r == (if sig == SIGKILL || sig == SIGSTOP {
            Err(neg(EINVAL))
        } else {
            Ok(())
        }),
{
    if sig == SIGKILL || sig == SIGSTOP {
        return Err(-EINVAL);
    }
    Ok(())
}

/// Whether some pending signal, given by its mask bit, is among the
/// unblocked ones.
pub open spec fn spec_any_pending_unblocked(unblocked: u64, pending: Seq<u64>) -> bool {
    exists|i: int| 0 <= i < pending.len() && #[trigger] (pending[i] & unblocked) != 0
}

/// Whether a signal epoch must be raised after a mask change: some pending
/// signal (each given by its mask bit) lies in `unblocked`.
pub fn any_pending_unblocked(unblocked: u64, pending: &Vec<u64>) -> (r: bool)
    ensures
        r == spec_any_pending_unblocked(unblocked, pending@),
{
    let mut i: usize = 0;
    while i < pending.len()
        invariant
            0 <= i <= pending.len(),
            forall|j: int| 0 <= j < i ==> #[trigger] (pending@[j] & unblocked) == 0,
        decreases pending.len() - i,
    {
        if pending[i] & unblocked != 0 {
            return true;
        }
        i = i + 1;
    }
    false
}

/// The checks of `prlimit64` before any limit is read: only the calling
/// process (`pid` 0) is served (`-ESRCH` otherwise), and setting a limit is
/// refused (`-EPERM`).
pub fn prlimit_check(pid: i32, new_limit_given: bool) -> (r: Result<(), i32>)
    ensures
        r == (if pid != 0 {
            Err(neg(ESRCH))
        } else if new_limit_given {
            Err(neg(EPERM))
        } else {
            Ok(())
        }),
{
    if pid != 0 {
        return Err(-ESRCH);
    }
    if new_limit_given {
        return Err(-EPERM);
    }
    Ok(())
}

/// The soft and hard limit reported for a resource.
pub open spec fn rlimit_spec(resource: u32) -> u64 {
    if resource == RLIMIT_STACK {
        0x80_0000
    } else if resource == RLIMIT_NOFILE {
        1024
    } else if resource == RLIMIT_DATA || resource == RLIMIT_RSS || resource == RLIMIT_AS {
        MAX_LINEAR_MEMORY_SIZE
    } else if resource == RLIMIT_NPROC {
        MAX_CAGEID
    } else {
        0
    }
}

/// The limit `getrlimit` reports, soft and hard alike: 8 MiB of stack,
/// 1024 descriptors, the whole linear memory for data, resident set and
/// address space, one process per cage id, no core dumps, and zero for a
/// resource it does not know.
pub fn rlimit_for(resource: u32) -> (r: u64)
    ensures
        r == rlimit_spec(resource),
{
    if resource == RLIMIT_STACK {
        0x80_0000
    } else if resource == RLIMIT_NOFILE {
        1024
    } else if resource == RLIMIT_DATA || resource == RLIMIT_RSS || resource == RLIMIT_AS {
        MAX_LINEAR_MEMORY_SIZE
    } else if resource == RLIMIT_NPROC {
        MAX_CAGEID
    } else {
        0
    }
}

} // verus!
