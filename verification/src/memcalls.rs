//! The argument decisions of the memory-mapping and descriptor syscalls:
//! which requests are refused before any mapping or table is touched, and
//! the flags and protections the remaining steps use. Values are those of
//! Linux.
use crate::consts::{neg, EBADF, EINVAL, O_NONBLOCK};
use vstd::prelude::*;

verus! {

/// Bytes per page.
pub const PAGESIZE: u64 = 4096;
/// Memory protections.
pub const PROT_NONE: i32 = 0;
pub const PROT_READ: i32 = 1;
pub const PROT_WRITE: i32 = 2;
pub const PROT_EXEC: i32 = 4;
/// Mapping flags.
pub const MAP_SHARED: i32 = 0x01;
pub const MAP_PRIVATE: i32 = 0x02;
pub const MAP_FIXED: i32 = 0x10;
pub const MAP_ANONYMOUS: i32 = 0x20;
/// Close-on-exec file status flag.
pub const O_CLOEXEC: i32 = 0o2000000;
/// Attach a shared-memory segment read-only.
pub const SHM_RDONLY: i32 = 0o10000;
/// Largest virtual descriptor number.
pub const MAXFD: u64 = 1024;
/// `fcntl` commands.
pub const F_DUPFD: i32 = 0;
pub const F_GETFD: i32 = 1;
pub const F_SETFD: i32 = 2;
pub const F_GETLK: i32 = 5;
pub const F_SETLK: i32 = 6;
pub const F_SETLKW: i32 = 7;
pub const F_SETOWN: i32 = 8;
pub const F_GETOWN: i32 = 9;
pub const F_DUPFD_CLOEXEC: i32 = 1030;

/// The mapping flags `mmap` accepts.
pub open spec fn spec_mmap_flags_supported(flags: i32) -> bool {
    flags & !(MAP_FIXED | MAP_SHARED | MAP_PRIVATE | MAP_ANONYMOUS) == 0
}

/// Whether `flags` holds only flags `mmap` supports (fixed, shared,
/// private, anonymous); anything else is refused with `-EINVAL`.
pub fn mmap_flags_supported(flags: i32) -> (r: bool)
    ensures
        r == spec_mmap_flags_supported(flags),
{
    flags & !(MAP_FIXED | MAP_SHARED | MAP_PRIVATE | MAP_ANONYMOUS) == 0
}

/// Whether a protection asks for execute permission, which the sandbox
/// does not grant (`mmap_args_check` refuses it with `-EINVAL`).
pub fn prot_requests_exec(prot: i32) -> (r: bool)
    ensures
        r == (prot & PROT_EXEC > 0),
{
    prot & PROT_EXEC > 0
}

/// The placement checks of `mmap`: the address must be page aligned and
/// the offset non-negative and page aligned.
pub fn mmap_range_check(addr: u64, off: i64) -> (r: Result<(), i32>)
    ensures
        r == (if addr % PAGESIZE != 0 {
            Err(neg(EINVAL))
        } else if off < 0 {
            Err(neg(EINVAL))
        } else if off % (PAGESIZE as i64) != 0 {
            Err(neg(EINVAL))
        } else {
            Ok(())
        }),
{
    if addr % PAGESIZE != 0 {
        return Err(-EINVAL);
    }
    if off < 0 {
        return Err(-EINVAL);
    }
    if off % (PAGESIZE as i64) != 0 {
        return Err(-EINVAL);
    }
    Ok(())
}

/// The argument checks of `mmap`, in order, before any space is looked
/// for: unsupported flags, then execute permission, then the placement
/// checks of `mmap_range_check`; each refusal is `-EINVAL`.
pub fn mmap_args_check(flags: i32, prot: i32, addr: u64, off: i64) -> (r: Result<(), i32>)
    ensures
        r == (if !spec_mmap_flags_supported(flags) {
            Err(neg(EINVAL))
        } else if prot & PROT_EXEC > 0 {
            Err(neg(EINVAL))
        } else if addr % PAGESIZE != 0 || off < 0 || off % (PAGESIZE as i64) != 0 {
            Err(neg(EINVAL))
        } else {
            Ok(())
        }),
{
    if !mmap_flags_supported(flags) {
        return Err(-EINVAL);
    }
    if prot_requests_exec(prot) {
        return Err(-EINVAL);
    }
    mmap_range_check(addr, off)
}

/// The flags a placed mapping is made with: fixed at the chosen address;
/// exactly one of private and shared must be given (`-EINVAL` otherwise).
pub fn mmap_final_flags(flags: i32) -> (r: Result<i32, i32>)
    ensures
        ({
            let f = flags | MAP_FIXED;
            r == (if (f & MAP_PRIVATE == 0) == (f & MAP_SHARED == 0) {
                Err(neg(EINVAL))
            } else {
                Ok(f)
            })
        }),
{
    let f = flags | MAP_FIXED;
    if (f & MAP_PRIVATE == 0) == (f & MAP_SHARED == 0) {
        return Err(-EINVAL);
    }
    Ok(f)
}

/// The descriptor a mapping uses: none (-1) for an anonymous mapping.
pub fn mmap_fd(flags: i32, fildes: i32) -> (r: i32)
    ensures
        r == (if flags & MAP_ANONYMOUS > 0 {
            -1
        } else {
            fildes as int
        }),
{
    if flags & MAP_ANONYMOUS > 0 {
        -1
    } else {
        fildes
    }
}

/// The largest protection of a file mapping, from the file's status flags
/// (`-EINVAL` when they could not be read).
pub fn mmap_maxprot(file_flags: i32) -> (r: Result<i32, i32>)
    ensures
        r == (if file_flags < 0 {
            Err(neg(EINVAL))
        } else {
            Ok((PROT_READ | PROT_WRITE) & file_flags)
        }),
{
    if file_flags < 0 {
        return Err(-EINVAL);
    }
    Ok((PROT_READ | PROT_WRITE) & file_flags)
}

/// The checks of `munmap`: a zero length and an unaligned address are
/// `-EINVAL`.
pub fn munmap_check(addr: u64, len: u64) -> (r: Result<(), i32>)
    ensures
        r == (if len == 0 {
            Err(neg(EINVAL))
        } else if addr % PAGESIZE != 0 {
            Err(neg(EINVAL))
        } else {
            Ok(())
        }),
{
    if len == 0 {
        return Err(-EINVAL);
    }
    if addr % PAGESIZE != 0 {
        return Err(-EINVAL);
    }
    Ok(())
}

/// The flags of `pipe2`: only non-blocking and close-on-exec are allowed
/// (`-EINVAL` otherwise); the result says whether the ends close on exec.
pub fn pipe2_flags(flags: i32) -> (r: Result<bool, i32>)
    ensures
        r == (if flags & !(O_NONBLOCK | O_CLOEXEC) != 0 {
            Err(neg(EINVAL))
        } else {
            Ok(flags & O_CLOEXEC != 0)
        }),
{
    if flags & !(O_NONBLOCK | O_CLOEXEC) != 0 {
        return Err(-EINVAL);
    }
    Ok(flags & O_CLOEXEC != 0)
}

/// The protection of an attached shared-memory segment: read-only when
/// asked, otherwise read and write.
pub fn shm_prot(shmflag: i32) -> (r: i32)
    ensures
        r == (if shmflag & SHM_RDONLY != 0 {
            PROT_READ
        } else {
            PROT_READ | PROT_WRITE
        }),
{
    if shmflag & SHM_RDONLY != 0 {
        PROT_READ
    } else {
        PROT_READ | PROT_WRITE
    }
}

/// `len` rounded up to a whole number of pages.
pub open spec fn round_up_pages(len: nat) -> nat {
    if len % (PAGESIZE as nat) == 0 {
        len
    } else {
        len + ((PAGESIZE as nat) - len % (PAGESIZE as nat)) as nat
    }
}

/// The argument checks of `shmat` before space is looked for: the segment
/// must exist (`shm_len` is its length, `None` for an unknown id) and the
/// requested address must be page aligned, else `-EINVAL`; on success, the
/// segment's length rounded up to whole pages.
pub fn shmat_check(shm_len: Option<u32>, useraddr: u32) -> (r: Result<u64, i32>)
    ensures
        r == (match shm_len {
            None => Err(neg(EINVAL)),
            Some(len) => if useraddr as u64 % PAGESIZE != 0 {
                Err(neg(EINVAL))
            } else {
                Ok(round_up_pages(len as nat) as u64)
            },
        }),
        r matches Ok(n) ==> n % PAGESIZE == 0 && shm_len->0 <= n < shm_len->0 + PAGESIZE,
{
    let len = match shm_len {
        Some(l) => l,
        None => return Err(-EINVAL),
    };
    if useraddr as u64 % PAGESIZE != 0 {
        return Err(-EINVAL);
    }
    let l = len as u64;
    let rem = l % PAGESIZE;
    if rem == 0 {
        Ok(l)
    } else {
        Ok(l + (PAGESIZE - rem))
    }
}

/// What `fcntl` does with a command.
#[derive(Clone, Copy, PartialEq, Eq, Structural, Debug)]
pub enum FcntlAction {
    /// Duplicate onto the lowest free descriptor at or above `start`.
    DupFd { start: i32, cloexec: bool },
    /// Return the close-on-exec flag.
    GetFd,
    /// Set the close-on-exec flag (on the kernel descriptor too).
    SetFd { cloexec: bool },
    /// Return the default owner.
    GetOwn,
    /// Accept the owner and return 0.
    SetOwn,
    /// Pass the command to the kernel descriptor, with the pointer
    /// argument for a lock command and the integer otherwise.
    Kernel { lock: bool },
}

/// The action of `fcntl(cmd, arg)`.
pub fn fcntl_action(cmd: i32, arg: i32) -> (r: FcntlAction)
    ensures
        r == (if cmd == F_DUPFD {
            FcntlAction::DupFd { start: arg, cloexec: false }
        } else if cmd == F_DUPFD_CLOEXEC {
            FcntlAction::DupFd { start: arg, cloexec: true }
        } else if cmd == F_GETFD {
            FcntlAction::GetFd
        } else if cmd == F_SETFD {
            FcntlAction::SetFd { cloexec: arg != 0 }
        } else if cmd == F_GETOWN {
            FcntlAction::GetOwn
        } else if cmd == F_SETOWN && arg >= 0 {
            FcntlAction::SetOwn
        } else {
            FcntlAction::Kernel { lock: cmd == F_GETLK || cmd == F_SETLK || cmd == F_SETLKW }
        }),
{
    if cmd == F_DUPFD {
        FcntlAction::DupFd { start: arg, cloexec: false }
    } else if cmd == F_DUPFD_CLOEXEC {
        FcntlAction::DupFd { start: arg, cloexec: true }
    } else if cmd == F_GETFD {
        FcntlAction::GetFd
    } else if cmd == F_SETFD {
        FcntlAction::SetFd { cloexec: arg != 0 }
    } else if cmd == F_GETOWN {
        FcntlAction::GetOwn
    } else if cmd == F_SETOWN && arg >= 0 {
        FcntlAction::SetOwn
    } else {
        FcntlAction::Kernel { lock: cmd == F_GETLK || cmd == F_SETLK || cmd == F_SETLKW }
    }
}

/// The first check on an `fcntl` descriptor: numbers above `MAXFD` are
/// `-EBADF` (an unknown descriptor is found so later).
pub fn fcntl_fd_check(vfd: u64) -> (r: Result<(), i32>)
    ensures
        r == (if vfd > MAXFD {
            Err(neg(EBADF))
        } else {
            Ok(())
        }),
{
    if vfd > MAXFD {
        return Err(-EBADF);
    }
    Ok(())
}

} // verus!
