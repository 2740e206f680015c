//! Platform and interposition constants shared by the whole library.
use vstd::prelude::*;

verus! {

/// Special `handlefunccage` value: removes every handler registered for a
/// `(cage, callnum)` pair.
pub const THREEI_DEREGISTER: u64 = 500;
/// Reserved for registering a handler across all syscalls.
pub const THREEI_MATCHALL: u64 = 501;
/// Generic error code: the interposition API call was aborted.
pub const ELINDAPIABORTED: u64 = 0xE001_0001;
/// Error code: the source or destination cage is exiting.
pub const ELINDESRCH: u64 = 0xE001_0002;
/// A successful grate call.
pub const GRATE_OK: i32 = 0;
/// A failed grate call.
pub const GRATE_ERR: i32 = -0x1FFF_0003;
/// Runtime identifier of the Wasmtime-based execution environment.
pub const RUNTIME_TYPE_WASMTIME: u64 = 1;
/// Interposition syscall number of `register_handler`.
pub const REGISTER_HANDLER_SYSCALL: u64 = 1001;
/// Interposition syscall number of `copy_data_between_cages`.
pub const COPY_DATA_BETWEEN_CAGES_SYSCALL: u64 = 1002;
/// Interposition syscall number of `copy_handler_table_to_cage`.
pub const COPY_HANDLER_TABLE_TO_CAGE_SYSCALL: u64 = 1003;
/// Interposition syscall number of `register_lib_handler`.
pub const REGISTER_LIB_HANDLER_SYSCALL: u64 = 1004;
/// First fake syscall number used for library-level interposition.
pub const LIBCALL_BASE: u64 = 2000;
/// Syscall number of `exit`.
pub const EXIT_SYSCALL: u64 = 60;

/// Logical target id that stands for the RawPOSIX syscall layer.
pub const RAWPOSIX_CAGEID: u64 = 777777;
/// Logical target id that stands for Wasmtime runtime entry points.
pub const WASMTIME_CAGEID: u64 = 888888;
/// Logical target id that stands for the interposition layer itself.
pub const THREEI_CAGEID: u64 = 999999;
/// Number of cage ids the runtime table holds.
pub const MAX_CAGEID: u64 = 2048;
/// Largest length of a copy between cages (a 32-bit linear memory).
pub const MAX_LINEAR_MEMORY_SIZE: u64 = 0xFFFF_FFFF;
/// Longest string scanned when copying a string between cages.
pub const MAX_STRLEN: u64 = 4096;

/// The negated errno a failing call returns.
pub open spec fn neg(e: i32) -> i32 {
    (-e) as i32
}

/// Linux errno values returned (negated) by the syscall layer.
pub const EPERM: i32 = 1;
pub const ESRCH: i32 = 3;
pub const EINTR: i32 = 4;
pub const ECHILD: i32 = 10;
pub const ENOMEM: i32 = 12;
pub const EBADF: i32 = 9;
pub const EAGAIN: i32 = 11;
pub const EFAULT: i32 = 14;
pub const EINVAL: i32 = 22;
pub const EPIPE: i32 = 32;
pub const EOVERFLOW: i32 = 75;
pub const ENOPROTOOPT: i32 = 92;
pub const EOPNOTSUPP: i32 = 95;
pub const EADDRINUSE: i32 = 98;
pub const ENOTCONN: i32 = 107;
pub const ECONNREFUSED: i32 = 111;

/// Socket domains.
pub const AF_UNIX: i32 = 1;
pub const AF_INET: i32 = 2;
/// Stream sockets and the creation flags that may be or-ed into a type.
pub const SOCK_STREAM: i32 = 1;
pub const SOCK_NONBLOCK: i32 = 0o4000;
pub const SOCK_CLOEXEC: i32 = 0o2000000;
/// TCP protocol number.
pub const IPPROTO_TCP: i32 = 6;
/// `shutdown` modes.
pub const SHUT_RD: i32 = 0;
pub const SHUT_WR: i32 = 1;
pub const SHUT_RDWR: i32 = 2;
/// Non-blocking file status flag.
pub const O_NONBLOCK: i32 = 0o4000;
/// `poll` event bits.
pub const POLLIN: i16 = 0x001;
pub const POLLOUT: i16 = 0x004;
pub const POLLERR: i16 = 0x008;
pub const POLLNVAL: i16 = 0x020;
/// Socket option levels and names.
pub const SOL_SOCKET: i32 = 1;
pub const SO_REUSEADDR: i32 = 2;
pub const SO_TYPE: i32 = 3;
pub const SO_ERROR: i32 = 4;
pub const SO_SNDBUF: i32 = 7;
pub const SO_RCVBUF: i32 = 8;
pub const SO_LINGER: i32 = 13;
pub const SO_REUSEPORT: i32 = 15;
pub const SO_ACCEPTCONN: i32 = 30;
pub const TCP_NODELAY: i32 = 1;

/// Kinds of virtual file descriptors that live in memory.
pub const FDKIND_IMPIPE: u32 = 1;
pub const FDKIND_IMSOCK: u32 = 2;

/// Error codes the host loader and the guest exchange about dynamic
/// loading.
#[derive(Clone, Copy, PartialEq, Eq, Structural, Debug)]
pub enum DylinkErrorCode {
    /// Error opening the file.
    EOPEN,
    /// Not a wasm file.
    ETYPE,
    /// The shared module has no dylink section.
    EDYLINKINFO,
    /// Loading a dependency failed.
    EDEPENDENCY,
    /// Undefined symbol.
    ESYMBOL,
    /// Invalid handle.
    ENOHANDLE,
    /// Symbol not found.
    ENOFOUND,
    /// The library being closed is not open.
    ENOOPEN,
    /// Other internal error of the loader.
    EINTERNAL,
}

/// The number each dynamic-loading error is sent as.
pub open spec fn dylink_code(e: DylinkErrorCode) -> i32 {
    match e {
        DylinkErrorCode::EOPEN => 1,
        DylinkErrorCode::ETYPE => 2,
        DylinkErrorCode::EDYLINKINFO => 3,
        DylinkErrorCode::EDEPENDENCY => 4,
        DylinkErrorCode::ESYMBOL => 5,
        DylinkErrorCode::ENOHANDLE => 6,
        DylinkErrorCode::ENOFOUND => 7,
        DylinkErrorCode::ENOOPEN => 8,
        DylinkErrorCode::EINTERNAL => 9,
    }
}

impl DylinkErrorCode {
    /// The number this error is sent as.
    pub fn code(self) -> (r: i32)
        ensures
            r == dylink_code(self),
    {
        match self {
            DylinkErrorCode::EOPEN => 1,
            DylinkErrorCode::ETYPE => 2,
            DylinkErrorCode::EDYLINKINFO => 3,
            DylinkErrorCode::EDEPENDENCY => 4,
            DylinkErrorCode::ESYMBOL => 5,
            DylinkErrorCode::ENOHANDLE => 6,
            DylinkErrorCode::ENOFOUND => 7,
            DylinkErrorCode::ENOOPEN => 8,
            DylinkErrorCode::EINTERNAL => 9,
        }
    }
}

/// The arguments of `clone3`.
#[derive(Clone, Copy, Default, Debug)]
pub struct CloneArgStruct {
    /// Flags that control the child.
    pub flags: u64,
    /// Where to store a pidfd for the child.
    pub pidfd: u64,
    /// Where the child's thread id is stored in the child.
    pub child_tid: u64,
    /// Where the child's thread id is stored in the parent.
    pub parent_tid: u64,
    /// Signal sent to the parent when the child exits.
    pub exit_signal: u64,
    /// Lowest address of the child's stack.
    pub stack: u64,
    /// Size of the child's stack.
    pub stack_size: u64,
    /// Thread-local storage descriptor for the child.
    pub tls: u64,
    /// Address of an array of thread ids to use.
    pub set_tid: u64,
    /// Number of entries in that array.
    pub set_tid_size: u64,
    /// The cgroup to place the child in.
    pub cgroup: u64,
}

} // verus!
