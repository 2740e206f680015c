//! The address rewriting of the kernel-socket syscalls: a Unix socket path
//! is moved under the sandbox root before the kernel sees it.
use crate::consts::{AF_INET, AF_UNIX};
use vstd::prelude::*;

verus! {

/// Bytes of the path field of a Unix socket address.
pub const SUN_PATH_BYTES: usize = 108;
/// Bytes of a whole Unix socket address: family, then path.
pub const SOCKADDR_UN_BYTES: usize = 110;

/// The number of bytes before the first NUL of `b` (all if none).
pub open spec fn c_strlen(b: Seq<u8>) -> nat
    decreases b.len(),
{
    if b.len() == 0 || b[0] == 0 {
        0
    } else {
        1 + c_strlen(b.drop_first())
    }
}

/// Skipping a NUL-free prefix moves the first NUL by its length.
proof fn lemma_c_strlen_skip(b: Seq<u8>, i: int)
    requires
        0 <= i <= b.len(),
        forall|j: int| 0 <= j < i ==> b[j] != 0,
    ensures
        c_strlen(b) == i + c_strlen(b.skip(i)),
    decreases i,
{
    if i > 0 {
        lemma_c_strlen_skip(b.drop_first(), i - 1);
        assert(b.drop_first().skip(i - 1) =~= b.skip(i));
    } else {
        assert(b.skip(0) =~= b);
    }
}

/// The path field with `root` put in front of its string, the rest zero;
/// unchanged when the result would not leave room for a terminator.
pub open spec fn rooted_path(path: Seq<u8>, root: Seq<u8>) -> Seq<u8> {
    let n = c_strlen(path);
    if n + root.len() < SUN_PATH_BYTES {
        root + path.take(n as int) + Seq::new((SUN_PATH_BYTES - n - root.len()) as nat, |i: int| 0u8)
    } else {
        path
    }
}

/// The socket address the kernel is given for the address `addr`: a Unix
/// address (family in the first two bytes, little-endian) has its path
/// moved under `root`; any other address is passed as it is.
pub open spec fn rooted_sockaddr(addr: Seq<u8>, root: Seq<u8>) -> Seq<u8> {
    if addr[0] as int + addr[1] as int * 0x100 == AF_UNIX {
        addr.take(2) + rooted_path(addr.skip(2), root)
    } else {
        addr
    }
}

/// Rewrites a Unix socket address so that its path lies under `root`.
pub fn prefix_unix_sockaddr(addr: &[u8], root: &[u8]) -> (r: Vec<u8>)
    requires
        addr@.len() == SOCKADDR_UN_BYTES,
    ensures
        r@ == rooted_sockaddr(addr@, root@),
{
    let mut out: Vec<u8> = Vec::new();
    let fam: u32 = addr[0] as u32 + (addr[1] as u32) * 0x100;
    if fam != AF_UNIX as u32 {
        let mut i: usize = 0;
        while i < addr.len()
            invariant
                i <= addr@.len(),
                out@ == addr@.take(i as int),
            decreases addr@.len() - i,
        {
            out.push(addr[i]);
            i = i + 1;
            proof {
                assert(out@ =~= addr@.take(i as int));
            }
        }
        proof {
            assert(addr@.take(addr@.len() as int) =~= addr@);
        }
        return out;
    }
    let ghost path = addr@.skip(2);
    let mut n: usize = 2;
    while n < SOCKADDR_UN_BYTES && addr[n] != 0
        invariant
            2 <= n <= SOCKADDR_UN_BYTES,
            addr@.len() == SOCKADDR_UN_BYTES,
            path == addr@.skip(2),
            forall|j: int| 0 <= j < n - 2 ==> path[j] != 0,
        decreases SOCKADDR_UN_BYTES - n,
    {
        n = n + 1;
    }
    proof {
        lemma_c_strlen_skip(path, n - 2);
        if n < SOCKADDR_UN_BYTES {
            assert(path.skip(n - 2)[0] == addr@[n as int]);
        }
    }
    let len = n - 2;
    if root.len() >= SUN_PATH_BYTES || len + root.len() >= SUN_PATH_BYTES {
        let mut i: usize = 0;
        while i < addr.len()
            invariant
                i <= addr@.len(),
                out@ == addr@.take(i as int),
            decreases addr@.len() - i,
        {
            out.push(addr[i]);
            i = i + 1;
            proof {
                assert(out@ =~= addr@.take(i as int));
            }
        }
        proof {
            assert(addr@.take(addr@.len() as int) =~= addr@);
            assert(addr@.take(2) + path =~= addr@);
        }
        return out;
    }
    out.push(addr[0]);
    out.push(addr[1]);
    let mut i: usize = 0;
    while i < root.len()
        invariant
            i <= root@.len(),
            out@ == addr@.take(2) + root@.take(i as int),
        decreases root@.len() - i,
    {
        out.push(root[i]);
        i = i + 1;
        proof {
            assert(out@ =~= addr@.take(2) + root@.take(i as int));
        }
    }
    let mut j: usize = 0;
    while j < len
        invariant
            j <= len,
            len == n - 2,
            2 <= n <= SOCKADDR_UN_BYTES,
            addr@.len() == SOCKADDR_UN_BYTES,
            path == addr@.skip(2),
            out@ == addr@.take(2) + root@ + path.take(j as int),
        decreases len - j,
    {
        out.push(addr[2 + j]);
        j = j + 1;
        proof {
            assert(out@ =~= addr@.take(2) + root@ + path.take(j as int));
        }
    }
    let fill = SUN_PATH_BYTES - len - root.len();
    let mut k: usize = 0;
    while k < fill
        invariant
            k <= fill,
            out@ == addr@.take(2) + root@ + path.take(len as int) + Seq::new(k as nat, |i: int| 0u8),
        decreases fill - k,
    {
        out.push(0);
        k = k + 1;
        proof {
            assert(out@ =~= addr@.take(2) + root@ + path.take(len as int) + Seq::new(
                k as nat,
                |i: int| 0u8,
            ));
        }
    }
    proof {
        assert(root@.take(root@.len() as int) =~= root@);
        assert(out@ =~= addr@.take(2) + (root@ + path.take(len as int) + Seq::new(
            fill as nat,
            |i: int| 0u8,
        )));
    }
    out
}

/// Address families.
pub const AF_INET6: i32 = 10;
/// Sizes of the socket address structures of each family.
pub const SOCKADDR_IN_BYTES: u32 = 16;
pub const SOCKADDR_IN6_BYTES: u32 = 28;

/// A socket address as the kernel-socket syscalls keep it: the family and
/// up to 108 bytes of payload (a Unix path, or the rest of an IPv4 or IPv6
/// address).
pub struct SockAddr {
    pub sun_family: u16,
    pub sun_path: [i8; 108],
}

/// The length of the address structure of `family` (0 if unknown).
pub open spec fn family_len(family: int) -> u32 {
    if family == AF_INET {
        SOCKADDR_IN_BYTES
    } else if family == AF_INET6 {
        SOCKADDR_IN6_BYTES
    } else if family == AF_UNIX {
        SOCKADDR_UN_BYTES as u32
    } else {
        0
    }
}

impl SockAddr {
    /// An empty address of `family`.
    fn with_family(family: u16) -> (r: SockAddr)
        ensures
            r.sun_family == family,
            r.sun_path@ == Seq::new(108, |i: int| 0i8),
    {
        let r = SockAddr { sun_family: family, sun_path: [0i8; 108] };
        proof {
            assert(r.sun_path@ =~= Seq::new(108, |i: int| 0i8));
        }
        r
    }

    /// An empty Unix address.
    pub fn new_unix() -> (r: SockAddr)
        ensures
            r.sun_family == AF_UNIX,
            r.sun_path@ == Seq::new(108, |i: int| 0i8),
    {
        Self::with_family(AF_UNIX as u16)
    }

    /// An empty IPv4 address.
    pub fn new_ipv4() -> (r: SockAddr)
        ensures
            r.sun_family == AF_INET,
            r.sun_path@ == Seq::new(108, |i: int| 0i8),
    {
        Self::with_family(AF_INET as u16)
    }

    /// An empty IPv6 address.
    pub fn new_ipv6() -> (r: SockAddr)
        ensures
            r.sun_family == AF_INET6,
            r.sun_path@ == Seq::new(108, |i: int| 0i8),
    {
        Self::with_family(AF_INET6 as u16)
    }

    /// The length of the address structure of this family (0 if unknown).
    pub fn get_len(&self) -> (r: u32)
        ensures
            r == family_len(self.sun_family as int),
    {
        let f = self.sun_family as i32;
        if f == AF_INET {
            SOCKADDR_IN_BYTES
        } else if f == AF_INET6 {
            SOCKADDR_IN6_BYTES
        } else if f == AF_UNIX {
            SOCKADDR_UN_BYTES as u32
        } else {
            0
        }
    }

    /// The address held in `addr` (`None` for a null pointer): the family
    /// from the first two bytes (little-endian), then as many payload bytes
    /// as the family's structure has (at most 108), the rest zero.
    pub fn clone_to_sockaddr(addr: Option<&[u8]>) -> (r: SockAddr)
        requires
            addr matches Some(b) ==> b@.len() >= 2 && b@.len() >= 2 + payload_len(
                (b@[0] as int + b@[1] as int * 0x100),
            ),
        ensures
            addr is None ==> r.sun_family == 0 && r.sun_path@ == Seq::new(108, |i: int| 0i8),
            addr matches Some(b) ==> {
                let fam = b@[0] as int + b@[1] as int * 0x100;
                let n = payload_len(fam);
                &&& r.sun_family == fam
                &&& forall|i: int|
                    0 <= i < 108 ==> #[trigger] r.sun_path@[i] == (if i < n {
                        b@[2 + i] as i8
                    } else {
                        0i8
                    })
            },
    {
        let mut out = Self::with_family(0);
        let b = match addr {
            Some(b) => b,
            None => return out,
        };
        let fam: u16 = b[0] as u16 + (b[1] as u16) * 0x100;
        out.sun_family = fam;
        let f = fam as i32;
        let n: usize = if f == AF_UNIX {
            108
        } else if f == AF_INET {
            14
        } else if f == AF_INET6 {
            26
        } else {
            0
        };
        let mut i: usize = 0;
        while i < n
            invariant
                i <= n <= 108,
                n == payload_len(fam as int),
                b@.len() >= 2 + n,
                out.sun_family == fam,
                forall|j: int|
                    0 <= j < 108 ==> #[trigger] out.sun_path@[j] == (if j < i {
                        b@[2 + j] as i8
                    } else {
                        0i8
                    }),
            decreases n - i,
        {
            out.sun_path[i] = b[2 + i] as i8;
            i = i + 1;
        }
        out
    }
}

/// Payload bytes of the address structure of `family`, at most 108.
pub open spec fn payload_len(family: int) -> int {
    if family == AF_UNIX {
        108
    } else if family == AF_INET {
        14
    } else if family == AF_INET6 {
        26
    } else {
        0
    }
}

} // verus!
