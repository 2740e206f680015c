//! In-memory pipes and stream sockets shared by all cages.
//!
//! Queues and socket objects live in arenas and are named by their index;
//! pipe endpoint ids and socket ids map to them. Listening sockets are
//! found by their bound key (`unix:<path>` or `inet:<port>`).
use crate::bytequeue::{
    poll_read_bits, poll_write_bits, read_outcome, write_outcome, ByteQueue, QueueView, ReadStep, WriteStep, PIPE_CAPACITY,
    UDSOCK_CAPACITY,
};
use crate::consts::{
    neg, AF_INET, AF_UNIX, EADDRINUSE, EAGAIN, EBADF, ECONNREFUSED, EFAULT, EINVAL, ENOPROTOOPT,
    ENOTCONN, EOPNOTSUPP, EPIPE, FDKIND_IMPIPE, FDKIND_IMSOCK, IPPROTO_TCP, O_NONBLOCK, POLLERR,
    POLLIN, POLLNVAL, POLLOUT, SHUT_RD, SHUT_RDWR, SHUT_WR, SOCK_CLOEXEC, SOCK_NONBLOCK,
    SOCK_STREAM, SOL_SOCKET, SO_ACCEPTCONN, SO_ERROR, SO_LINGER, SO_RCVBUF, SO_REUSEADDR,
    SO_REUSEPORT, SO_SNDBUF, SO_TYPE, TCP_NODELAY,
};
use vstd::utf8::encode_utf8;
use crate::maputil::{keys_of, lemma_take_step};
use crate::strings::{dec, decimal, has_prefix, parse_u16, parse_u16_spec, str_eq, strip_prefix_str};
use std::collections::HashMap;
use vstd::prelude::*;

verus! {

broadcast use vstd::std_specs::hash::group_hash_axioms;

/// First port handed out for automatic binding, counting down.
pub const EPHEMERAL_PORT_RANGE_END: u64 = 60_999;
/// Last port of the automatic range; the count wraps to the first after it.
pub const EPHEMERAL_PORT_RANGE_START: u64 = 32_768;

/// `prefix` followed by the decimal digits of `n`.
fn prefixed_decimal(prefix: &str, n: u64) -> (r: String)
    ensures
        r@ == prefix@ + dec(n as nat),
{
    let mut k = String::from_str(prefix);
    let digits = decimal(n);
    k.append(digits.as_str());
    k
}

/// The key `inet:<port>`.
fn inet_key(port: u64) -> (r: String)
    ensures
        r@ == "inet:"@ + dec(port as nat),
{
    prefixed_decimal("inet:", port)
}

/// The key `unix:@autobind<id>`.
fn autobind_key(id: u64) -> (r: String)
    ensures
        r@ == "unix:@autobind"@ + dec(id as nat),
{
    prefixed_decimal("unix:@autobind", id)
}

/// The key `unix:<path>`.
fn unix_key(path: &str) -> (r: String)
    ensures
        r@ == "unix:"@ + path@,
{
    let mut k = String::from_str("unix:");
    k.append(path);
    k
}

/// What `String::from_utf8_lossy` makes of `b`.
pub uninterp spec fn utf8_lossy(b: Seq<u8>) -> Seq<char>;

/// Calls `String::from_utf8_lossy`, which decodes `bytes` as UTF-8 with
/// each invalid sequence replaced by U+FFFD.
#[verifier::external_body]
fn from_utf8_lossy_string(bytes: &[u8]) -> (r: String)
    ensures
        r@ == utf8_lossy(bytes@),
{
    String::from_utf8_lossy(bytes).into_owned()
}

/// `prefix` followed by `bytes` decoded with `String::from_utf8_lossy`.
fn prefixed_lossy(prefix: &str, bytes: &[u8]) -> (r: String)
    ensures
        r@ == prefix@ + utf8_lossy(bytes@),
{
    let mut k = String::from_str(prefix);
    let text = from_utf8_lossy_string(bytes);
    k.append(text.as_str());
    k
}

/// The key `unix:tmp/loopback<port>`.
fn loopback_key(port: u16) -> (r: String)
    ensures
        r@ == "unix:tmp/loopback"@ + dec(port as nat),
{
    prefixed_decimal("unix:tmp/loopback", port as u64)
}

/// Which end of a pipe an endpoint is.
#[derive(Clone, Copy, PartialEq, Eq, Structural, Debug)]
pub enum PipeSide {
    Read,
    Write,
}

/// A pipe endpoint: its queue and its end.
#[derive(Clone, Copy, PartialEq, Eq, Structural, Debug)]
pub struct PipeEndpoint {
    pub queue: usize,
    pub side: PipeSide,
}

/// The mutable state of a socket.
pub struct SocketState {
    pub domain: i32,
    pub socktype: i32,
    pub protocol: i32,
    pub local_key: Option<String>,
    pub peer: Option<usize>,
    pub listening: bool,
    pub closed: bool,
    pub read_shutdown: bool,
    pub write_shutdown: bool,
    pub reuseaddr: i32,
    pub reuseport: i32,
    pub sndbuf: i32,
    pub rcvbuf: i32,
    pub linger: (i32, i32),
    pub tcp_nodelay: i32,
    pub pending: Vec<usize>,
}

/// A socket object: the queue it receives into and its state.
pub struct InmemSocket {
    pub incoming: usize,
    pub state: SocketState,
}

/// The bound key of a socket, as characters.
pub open spec fn key_view(k: Option<String>) -> Option<Seq<char>> {
    match k {
        Some(s) => Some(s@),
        None => None,
    }
}

/// The abstract state of a socket object.
pub struct SockView {
    pub incoming: usize,
    pub domain: i32,
    pub socktype: i32,
    pub protocol: i32,
    pub local_key: Option<Seq<char>>,
    pub peer: Option<usize>,
    pub listening: bool,
    pub closed: bool,
    pub read_shutdown: bool,
    pub write_shutdown: bool,
    pub reuseaddr: i32,
    pub reuseport: i32,
    pub sndbuf: i32,
    pub rcvbuf: i32,
    pub linger: (i32, i32),
    pub tcp_nodelay: i32,
    pub pending: Seq<usize>,
}

/// The abstract state of socket object `o`.
pub open spec fn sock_view(o: InmemSocket) -> SockView {
    SockView {
        incoming: o.incoming,
        domain: o.state.domain,
        socktype: o.state.socktype,
        protocol: o.state.protocol,
        local_key: key_view(o.state.local_key),
        peer: o.state.peer,
        listening: o.state.listening,
        closed: o.state.closed,
        read_shutdown: o.state.read_shutdown,
        write_shutdown: o.state.write_shutdown,
        reuseaddr: o.state.reuseaddr,
        reuseport: o.state.reuseport,
        sndbuf: o.state.sndbuf,
        rcvbuf: o.state.rcvbuf,
        linger: o.state.linger,
        tcp_nodelay: o.state.tcp_nodelay,
        pending: o.state.pending@,
    }
}

/// A fresh socket of the given kind receiving into queue `q`.
pub open spec fn fresh_sock(q: usize, domain: i32, socktype: i32, protocol: i32) -> SockView {
    let cap = spec_socket_capacity(domain) as i32;
    SockView {
        incoming: q,
        domain,
        socktype,
        protocol,
        local_key: None,
        peer: None,
        listening: false,
        closed: false,
        read_shutdown: false,
        write_shutdown: false,
        reuseaddr: 0,
        reuseport: 0,
        sndbuf: cap,
        rcvbuf: cap,
        linger: (0, 0),
        tcp_nodelay: 0,
        pending: Seq::empty(),
    }
}

/// A fresh empty queue of `capacity` bytes.
pub open spec fn fresh_queue(capacity: nat) -> QueueView {
    QueueView { contents: Seq::empty(), readers: 1, writers: 1, eof: false, capacity }
}

/// Receive capacity of a socket of `domain`.
pub open spec fn spec_socket_capacity(domain: i32) -> usize {
    if domain == AF_UNIX || domain == AF_INET {
        UDSOCK_CAPACITY
    } else {
        PIPE_CAPACITY
    }
}

/// Receive capacity of a socket of `domain`.
pub fn socket_capacity(domain: i32) -> (r: usize)
    ensures
        r == spec_socket_capacity(domain),
{
    if domain == AF_UNIX || domain == AF_INET {
        UDSOCK_CAPACITY
    } else {
        PIPE_CAPACITY
    }
}

/// The fields of a file-descriptor table entry that in-memory fds use.
#[derive(Clone, Copy, PartialEq, Eq, Structural, Debug)]
pub struct FdEntry {
    pub fdkind: u32,
    pub underfd: u64,
    pub should_cloexec: bool,
    pub perfdinfo: u64,
}

/// Whether the per-fd flags of `fd` say non-blocking.
pub open spec fn spec_fd_nonblocking(fd: FdEntry) -> bool {
    (fd.perfdinfo as i32) & O_NONBLOCK != 0
}

/// Whether the per-fd flags say non-blocking.
pub fn fd_is_nonblocking(fdentry: FdEntry) -> (r: bool)
    ensures
        r == spec_fd_nonblocking(fdentry),
{
    (fdentry.perfdinfo as i32) & O_NONBLOCK != 0
}

/// Whether the sockets here can stand for a socket of this kind: a stream
/// socket (creation flags aside) of the Unix or IPv4 domain, TCP or
/// default protocol.
pub fn is_supported_socket(domain: i32, socktype: i32, protocol: i32) -> (r: bool)
    ensures
        r == ((socktype & !(SOCK_CLOEXEC | SOCK_NONBLOCK)) == SOCK_STREAM && (domain == AF_UNIX
            || domain == AF_INET) && (protocol == 0 || protocol == IPPROTO_TCP)),
{
    let base_type = socktype & !(SOCK_CLOEXEC | SOCK_NONBLOCK);
    base_type == SOCK_STREAM && (domain == AF_UNIX || domain == AF_INET) && (protocol == 0
        || protocol == IPPROTO_TCP)
}

/// The next port of the countdown after `p`, wrapping to the top.
pub open spec fn next_port(p: u64) -> u64 {
    if p <= EPHEMERAL_PORT_RANGE_START {
        EPHEMERAL_PORT_RANGE_END
    } else {
        (p - 1) as u64
    }
}

/// The port counter after choosing an automatic key for `domain`.
pub open spec fn port_after(domain: i32, port: u64) -> u64 {
    if domain == AF_INET {
        next_port(port)
    } else {
        port
    }
}

/// The automatic key for `domain` given the port counter and next id.
pub open spec fn ephemeral_key(domain: i32, port: u64, next_id: u64) -> Seq<char> {
    if domain == AF_INET {
        "inet:"@ + dec(port as nat)
    } else {
        "unix:@autobind"@ + dec(next_id as nat)
    }
}

/// Replacing one object by one whose links stay in range keeps the
/// objects sound.
proof fn lemma_objs_ok_update(objs: Seq<SockView>, o: int, v: SockView, nq: nat)
    requires
        objs_ok(objs, nq),
        0 <= o < objs.len(),
        v.incoming < nq,
        v.peer matches Some(p) ==> p < objs.len(),
        forall|j: int| 0 <= j < v.pending.len() ==> #[trigger] v.pending[j] < objs.len(),
    ensures
        objs_ok(objs.update(o, v), nq),
{
    let n = objs.update(o, v);
    assert forall|i: int| 0 <= i < n.len() implies {
        let x = #[trigger] n[i];
        &&& x.incoming < nq
        &&& (x.peer matches Some(p) ==> p < n.len())
        &&& forall|j: int| 0 <= j < x.pending.len() ==> #[trigger] x.pending[j] < n.len()
    } by {
        if i != o {
            assert(n[i] == objs[i]);
        }
    }
}

/// Socket objects name existing queues and objects.
pub open spec fn objs_ok(objs: Seq<SockView>, nqueues: nat) -> bool {
    forall|i: int|
        0 <= i < objs.len() ==> {
            let o = #[trigger] objs[i];
            &&& o.incoming < nqueues
            &&& (o.peer matches Some(p) ==> p < objs.len())
            &&& forall|j: int| 0 <= j < o.pending.len() ==> #[trigger] o.pending[j] < objs.len()
        }
}

/// Listeners name existing objects and their keys are distinct.
pub open spec fn listeners_ok(l: Seq<(Seq<char>, usize)>, nobjs: nat) -> bool {
    &&& forall|j: int| 0 <= j < l.len() ==> #[trigger] l[j].1 < nobjs
    &&& forall|a: int, b: int|
        0 <= a < l.len() && 0 <= b < l.len() && a != b ==> #[trigger] l[a].0 != #[trigger] l[b].0
}

/// The listeners without the one bound to `key`, if that one is object `o`.
pub open spec fn listeners_without(l: Seq<(Seq<char>, usize)>, key: Seq<char>, o: usize) -> Seq<
    (Seq<char>, usize),
> {
    if exists|j: int| 0 <= j < l.len() && #[trigger] l[j] == (key, o) {
        l.remove(choose|j: int| 0 <= j < l.len() && #[trigger] l[j] == (key, o))
    } else {
        l
    }
}

/// Closing object `o` takes the state from `ipc` to `ipc2`: an open object
/// is marked closed, gives up its listener, and its queue loses its
/// readers; its peer's queue loses its writers (end of file) and the peer
/// its link back. Closing a closed object changes nothing.
pub open spec fn close_socket_result(ipc: InmemIpc, ipc2: InmemIpc, o: int) -> bool {
    let v = ipc.objs()[o];
    if v.closed {
        ipc2.same_state(&ipc)
    } else {
        let objs1 = ipc.objs().update(o, SockView { closed: true, ..v });
        let q1 = ipc.queues().update(
            v.incoming as int,
            QueueView { readers: 0, ..ipc.queues()[v.incoming as int] },
        );
        &&& ipc2.listeners() == match v.local_key {
            Some(k) => listeners_without(ipc.listeners(), k, o as usize),
            None => ipc.listeners(),
        }
        &&& match v.peer {
            None => ipc2.objs() == objs1 && ipc2.queues() == q1,
            Some(p) => {
                let pq = objs1[p as int].incoming as int;
                &&& ipc2.objs() == objs1.update(p as int, SockView { peer: None, ..objs1[p as int] })
                &&& ipc2.queues() == q1.update(pq, QueueView { writers: 0, eof: true, ..q1[pq] })
            },
        }
        &&& ipc2.endpoints() == ipc.endpoints()
        &&& ipc2.sockets() == ipc.sockets()
        &&& ipc2.next_endpoint_id() == ipc.next_endpoint_id()
        &&& ipc2.next_socket_id() == ipc.next_socket_id()
        &&& ipc2.next_ephemeral_port() == ipc.next_ephemeral_port()
    }
}

/// All in-memory pipes and sockets.
pub struct InmemIpc {
    queues: Vec<ByteQueue>,
    objs: Vec<InmemSocket>,
    endpoints: HashMap<u64, PipeEndpoint>,
    sockets: HashMap<u64, usize>,
    listeners: Vec<(String, usize)>,
    next_endpoint_id: u64,
    next_socket_id: u64,
    next_ephemeral_port: u64,
}

impl InmemIpc {
    /// The queues, by index.
    pub closed spec fn queues(&self) -> Seq<QueueView> {
        self.queues@.map_values(|q: ByteQueue| q@)
    }

    /// The socket objects, by index.
    pub closed spec fn objs(&self) -> Seq<SockView> {
        self.objs@.map_values(|o: InmemSocket| sock_view(o))
    }

    /// Pipe endpoint id to endpoint.
    pub closed spec fn endpoints(&self) -> Map<u64, PipeEndpoint> {
        self.endpoints@
    }

    /// Socket id to socket object index.
    pub closed spec fn sockets(&self) -> Map<u64, usize> {
        self.sockets@
    }

    /// Bound listening keys and their socket objects.
    pub closed spec fn listeners(&self) -> Seq<(Seq<char>, usize)> {
        self.listeners@.map_values(|e: (String, usize)| (e.0@, e.1))
    }

    /// Next pipe endpoint id.
    pub closed spec fn next_endpoint_id(&self) -> u64 {
        self.next_endpoint_id
    }

    /// Next socket id.
    pub closed spec fn next_socket_id(&self) -> u64 {
        self.next_socket_id
    }

    /// Next automatically assigned port.
    pub closed spec fn next_ephemeral_port(&self) -> u64 {
        self.next_ephemeral_port
    }

    /// Every index names an existing object, every queue is sound, and
    /// listening keys are distinct.
    pub closed spec fn wf(&self) -> bool {
        &&& forall|q: int| 0 <= q < self.queues@.len() ==> #[trigger] self.queues@[q].wf()
        &&& objs_ok(self.objs(), self.queues@.len())
        &&& forall|id: u64| #[trigger]
            self.endpoints@.contains_key(id) ==> self.endpoints@[id].queue < self.queues@.len()
        &&& forall|id: u64| #[trigger]
            self.sockets@.contains_key(id) ==> self.sockets@[id] < self.objs@.len()
        &&& listeners_ok(self.listeners(), self.objs@.len())
        &&& EPHEMERAL_PORT_RANGE_START <= self.next_ephemeral_port <= EPHEMERAL_PORT_RANGE_END
    }

    /// Whether some listener is bound to `key`.
    pub open spec fn listening_on(&self, key: Seq<char>) -> bool {
        exists|j: int| 0 <= j < self.listeners().len() && #[trigger] self.listeners()[j].0 == key
    }

    /// Whether some registered socket other than object `except` is open
    /// and bound to `key`.
    pub open spec fn bound_elsewhere(&self, key: Seq<char>, except: int) -> bool {
        exists|id: u64|
            #![trigger self.sockets().contains_key(id)]
            self.sockets().contains_key(id) && self.sockets()[id] != except && !self.objs()[self.sockets()[id] as int].closed
                && self.objs()[self.sockets()[id] as int].local_key == Some(key)
    }

    /// Appends a queue of `capacity` bytes; returns its index.
    fn new_queue(&mut self, capacity: usize) -> (r: usize)
        requires
            old(self).wf(),
            1 <= capacity < usize::MAX,
        ensures
            final(self).wf(),
            r == old(self).queues().len(),
            final(self).queues() == old(self).queues().push(fresh_queue(capacity as nat)),
            final(self).objs() == old(self).objs(),
            final(self).endpoints() == old(self).endpoints(),
            final(self).sockets() == old(self).sockets(),
            final(self).listeners() == old(self).listeners(),
            final(self).next_endpoint_id() == old(self).next_endpoint_id(),
            final(self).next_socket_id() == old(self).next_socket_id(),
            final(self).next_ephemeral_port() == old(self).next_ephemeral_port(),
    {
        let r = self.queues.len();
        self.queues.push(ByteQueue::new(capacity));
        proof {
            assert(self.queues() =~= old(self).queues().push(self.queues@[r as int]@));
        }
        r
    }

    /// Appends a fresh socket object with its own receive queue; returns
    /// its index.
    fn new_socket_obj(&mut self, domain: i32, socktype: i32, protocol: i32) -> (r: usize)
        requires
            old(self).wf(),
        ensures
            final(self).wf(),
            r == old(self).objs().len(),
            final(self).queues() == old(self).queues().push(
                fresh_queue(spec_socket_capacity(domain) as nat),
            ),
            final(self).objs() == old(self).objs().push(
                fresh_sock(old(self).queues().len() as usize, domain, socktype, protocol),
            ),
            final(self).endpoints() == old(self).endpoints(),
            final(self).sockets() == old(self).sockets(),
            final(self).listeners() == old(self).listeners(),
            final(self).next_endpoint_id() == old(self).next_endpoint_id(),
            final(self).next_socket_id() == old(self).next_socket_id(),
            final(self).next_ephemeral_port() == old(self).next_ephemeral_port(),
    {
        let capacity = socket_capacity(domain);
        let q = self.new_queue(capacity);
        assert(self.queues().len() == self.queues@.len());
        assert(old(self).queues().len() == old(self).queues@.len());
        assert(q < self.queues@.len());
        let cap = capacity as i32;
        let obj = InmemSocket {
            incoming: q,
            state: SocketState {
                domain,
                socktype,
                protocol,
                local_key: None,
                peer: None,
                listening: false,
                closed: false,
                read_shutdown: false,
                write_shutdown: false,
                reuseaddr: 0,
                reuseport: 0,
                sndbuf: cap,
                rcvbuf: cap,
                linger: (0, 0),
                tcp_nodelay: 0,
                pending: Vec::new(),
            },
        };
        let r = self.objs.len();
        self.objs.push(obj);
        proof {
            assert(self.objs() =~= old(self).objs().push(
                fresh_sock(old(self).queues().len() as usize, domain, socktype, protocol),
            ));
            let ov = old(self).objs();
            assert forall|i: int| 0 <= i < self.objs().len() implies {
                let o = #[trigger] self.objs()[i];
                &&& o.incoming < self.queues@.len()
                &&& (o.peer matches Some(p) ==> p < self.objs().len())
                &&& forall|j: int|
                    0 <= j < o.pending.len() ==> #[trigger] o.pending[j] < self.objs().len()
            } by {
                if i < r {
                    assert(self.objs()[i] == ov[i]);
                }
            }
        }
        r
    }

    /// Gives object `obj` the next socket id and returns the id.
    fn register_socket(&mut self, obj: usize) -> (r: u64)
        requires
            old(self).wf(),
            obj < old(self).objs().len(),
        ensures
            final(self).wf(),
            r == old(self).next_socket_id(),
            final(self).sockets() == old(self).sockets().insert(r, obj),
            final(self).next_socket_id() == old(self).next_socket_id().wrapping_add(1),
            final(self).queues() == old(self).queues(),
            final(self).objs() == old(self).objs(),
            final(self).endpoints() == old(self).endpoints(),
            final(self).listeners() == old(self).listeners(),
            final(self).next_endpoint_id() == old(self).next_endpoint_id(),
            final(self).next_ephemeral_port() == old(self).next_ephemeral_port(),
    {
        let id = self.next_socket_id;
        self.next_socket_id = self.next_socket_id.wrapping_add(1);
        self.sockets.insert(id, obj);
        id
    }

    /// The object of socket `socket_id`, or `-EBADF`.
    pub fn get_socket(&self, socket_id: u64) -> (r: Result<usize, i32>)
        requires
            self.wf(),
        ensures
            self.sockets().contains_key(socket_id) ==> r == Ok::<usize, i32>(
                self.sockets()[socket_id],
            ) && self.sockets()[socket_id] < self.objs().len(),
            !self.sockets().contains_key(socket_id) ==> r == Err::<usize, i32>(neg(EBADF)),
    {
        match self.sockets.get(&socket_id) {
            Some(o) => Ok(*o),
            None => Err(-EBADF),
        }
    }

    /// The endpoint `endpoint_id`, or `-EBADF`.
    pub fn get_endpoint(&self, endpoint_id: u64) -> (r: Result<PipeEndpoint, i32>)
        requires
            self.wf(),
        ensures
            self.endpoints().contains_key(endpoint_id) ==> r == Ok::<PipeEndpoint, i32>(
                self.endpoints()[endpoint_id],
            ) && self.endpoints()[endpoint_id].queue < self.queues().len(),
            !self.endpoints().contains_key(endpoint_id) ==> r == Err::<PipeEndpoint, i32>(neg(EBADF)),
    {
        match self.endpoints.get(&endpoint_id) {
            Some(e) => Ok(*e),
            None => Err(-EBADF),
        }
    }

    /// The position of the listener bound to `key`, if any.
    fn find_listener(&self, key: &str) -> (r: Option<usize>)
        requires
            self.wf(),
        ensures
            r matches Some(j) ==> j < self.listeners().len() && self.listeners()[j as int].0 == key@
                && self.listeners()[j as int].1 < self.objs().len(),
            r is None ==> !self.listening_on(key@),
    {
        let mut j: usize = 0;
        while j < self.listeners.len()
            invariant
                self.wf(),
                j <= self.listeners@.len(),
                forall|a: int| 0 <= a < j ==> #[trigger] self.listeners@[a].0@ != key@,
            decreases self.listeners@.len() - j,
        {
            if str_eq(self.listeners[j].0.as_str(), key) {
                proof {
                    assert(self.listeners()[j as int] == (self.listeners@[j as int].0@, self.listeners@[j as int].1));
                }
                return Some(j);
            }
            j = j + 1;
        }
        proof {
            assert forall|a: int| 0 <= a < self.listeners().len() implies #[trigger] self.listeners()[a].0
                != key@ by {
                assert(self.listeners()[a] == (self.listeners@[a].0@, self.listeners@[a].1));
            }
        }
        None
    }

    /// Whether a registered socket other than object `except` is open and
    /// bound to `key`.
    fn bound_in_sockets(&self, key: &str, except: Option<usize>) -> (r: bool)
        requires
            self.wf(),
        ensures
            r == self.bound_elsewhere(
                key@,
                match except {
                    Some(e) => e as int,
                    None => -1,
                },
            ),
    {
        let ghost ex: int = if except is Some {
            except->0 as int
        } else {
            -1
        };
        let ids = keys_of(&self.sockets);
        let mut i: usize = 0;
        while i < ids.len()
            invariant
                self.wf(),
                i <= ids@.len(),
                ex == (if except is Some {
                    except->0 as int
                } else {
                    -1
                }),
                forall|k: u64| #[trigger] ids@.contains(k) <==> self.sockets@.contains_key(k),
                forall|a: int|
                    0 <= a < i ==> {
                        let o = self.sockets@[#[trigger] ids@[a]] as int;
                        !(o != ex && !self.objs()[o].closed && self.objs()[o].local_key == Some(
                            key@,
                        ))
                    },
            decreases ids@.len() - i,
        {
            let id = ids[i];
            assert(ids@.contains(id));
            let o = *self.sockets.get(&id).unwrap();
            assert(self.sockets@[id] == o);
            assert(ids@[i as int] == id);
            let is_except = match except {
                Some(e) => e == o,
                None => false,
            };
            assert(is_except <==> (o as int == ex));
            if !is_except && !self.objs[o].state.closed {
                match &self.objs[o].state.local_key {
                    Some(k) => {
                        if str_eq(k.as_str(), key) {
                            proof {
                                assert(self.objs()[o as int] == sock_view(self.objs@[o as int]));
                            }
                            return true;
                        }
                    },
                    None => {},
                }
            }
            proof {
                assert(self.objs()[o as int] == sock_view(self.objs@[o as int]));
            }
            i = i + 1;
        }
        proof {
            assert forall|id: u64|
                #![trigger self.sockets().contains_key(id)]
                self.sockets().contains_key(id) implies !(self.sockets()[id] != ex
                && !self.objs()[self.sockets()[id] as int].closed && self.objs()[self.sockets()[id] as int].local_key
                == Some(key@)) by {
                assert(ids@.contains(id));
                let a = choose|a: int| 0 <= a < ids@.len() && ids@[a] == id;
            }
        }
        false
    }

    /// The next automatic key for a socket of `domain`: the next port of
    /// the countdown for IPv4 (advancing it), an autobind name otherwise.
    fn next_ephemeral_key(&mut self, domain: i32) -> (r: String)
        requires
            old(self).wf(),
        ensures
            final(self).wf(),
            r@ == ephemeral_key(domain, old(self).next_ephemeral_port(), old(self).next_socket_id()),
            final(self).next_ephemeral_port() == port_after(domain, old(self).next_ephemeral_port()),
            final(self).queues() == old(self).queues(),
            final(self).objs() == old(self).objs(),
            final(self).endpoints() == old(self).endpoints(),
            final(self).sockets() == old(self).sockets(),
            final(self).listeners() == old(self).listeners(),
            final(self).next_endpoint_id() == old(self).next_endpoint_id(),
            final(self).next_socket_id() == old(self).next_socket_id(),
    {
        if domain == AF_INET {
            let port = self.next_ephemeral_port;
            self.next_ephemeral_port = if port <= EPHEMERAL_PORT_RANGE_START {
                EPHEMERAL_PORT_RANGE_END
            } else {
                port - 1
            };
            inet_key(port)
        } else {
            autobind_key(self.next_socket_id)
        }
    }

    /// Binds object `o` to `key`.
    fn set_local_key(&mut self, o: usize, key: String)
        requires
            old(self).wf(),
            o < old(self).objs().len(),
        ensures
            final(self).wf(),
            final(self).objs() == old(self).objs().update(
                o as int,
                SockView { local_key: Some(key@), ..old(self).objs()[o as int] },
            ),
            final(self).queues() == old(self).queues(),
            final(self).endpoints() == old(self).endpoints(),
            final(self).sockets() == old(self).sockets(),
            final(self).listeners() == old(self).listeners(),
            final(self).next_endpoint_id() == old(self).next_endpoint_id(),
            final(self).next_socket_id() == old(self).next_socket_id(),
            final(self).next_ephemeral_port() == old(self).next_ephemeral_port(),
    {
        let ghost k = key@;
        self.objs[o].state.local_key = Some(key);
        proof {
            assert(self.objs() =~= old(self).objs().update(
                o as int,
                SockView { local_key: Some(k), ..old(self).objs()[o as int] },
            ));
            lemma_objs_ok_update(old(self).objs(), o as int, self.objs()[o as int], self.queues@.len());
        }
    }

    /// Sets the peer of object `o`.
    fn set_peer(&mut self, o: usize, peer: Option<usize>)
        requires
            old(self).wf(),
            o < old(self).objs().len(),
            peer matches Some(p) ==> p < old(self).objs().len(),
        ensures
            final(self).wf(),
            final(self).objs() == old(self).objs().update(
                o as int,
                SockView { peer, ..old(self).objs()[o as int] },
            ),
            final(self).queues() == old(self).queues(),
            final(self).endpoints() == old(self).endpoints(),
            final(self).sockets() == old(self).sockets(),
            final(self).listeners() == old(self).listeners(),
            final(self).next_endpoint_id() == old(self).next_endpoint_id(),
            final(self).next_socket_id() == old(self).next_socket_id(),
            final(self).next_ephemeral_port() == old(self).next_ephemeral_port(),
    {
        self.objs[o].state.peer = peer;
        proof {
            assert(self.objs() =~= old(self).objs().update(
                o as int,
                SockView { peer, ..old(self).objs()[o as int] },
            ));
            lemma_objs_ok_update(old(self).objs(), o as int, self.objs()[o as int], self.queues@.len());
        }
    }

    /// Marks object `o` as listening.
    fn set_listening(&mut self, o: usize)
        requires
            old(self).wf(),
            o < old(self).objs().len(),
        ensures
            final(self).wf(),
            final(self).objs() == old(self).objs().update(
                o as int,
                SockView { listening: true, ..old(self).objs()[o as int] },
            ),
            final(self).queues() == old(self).queues(),
            final(self).endpoints() == old(self).endpoints(),
            final(self).sockets() == old(self).sockets(),
            final(self).listeners() == old(self).listeners(),
            final(self).next_endpoint_id() == old(self).next_endpoint_id(),
            final(self).next_socket_id() == old(self).next_socket_id(),
            final(self).next_ephemeral_port() == old(self).next_ephemeral_port(),
    {
        self.objs[o].state.listening = true;
        proof {
            assert(self.objs() =~= old(self).objs().update(
                o as int,
                SockView { listening: true, ..old(self).objs()[o as int] },
            ));
            lemma_objs_ok_update(old(self).objs(), o as int, self.objs()[o as int], self.queues@.len());
        }
    }

    /// Marks object `o` as closed.
    fn set_closed(&mut self, o: usize)
        requires
            old(self).wf(),
            o < old(self).objs().len(),
        ensures
            final(self).wf(),
            final(self).objs() == old(self).objs().update(
                o as int,
                SockView { closed: true, ..old(self).objs()[o as int] },
            ),
            final(self).queues() == old(self).queues(),
            final(self).endpoints() == old(self).endpoints(),
            final(self).sockets() == old(self).sockets(),
            final(self).listeners() == old(self).listeners(),
            final(self).next_endpoint_id() == old(self).next_endpoint_id(),
            final(self).next_socket_id() == old(self).next_socket_id(),
            final(self).next_ephemeral_port() == old(self).next_ephemeral_port(),
    {
        self.objs[o].state.closed = true;
        proof {
            assert(self.objs() =~= old(self).objs().update(
                o as int,
                SockView { closed: true, ..old(self).objs()[o as int] },
            ));
            lemma_objs_ok_update(old(self).objs(), o as int, self.objs()[o as int], self.queues@.len());
        }
    }

    /// Sets the shutdown flags of object `o`.
    fn set_shutdown(&mut self, o: usize, rd: bool, wr: bool)
        requires
            old(self).wf(),
            o < old(self).objs().len(),
        ensures
            final(self).wf(),
            final(self).objs() == old(self).objs().update(
                o as int,
                SockView { read_shutdown: rd, write_shutdown: wr, ..old(self).objs()[o as int] },
            ),
            final(self).queues() == old(self).queues(),
            final(self).endpoints() == old(self).endpoints(),
            final(self).sockets() == old(self).sockets(),
            final(self).listeners() == old(self).listeners(),
            final(self).next_endpoint_id() == old(self).next_endpoint_id(),
            final(self).next_socket_id() == old(self).next_socket_id(),
            final(self).next_ephemeral_port() == old(self).next_ephemeral_port(),
    {
        self.objs[o].state.read_shutdown = rd;
        self.objs[o].state.write_shutdown = wr;
        proof {
            assert(self.objs() =~= old(self).objs().update(
                o as int,
                SockView { read_shutdown: rd, write_shutdown: wr, ..old(self).objs()[o as int] },
            ));
            lemma_objs_ok_update(old(self).objs(), o as int, self.objs()[o as int], self.queues@.len());
        }
    }

    /// Queues connection object `c` on listener `o`.
    fn push_pending(&mut self, o: usize, c: usize)
        requires
            old(self).wf(),
            o < old(self).objs().len(),
            c < old(self).objs().len(),
        ensures
            final(self).wf(),
            final(self).objs() == old(self).objs().update(
                o as int,
                SockView { pending: old(self).objs()[o as int].pending.push(c), ..old(self).objs()[o as int] },
            ),
            final(self).queues() == old(self).queues(),
            final(self).endpoints() == old(self).endpoints(),
            final(self).sockets() == old(self).sockets(),
            final(self).listeners() == old(self).listeners(),
            final(self).next_endpoint_id() == old(self).next_endpoint_id(),
            final(self).next_socket_id() == old(self).next_socket_id(),
            final(self).next_ephemeral_port() == old(self).next_ephemeral_port(),
    {
        self.objs[o].state.pending.push(c);
        proof {
            assert(self.objs() =~= old(self).objs().update(
                o as int,
                SockView { pending: old(self).objs()[o as int].pending.push(c), ..old(self).objs()[o as int] },
            ));
            lemma_objs_ok_update(old(self).objs(), o as int, self.objs()[o as int], self.queues@.len());
        }
    }

    /// Sets the integer socket options of object `o`.
    fn set_int_options(&mut self, o: usize, reuseaddr: i32, reuseport: i32, sndbuf: i32, rcvbuf: i32, tcp_nodelay: i32)
        requires
            old(self).wf(),
            o < old(self).objs().len(),
        ensures
            final(self).wf(),
            final(self).objs() == old(self).objs().update(
                o as int,
                SockView { reuseaddr, reuseport, sndbuf, rcvbuf, tcp_nodelay, ..old(self).objs()[o as int] },
            ),
            final(self).queues() == old(self).queues(),
            final(self).endpoints() == old(self).endpoints(),
            final(self).sockets() == old(self).sockets(),
            final(self).listeners() == old(self).listeners(),
            final(self).next_endpoint_id() == old(self).next_endpoint_id(),
            final(self).next_socket_id() == old(self).next_socket_id(),
            final(self).next_ephemeral_port() == old(self).next_ephemeral_port(),
    {
        self.objs[o].state.reuseaddr = reuseaddr;
        self.objs[o].state.reuseport = reuseport;
        self.objs[o].state.sndbuf = sndbuf;
        self.objs[o].state.rcvbuf = rcvbuf;
        self.objs[o].state.tcp_nodelay = tcp_nodelay;
        proof {
            assert(self.objs() =~= old(self).objs().update(
                o as int,
                SockView { reuseaddr, reuseport, sndbuf, rcvbuf, tcp_nodelay, ..old(self).objs()[o as int] },
            ));
            lemma_objs_ok_update(old(self).objs(), o as int, self.objs()[o as int], self.queues@.len());
        }
    }

    /// Sets the linger option of object `o`.
    fn set_linger(&mut self, o: usize, linger: (i32, i32))
        requires
            old(self).wf(),
            o < old(self).objs().len(),
        ensures
            final(self).wf(),
            final(self).objs() == old(self).objs().update(
                o as int,
                SockView { linger, ..old(self).objs()[o as int] },
            ),
            final(self).queues() == old(self).queues(),
            final(self).endpoints() == old(self).endpoints(),
            final(self).sockets() == old(self).sockets(),
            final(self).listeners() == old(self).listeners(),
            final(self).next_endpoint_id() == old(self).next_endpoint_id(),
            final(self).next_socket_id() == old(self).next_socket_id(),
            final(self).next_ephemeral_port() == old(self).next_ephemeral_port(),
    {
        self.objs[o].state.linger = linger;
        proof {
            assert(self.objs() =~= old(self).objs().update(
                o as int,
                SockView { linger, ..old(self).objs()[o as int] },
            ));
            lemma_objs_ok_update(old(self).objs(), o as int, self.objs()[o as int], self.queues@.len());
        }
    }

    /// The object listening on `key` (meaningful when one does).
    pub open spec fn listener_of(&self, key: Seq<char>) -> usize {
        self.listeners()[choose|j: int| 0 <= j < self.listeners().len() && #[trigger] self.listeners()[j].0 == key].1
    }

    /// Drops the listener bound to `key` if it is object `o`.
    fn remove_listener_of(&mut self, key: &str, o: usize)
        requires
            old(self).wf(),
        ensures
            final(self).wf(),
            final(self).listeners() == listeners_without(old(self).listeners(), key@, o),
            final(self).queues() == old(self).queues(),
            final(self).objs() == old(self).objs(),
            final(self).endpoints() == old(self).endpoints(),
            final(self).sockets() == old(self).sockets(),
            final(self).next_endpoint_id() == old(self).next_endpoint_id(),
            final(self).next_socket_id() == old(self).next_socket_id(),
            final(self).next_ephemeral_port() == old(self).next_ephemeral_port(),
    {
        let ghost l = old(self).listeners();
        match self.find_listener(key) {
            Some(j) => {
                if self.listeners[j].1 == o {
                    proof {
                        assert(l[j as int] == (self.listeners@[j as int].0@, self.listeners@[j as int].1));
                        assert(l[j as int] == (key@, o));
                        let c = choose|i: int| 0 <= i < l.len() && #[trigger] l[i] == (key@, o);
                        assert(0 <= c < l.len() && l[c] == (key@, o));
                        if c != j {
                            assert(l[c].0 != l[j as int].0);
                        }
                    }
                    self.listeners.remove(j);
                    proof {
                        assert(self.listeners() =~= l.remove(j as int));
                        let n = self.listeners();
                        assert forall|a: int, b: int|
                            0 <= a < n.len() && 0 <= b < n.len() && a != b implies #[trigger] n[a].0
                            != #[trigger] n[b].0 by {
                            let a2 = if a < j { a } else { a + 1 };
                            let b2 = if b < j { b } else { b + 1 };
                            assert(n[a] == l[a2]);
                            assert(n[b] == l[b2]);
                        }
                        assert forall|i: int| 0 <= i < n.len() implies #[trigger] n[i].1 < self.objs@.len() by {
                            let i2 = if i < j { i } else { i + 1 };
                            assert(n[i] == l[i2]);
                        }
                    }
                } else {
                    proof {
                        assert(l[j as int] == (self.listeners@[j as int].0@, self.listeners@[j as int].1));
                        if exists|i: int| 0 <= i < l.len() && #[trigger] l[i] == (key@, o) {
                            let c = choose|i: int| 0 <= i < l.len() && #[trigger] l[i] == (key@, o);
                            if c != j {
                                assert(l[c].0 != l[j as int].0);
                            }
                            assert(false);
                        }
                    }
                }
            },
            None => {
                proof {
                    if exists|i: int| 0 <= i < l.len() && #[trigger] l[i] == (key@, o) {
                        let c = choose|i: int| 0 <= i < l.len() && #[trigger] l[i] == (key@, o);
                        assert(l[c].0 == key@);
                        assert(false);
                    }
                }
            },
        }
    }

    /// Adds a listener for `key` on object `o`; no listener has that key.
    fn add_listener(&mut self, key: String, o: usize)
        requires
            old(self).wf(),
            !old(self).listening_on(key@),
            o < old(self).objs().len(),
        ensures
            final(self).wf(),
            final(self).listeners() == old(self).listeners().push((key@, o)),
            final(self).queues() == old(self).queues(),
            final(self).objs() == old(self).objs(),
            final(self).endpoints() == old(self).endpoints(),
            final(self).sockets() == old(self).sockets(),
            final(self).next_endpoint_id() == old(self).next_endpoint_id(),
            final(self).next_socket_id() == old(self).next_socket_id(),
            final(self).next_ephemeral_port() == old(self).next_ephemeral_port(),
    {
        let ghost l = old(self).listeners();
        let ghost k = key@;
        self.listeners.push((key, o));
        proof {
            assert(self.listeners() =~= l.push((k, o)));
            let n = self.listeners();
            assert forall|a: int, b: int|
                0 <= a < n.len() && 0 <= b < n.len() && a != b implies #[trigger] n[a].0
                != #[trigger] n[b].0 by {
                if a == l.len() {
                    assert(l[b].0 != k);
                } else if b == l.len() {
                    assert(l[a].0 != k);
                }
            }
        }
    }

    /// What soundness gives callers: socket ids and endpoints name
    /// existing objects and queues, objects link to existing objects and
    /// queues, listeners name existing objects under distinct keys, every
    /// queue holds no more than its usable capacity, and the next automatic
    /// port lies in the automatic range.
    pub proof fn lemma_wf(&self)
        requires
            self.wf(),
        ensures
            forall|q: int|
                0 <= q < self.queues().len() ==> 1 <= #[trigger] self.queues()[q].capacity < usize::MAX
                    && self.queues()[q].contents.len() <= self.queues()[q].capacity,
            EPHEMERAL_PORT_RANGE_START <= self.next_ephemeral_port() <= EPHEMERAL_PORT_RANGE_END,
            forall|id: u64| #[trigger]
                self.sockets().contains_key(id) ==> self.sockets()[id] < self.objs().len(),
            forall|id: u64| #[trigger]
                self.endpoints().contains_key(id) ==> self.endpoints()[id].queue < self.queues().len(),
            objs_ok(self.objs(), self.queues().len()),
            listeners_ok(self.listeners(), self.objs().len()),
    {
        assert forall|q: int| 0 <= q < self.queues().len() implies 1 <= #[trigger] self.queues()[
            q
        ].capacity < usize::MAX && self.queues()[q].contents.len() <= self.queues()[q].capacity by {
            self.queues@[q].lemma_wf();
        }
    }

    /// Everything but the queues is as in `o`.
    pub open spec fn same_but_queues(&self, o: &InmemIpc) -> bool {
        &&& self.objs() == o.objs()
        &&& self.endpoints() == o.endpoints()
        &&& self.sockets() == o.sockets()
        &&& self.listeners() == o.listeners()
        &&& self.next_endpoint_id() == o.next_endpoint_id()
        &&& self.next_socket_id() == o.next_socket_id()
        &&& self.next_ephemeral_port() == o.next_ephemeral_port()
    }

    /// Everything is as in `o`.
    pub open spec fn same_state(&self, o: &InmemIpc) -> bool {
        self.same_but_queues(o) && self.queues() == o.queues()
    }

    /// Only queue `q` may differ from `o`.
    pub open spec fn only_queue_changed(&self, o: &InmemIpc, q: int) -> bool {
        &&& self.same_but_queues(o)
        &&& self.queues().len() == o.queues().len()
        &&& self.queues() == o.queues().update(q, self.queues()[q])
    }

    /// Drops the readers of queue `q`.
    fn queue_close_readers(&mut self, q: usize)
        requires
            old(self).wf(),
            q < old(self).queues().len(),
        ensures
            final(self).wf(),
            final(self).same_but_queues(old(self)),
            final(self).queues() == old(self).queues().update(
                q as int,
                QueueView { readers: 0, ..old(self).queues()[q as int] },
            ),
    {
        self.queues[q].close_readers();
        proof {
            assert(self.queues() =~= old(self).queues().update(
                q as int,
                QueueView { readers: 0, ..old(self).queues()[q as int] },
            ));
        }
    }

    /// Drops the writers of queue `q` and marks its end of file.
    fn queue_close_writers(&mut self, q: usize)
        requires
            old(self).wf(),
            q < old(self).queues().len(),
        ensures
            final(self).wf(),
            final(self).same_but_queues(old(self)),
            final(self).queues() == old(self).queues().update(
                q as int,
                QueueView { writers: 0, eof: true, ..old(self).queues()[q as int] },
            ),
    {
        self.queues[q].close_writers();
        proof {
            assert(self.queues() =~= old(self).queues().update(
                q as int,
                QueueView { writers: 0, eof: true, ..old(self).queues()[q as int] },
            ));
        }
    }

    /// One read step on queue `q`.
    fn queue_read(&mut self, q: usize, count: usize, nonblocking: bool) -> (r: ReadStep)
        requires
            old(self).wf(),
            q < old(self).queues().len(),
        ensures
            final(self).wf(),
            final(self).only_queue_changed(old(self), q as int),
            read_outcome(
                old(self).queues()[q as int],
                final(self).queues()[q as int],
                count as int,
                nonblocking,
                r,
            ),
    {
        let r = self.queues[q].read_step(count, nonblocking);
        proof {
            assert(self.queues() =~= old(self).queues().update(q as int, self.queues()[q as int]));
        }
        r
    }

    /// One write step on queue `q`.
    fn queue_write(&mut self, q: usize, data: &[u8], written: usize, nonblocking: bool, limit: usize) -> (r:
        WriteStep)
        requires
            old(self).wf(),
            q < old(self).queues().len(),
            written <= data@.len(),
        ensures
            final(self).wf(),
            final(self).only_queue_changed(old(self), q as int),
            write_outcome(
                old(self).queues()[q as int],
                final(self).queues()[q as int],
                data@,
                written as int,
                nonblocking,
                limit as int,
                r,
            ),
    {
        let r = self.queues[q].write_with_limit(data, written, nonblocking, limit);
        proof {
            assert(self.queues() =~= old(self).queues().update(q as int, self.queues()[q as int]));
        }
        r
    }

    /// Closes object `o`.
    fn close_socket(&mut self, o: usize)
        requires
            old(self).wf(),
            o < old(self).objs().len(),
        ensures
            final(self).wf(),
            close_socket_result(*old(self), *final(self), o as int),
    {
        proof {
            assert(self.objs()[o as int] == sock_view(self.objs@[o as int]));
        }
        if self.objs[o].state.closed {
            return;
        }
        let peer = self.objs[o].state.peer;
        let key: Option<String> = match &self.objs[o].state.local_key {
            Some(k) => Some(k.clone()),
            None => None,
        };
        let q = self.objs[o].incoming;
        self.set_closed(o);
        match &key {
            Some(k) => {
                self.remove_listener_of(k.as_str(), o);
            },
            None => {},
        }
        self.queue_close_readers(q);
        match peer {
            Some(p) => {
                proof {
                    assert(self.objs()[p as int] == sock_view(self.objs@[p as int]));
                }
                let pq = self.objs[p].incoming;
                self.queue_close_writers(pq);
                self.set_peer(p, None);
            },
            None => {},
        }
    }

    /// The tables, counters and listeners are as in `o`.
    pub open spec fn same_tables(&self, o: &InmemIpc) -> bool {
        &&& self.endpoints() == o.endpoints()
        &&& self.sockets() == o.sockets()
        &&& self.listeners() == o.listeners()
        &&& self.next_endpoint_id() == o.next_endpoint_id()
        &&& self.next_socket_id() == o.next_socket_id()
        &&& self.next_ephemeral_port() == o.next_ephemeral_port()
    }

    /// Takes the first pending connection of object `o`.
    fn pop_pending(&mut self, o: usize) -> (r: usize)
        requires
            old(self).wf(),
            o < old(self).objs().len(),
            old(self).objs()[o as int].pending.len() > 0,
        ensures
            final(self).wf(),
            r == old(self).objs()[o as int].pending[0],
            r < old(self).objs().len(),
            final(self).objs() == old(self).objs().update(
                o as int,
                SockView { pending: old(self).objs()[o as int].pending.drop_first(), ..old(self).objs()[o as int] },
            ),
            final(self).queues() == old(self).queues(),
            final(self).same_tables(old(self)),
    {
        proof {
            assert(self.objs()[o as int] == sock_view(self.objs@[o as int]));
            assert(self.objs()[o as int].pending[0] < self.objs().len());
        }
        let r = self.objs[o].state.pending.remove(0);
        proof {
            assert(self.objs() =~= old(self).objs().update(
                o as int,
                SockView { pending: old(self).objs()[o as int].pending.drop_first(), ..old(self).objs()[o as int] },
            ));
            lemma_objs_ok_update(old(self).objs(), o as int, self.objs()[o as int], self.queues@.len());
        }
        r
    }

    /// Nothing created yet; ids start at 1, ports at the top of the range.
    pub fn new() -> (r: InmemIpc)
        ensures
            r.wf(),
            r.queues().len() == 0,
            r.objs().len() == 0,
            r.endpoints() == Map::<u64, PipeEndpoint>::empty(),
            r.sockets() == Map::<u64, usize>::empty(),
            r.listeners().len() == 0,
            r.next_endpoint_id() == 1,
            r.next_socket_id() == 1,
            r.next_ephemeral_port() == EPHEMERAL_PORT_RANGE_END,
    {
        InmemIpc {
            queues: Vec::new(),
            objs: Vec::new(),
            endpoints: HashMap::new(),
            sockets: HashMap::new(),
            listeners: Vec::new(),
            next_endpoint_id: 1,
            next_socket_id: 1,
            next_ephemeral_port: EPHEMERAL_PORT_RANGE_END,
        }
    }
}

/// Creates a pipe: one new queue and two endpoints, the read end first.
/// Returns `(read_id, write_id)`, the next two endpoint ids.
pub fn create_pipe(ipc: &mut InmemIpc) -> (r: (u64, u64))
    requires
        old(ipc).wf(),
    ensures
        final(ipc).wf(),
        r.0 == old(ipc).next_endpoint_id(),
        r.1 == old(ipc).next_endpoint_id().wrapping_add(1),
        final(ipc).next_endpoint_id() == r.1.wrapping_add(1),
        final(ipc).queues() == old(ipc).queues().push(fresh_queue(PIPE_CAPACITY as nat)),
        final(ipc).endpoints() == old(ipc).endpoints().insert(
            r.0,
            PipeEndpoint { queue: old(ipc).queues().len() as usize, side: PipeSide::Read },
        ).insert(r.1, PipeEndpoint { queue: old(ipc).queues().len() as usize, side: PipeSide::Write }),
        final(ipc).objs() == old(ipc).objs(),
        final(ipc).sockets() == old(ipc).sockets(),
        final(ipc).listeners() == old(ipc).listeners(),
        final(ipc).next_socket_id() == old(ipc).next_socket_id(),
        final(ipc).next_ephemeral_port() == old(ipc).next_ephemeral_port(),
{
    let q = ipc.new_queue(PIPE_CAPACITY);
    let ghost eps0 = ipc.endpoints@;
    assert(forall|id: u64| #[trigger] eps0.contains_key(id) ==> eps0[id].queue < ipc.queues@.len());
    let read_id = ipc.next_endpoint_id;
    let write_id = read_id.wrapping_add(1);
    ipc.next_endpoint_id = write_id.wrapping_add(1);
    ipc.endpoints.insert(read_id, PipeEndpoint { queue: q, side: PipeSide::Read });
    ipc.endpoints.insert(write_id, PipeEndpoint { queue: q, side: PipeSide::Write });
    proof {
        assert(ipc.queues().len() == ipc.queues@.len());
        assert(old(ipc).queues().len() == old(ipc).queues@.len());
        assert(q == old(ipc).queues@.len());
        assert(q < ipc.queues@.len());
        assert(ipc.endpoints@.contains_key(read_id));
        assert(ipc.endpoints@[write_id].queue == q);
        assert forall|id: u64| #[trigger] ipc.endpoints@.contains_key(id) implies ipc.endpoints@[id].queue
            < ipc.queues@.len() by {
            if id != read_id && id != write_id {
                assert(eps0.contains_key(id));
            }
        }
    }
    (read_id, write_id)
}

/// Creates an unbound socket and returns its id, the next socket id.
pub fn create_socket(ipc: &mut InmemIpc, domain: i32, socktype: i32, protocol: i32) -> (r: u64)
    requires
        old(ipc).wf(),
    ensures
        final(ipc).wf(),
        r == old(ipc).next_socket_id(),
        final(ipc).next_socket_id() == r.wrapping_add(1),
        final(ipc).sockets() == old(ipc).sockets().insert(r, old(ipc).objs().len() as usize),
        final(ipc).objs() == old(ipc).objs().push(
            fresh_sock(old(ipc).queues().len() as usize, domain, socktype, protocol),
        ),
        final(ipc).queues() == old(ipc).queues().push(
            fresh_queue(spec_socket_capacity(domain) as nat),
        ),
        final(ipc).endpoints() == old(ipc).endpoints(),
        final(ipc).listeners() == old(ipc).listeners(),
        final(ipc).next_endpoint_id() == old(ipc).next_endpoint_id(),
        final(ipc).next_ephemeral_port() == old(ipc).next_ephemeral_port(),
{
    let o = ipc.new_socket_obj(domain, socktype, protocol);
    ipc.register_socket(o)
}

/// Flag asking one send or receive not to block.
pub const MSG_DONTWAIT: i32 = 0x40;

/// How many empty looks a blocking read makes before it gives up.
pub const CANCEL_CHECK_INTERVAL: usize = 1_048_576;

/// After `checks` empty looks of a blocking read: give up with `-EAGAIN`
/// once `CANCEL_CHECK_INTERVAL` looks were made, and otherwise look again,
/// counting one more.
pub fn read_retry(checks: usize) -> (r: Result<usize, i32>)
    ensures
        r == (if checks >= CANCEL_CHECK_INTERVAL {
            Err(neg(EAGAIN))
        } else {
            Ok((checks + 1) as usize)
        }),
{
    if checks >= CANCEL_CHECK_INTERVAL {
        Err(-EAGAIN)
    } else {
        Ok(checks + 1)
    }
}

/// One read step of up to `count` bytes on in-memory fd `fd` takes the
/// state from `ipc` to `ipc2` and returns `r`: a pipe read end or a socket
/// reads its queue (a socket shut for reading gives 0); anything else is
/// `-EBADF`.
pub open spec fn read_result(
    ipc: InmemIpc,
    ipc2: InmemIpc,
    fd: FdEntry,
    count: int,
    nonblocking: bool,
    r: ReadStep,
) -> bool {
    let unchanged = ipc2.same_state(&ipc);
    if fd.fdkind == FDKIND_IMPIPE {
        if !ipc.endpoints().contains_key(fd.underfd) || ipc.endpoints()[fd.underfd].side
            != PipeSide::Read {
            r == ReadStep::Done(neg(EBADF)) && unchanged
        } else {
            let q = ipc.endpoints()[fd.underfd].queue as int;
            ipc2.only_queue_changed(&ipc, q) && read_outcome(
                ipc.queues()[q],
                ipc2.queues()[q],
                count,
                nonblocking,
                r,
            )
        }
    } else if fd.fdkind == FDKIND_IMSOCK {
        if !ipc.sockets().contains_key(fd.underfd) {
            r == ReadStep::Done(neg(EBADF)) && unchanged
        } else {
            let o = ipc.objs()[ipc.sockets()[fd.underfd] as int];
            if o.read_shutdown {
                r == ReadStep::Done(0) && unchanged
            } else {
                let q = o.incoming as int;
                ipc2.only_queue_changed(&ipc, q) && read_outcome(
                    ipc.queues()[q],
                    ipc2.queues()[q],
                    count,
                    nonblocking,
                    r,
                )
            }
        }
    } else {
        r == ReadStep::Done(neg(EBADF)) && unchanged
    }
}

/// The fill limit a socket's send buffer puts on its peer's queue.
pub open spec fn send_limit(sndbuf: i32) -> int {
    if sndbuf < 1 {
        1
    } else {
        sndbuf as int
    }
}

/// One step of writing `data` (with `written` bytes done) to in-memory fd
/// `fd` takes the state from `ipc` to `ipc2` and returns `r`: a pipe write
/// end writes its queue up to its capacity; a socket writes its peer's
/// queue up to its send buffer (`-EPIPE` when shut for writing or without
/// a peer); anything else is `-EBADF`.
pub open spec fn write_result(
    ipc: InmemIpc,
    ipc2: InmemIpc,
    fd: FdEntry,
    data: Seq<u8>,
    written: int,
    nonblocking: bool,
    r: WriteStep,
) -> bool {
    let unchanged = ipc2.same_state(&ipc);
    if fd.fdkind == FDKIND_IMPIPE {
        if !ipc.endpoints().contains_key(fd.underfd) || ipc.endpoints()[fd.underfd].side
            != PipeSide::Write {
            r == WriteStep::Done(neg(EBADF)) && unchanged
        } else {
            let q = ipc.endpoints()[fd.underfd].queue as int;
            ipc2.only_queue_changed(&ipc, q) && write_outcome(
                ipc.queues()[q],
                ipc2.queues()[q],
                data,
                written,
                nonblocking,
                ipc.queues()[q].capacity as int,
                r,
            )
        }
    } else if fd.fdkind == FDKIND_IMSOCK {
        if !ipc.sockets().contains_key(fd.underfd) {
            r == WriteStep::Done(neg(EBADF)) && unchanged
        } else {
            let o = ipc.objs()[ipc.sockets()[fd.underfd] as int];
            if o.write_shutdown {
                r == WriteStep::Done(neg(EPIPE)) && unchanged
            } else {
                match o.peer {
                    None => r == WriteStep::Done(neg(EPIPE)) && unchanged,
                    Some(p) => {
                        let q = ipc.objs()[p as int].incoming as int;
                        ipc2.only_queue_changed(&ipc, q) && write_outcome(
                            ipc.queues()[q],
                            ipc2.queues()[q],
                            data,
                            written,
                            nonblocking,
                            send_limit(o.sndbuf),
                            r,
                        )
                    },
                }
            }
        }
    } else {
        r == WriteStep::Done(neg(EBADF)) && unchanged
    }
}

/// One read step on `fdentry`, non-blocking when forced or when the fd says
/// so.
fn read_with_mode(ipc: &mut InmemIpc, fdentry: FdEntry, count: usize, force_nonblocking: bool) -> (r:
    ReadStep)
    requires
        old(ipc).wf(),
    ensures
        final(ipc).wf(),
        read_result(
            *old(ipc),
            *final(ipc),
            fdentry,
            count as int,
            force_nonblocking || spec_fd_nonblocking(fdentry),
            r,
        ),
{
    let nonblocking = force_nonblocking || fd_is_nonblocking(fdentry);
    if fdentry.fdkind == FDKIND_IMPIPE {
        match ipc.get_endpoint(fdentry.underfd) {
            Ok(e) => {
                if e.side == PipeSide::Read {
                    ipc.queue_read(e.queue, count, nonblocking)
                } else {
                    ReadStep::Done(-EBADF)
                }
            },
            Err(e) => ReadStep::Done(e),
        }
    } else if fdentry.fdkind == FDKIND_IMSOCK {
        match ipc.get_socket(fdentry.underfd) {
            Ok(o) => {
                proof {
                    assert(ipc.objs()[o as int] == sock_view(ipc.objs@[o as int]));
                }
                if ipc.objs[o].state.read_shutdown {
                    ReadStep::Done(0)
                } else {
                    let q = ipc.objs[o].incoming;
                    ipc.queue_read(q, count, nonblocking)
                }
            },
            Err(e) => ReadStep::Done(e),
        }
    } else {
        ReadStep::Done(-EBADF)
    }
}

/// One step of a read of up to `count` bytes from an in-memory fd.
pub fn read(ipc: &mut InmemIpc, fdentry: FdEntry, count: usize) -> (r: ReadStep)
    requires
        old(ipc).wf(),
    ensures
        final(ipc).wf(),
        read_result(*old(ipc), *final(ipc), fdentry, count as int, spec_fd_nonblocking(fdentry), r),
{
    read_with_mode(ipc, fdentry, count, false)
}

/// One step of a receive of up to `count` bytes; `MSG_DONTWAIT` in `flags`
/// makes it non-blocking.
pub fn recvfrom(ipc: &mut InmemIpc, fdentry: FdEntry, count: usize, flags: i32) -> (r: ReadStep)
    requires
        old(ipc).wf(),
    ensures
        final(ipc).wf(),
        read_result(
            *old(ipc),
            *final(ipc),
            fdentry,
            count as int,
            (flags & MSG_DONTWAIT) != 0 || spec_fd_nonblocking(fdentry),
            r,
        ),
{
    read_with_mode(ipc, fdentry, count, (flags & MSG_DONTWAIT) != 0)
}

/// One write step on `fdentry`, non-blocking when forced or when the fd
/// says so.
fn write_with_mode(
    ipc: &mut InmemIpc,
    fdentry: FdEntry,
    data: &[u8],
    written: usize,
    force_nonblocking: bool,
) -> (r: WriteStep)
    requires
        old(ipc).wf(),
        written <= data@.len(),
    ensures
        final(ipc).wf(),
        write_result(
            *old(ipc),
            *final(ipc),
            fdentry,
            data@,
            written as int,
            force_nonblocking || spec_fd_nonblocking(fdentry),
            r,
        ),
{
    let nonblocking = force_nonblocking || fd_is_nonblocking(fdentry);
    if fdentry.fdkind == FDKIND_IMPIPE {
        match ipc.get_endpoint(fdentry.underfd) {
            Ok(e) => {
                if e.side == PipeSide::Write {
                    let cap = ipc.queues[e.queue].capacity();
                    ipc.queue_write(e.queue, data, written, nonblocking, cap)
                } else {
                    WriteStep::Done(-EBADF)
                }
            },
            Err(e) => WriteStep::Done(e),
        }
    } else if fdentry.fdkind == FDKIND_IMSOCK {
        match ipc.get_socket(fdentry.underfd) {
            Ok(o) => {
                proof {
                    assert(ipc.objs()[o as int] == sock_view(ipc.objs@[o as int]));
                }
                if ipc.objs[o].state.write_shutdown {
                    WriteStep::Done(-EPIPE)
                } else {
                    match ipc.objs[o].state.peer {
                        None => WriteStep::Done(-EPIPE),
                        Some(p) => {
                            let sndbuf = ipc.objs[o].state.sndbuf;
                            let limit: usize = if sndbuf < 1 {
                                1
                            } else {
                                sndbuf as usize
                            };
                            proof {
                                assert(ipc.objs()[p as int] == sock_view(ipc.objs@[p as int]));
                            }
                            let q = ipc.objs[p].incoming;
                            ipc.queue_write(q, data, written, nonblocking, limit)
                        },
                    }
                }
            },
            Err(e) => WriteStep::Done(e),
        }
    } else {
        WriteStep::Done(-EBADF)
    }
}

/// One step of a write of `data` (with `written` bytes done) to an
/// in-memory fd.
pub fn write(ipc: &mut InmemIpc, fdentry: FdEntry, data: &[u8], written: usize) -> (r: WriteStep)
    requires
        old(ipc).wf(),
        written <= data@.len(),
    ensures
        final(ipc).wf(),
        write_result(*old(ipc), *final(ipc), fdentry, data@, written as int, spec_fd_nonblocking(fdentry), r),
{
    write_with_mode(ipc, fdentry, data, written, false)
}

/// One step of a send of `data` (with `written` bytes done);
/// `MSG_DONTWAIT` in `flags` makes it non-blocking.
pub fn sendto(ipc: &mut InmemIpc, fdentry: FdEntry, data: &[u8], written: usize, flags: i32) -> (r: WriteStep)
    requires
        old(ipc).wf(),
        written <= data@.len(),
    ensures
        final(ipc).wf(),
        write_result(
            *old(ipc),
            *final(ipc),
            fdentry,
            data@,
            written as int,
            (flags & MSG_DONTWAIT) != 0 || spec_fd_nonblocking(fdentry),
            r,
        ),
{
    write_with_mode(ipc, fdentry, data, written, (flags & MSG_DONTWAIT) != 0)
}

/// Closing in-memory fd `fd` takes the state from `ipc` to `ipc2`: a pipe
/// end drops its side of the queue (closing the write side marks end of
/// file), a socket is closed; an unknown fd changes nothing.
pub open spec fn close_fd_result(ipc: InmemIpc, ipc2: InmemIpc, fd: FdEntry) -> bool {
    if fd.fdkind == FDKIND_IMPIPE && ipc.endpoints().contains_key(fd.underfd) {
        let e = ipc.endpoints()[fd.underfd];
        let qv = ipc.queues()[e.queue as int];
        &&& ipc2.same_but_queues(&ipc)
        &&& ipc2.queues() == ipc.queues().update(
            e.queue as int,
            match e.side {
                PipeSide::Read => QueueView { readers: 0, ..qv },
                PipeSide::Write => QueueView { writers: 0, eof: true, ..qv },
            },
        )
    } else if fd.fdkind == FDKIND_IMSOCK && ipc.sockets().contains_key(fd.underfd) {
        close_socket_result(ipc, ipc2, ipc.sockets()[fd.underfd] as int)
    } else {
        ipc2.same_state(&ipc)
    }
}

/// Closes an in-memory fd; always succeeds.
pub fn close_fd(ipc: &mut InmemIpc, fdentry: FdEntry, _count: u64) -> (r: Result<(), i32>)
    requires
        old(ipc).wf(),
    ensures
        final(ipc).wf(),
        r is Ok,
        close_fd_result(*old(ipc), *final(ipc), fdentry),
{
    if fdentry.fdkind == FDKIND_IMPIPE {
        match ipc.get_endpoint(fdentry.underfd) {
            Ok(e) => {
                match e.side {
                    PipeSide::Read => ipc.queue_close_readers(e.queue),
                    PipeSide::Write => ipc.queue_close_writers(e.queue),
                }
            },
            Err(_) => {},
        }
    } else if fdentry.fdkind == FDKIND_IMSOCK {
        match ipc.get_socket(fdentry.underfd) {
            Ok(o) => ipc.close_socket(o),
            Err(_) => {},
        }
    }
    Ok(())
}

/// Whether a Unix socket path is in use: some listener, or some open
/// socket, is bound to `unix:<path>`.
pub fn unix_path_is_bound(ipc: &InmemIpc, path: &str) -> (r: bool)
    requires
        ipc.wf(),
    ensures
        r == (ipc.listening_on("unix:"@ + path@) || ipc.bound_elsewhere("unix:"@ + path@, -1)),
{
    let key = unix_key(path);
    match ipc.find_listener(key.as_str()) {
        Some(j) => {
            proof {
                assert(ipc.listeners()[j as int].0 == key@);
            }
            true
        },
        None => ipc.bound_in_sockets(key.as_str(), None),
    }
}

/// `shutdown(socket_id, how)` takes the state from `ipc` to `ipc2` and
/// returns `r`: reading shut drops the readers of the socket's queue,
/// writing shut drops the writers of its peer's queue; the flags only ever
/// turn on. An unknown socket is `-EBADF`, an unknown mode `-EINVAL`.
pub open spec fn shutdown_result(ipc: InmemIpc, ipc2: InmemIpc, socket_id: u64, how: i32, r: i32) -> bool {
    if !ipc.sockets().contains_key(socket_id) {
        r == neg(EBADF) && ipc2.same_state(&ipc)
    } else if how != SHUT_RD && how != SHUT_WR && how != SHUT_RDWR {
        r == neg(EINVAL) && ipc2.same_state(&ipc)
    } else {
        let o = ipc.sockets()[socket_id] as int;
        let v = ipc.objs()[o];
        let rd = how == SHUT_RD || how == SHUT_RDWR;
        let wr = how == SHUT_WR || how == SHUT_RDWR;
        let q1 = if rd {
            ipc.queues().update(
                v.incoming as int,
                QueueView { readers: 0, ..ipc.queues()[v.incoming as int] },
            )
        } else {
            ipc.queues()
        };
        let q2 = if wr && v.peer is Some {
            let pq = ipc.objs()[v.peer->0 as int].incoming as int;
            q1.update(pq, QueueView { writers: 0, eof: true, ..q1[pq] })
        } else {
            q1
        };
        &&& r == 0
        &&& ipc2.objs() == ipc.objs().update(
            o,
            SockView {
                read_shutdown: v.read_shutdown || rd,
                write_shutdown: v.write_shutdown || wr,
                ..v
            },
        )
        &&& ipc2.queues() == q2
        &&& ipc2.same_tables(&ipc)
    }
}

/// Shuts down reading, writing or both on a socket.
pub fn shutdown_socket(ipc: &mut InmemIpc, socket_id: u64, how: i32) -> (r: i32)
    requires
        old(ipc).wf(),
    ensures
        final(ipc).wf(),
        shutdown_result(*old(ipc), *final(ipc), socket_id, how, r),
{
    let o = match ipc.get_socket(socket_id) {
        Ok(o) => o,
        Err(e) => return e,
    };
    if how != SHUT_RD && how != SHUT_WR && how != SHUT_RDWR {
        return -EINVAL;
    }
    proof {
        assert(ipc.objs()[o as int] == sock_view(ipc.objs@[o as int]));
    }
    let rd = how == SHUT_RD || how == SHUT_RDWR;
    let wr = how == SHUT_WR || how == SHUT_RDWR;
    assert(ipc.objs()[o as int].peer matches Some(p) ==> p < ipc.objs().len());
    let new_rd = ipc.objs[o].state.read_shutdown || rd;
    let new_wr = ipc.objs[o].state.write_shutdown || wr;
    let peer = ipc.objs[o].state.peer;
    assert(peer matches Some(p) ==> p < ipc.objs@.len());
    let q = ipc.objs[o].incoming;
    ipc.set_shutdown(o, new_rd, new_wr);
    assert(ipc.objs().len() == ipc.objs@.len());
    if rd {
        ipc.queue_close_readers(q);
    }
    if wr {
        match peer {
            Some(p) => {
                proof {
                    assert(ipc.objs()[p as int] == sock_view(ipc.objs@[p as int]));
                }
                let pq = ipc.objs[p].incoming;
                ipc.queue_close_writers(pq);
            },
            None => {},
        }
    }
    0
}

/// `bind(socket_id, key)` takes the state from `ipc` to `ipc2` and returns
/// `r`: the key `inet:0` stands for an automatic key (advancing the port
/// counter for IPv4 even when the bind fails); a key that a listener or
/// another open socket holds is `-EADDRINUSE`; otherwise the socket is
/// bound. An unknown socket is `-EBADF`.
pub open spec fn bind_result(ipc: InmemIpc, ipc2: InmemIpc, socket_id: u64, key: Seq<char>, r: i32) -> bool {
    if !ipc.sockets().contains_key(socket_id) {
        r == neg(EBADF) && ipc2.same_state(&ipc)
    } else {
        let o = ipc.sockets()[socket_id] as int;
        let v = ipc.objs()[o];
        let zero = key == "inet:0"@;
        let k = if zero {
            ephemeral_key(v.domain, ipc.next_ephemeral_port(), ipc.next_socket_id())
        } else {
            key
        };
        let port = if zero {
            port_after(v.domain, ipc.next_ephemeral_port())
        } else {
            ipc.next_ephemeral_port()
        };
        &&& ipc2.next_ephemeral_port() == port
        &&& ipc2.queues() == ipc.queues()
        &&& ipc2.endpoints() == ipc.endpoints()
        &&& ipc2.sockets() == ipc.sockets()
        &&& ipc2.listeners() == ipc.listeners()
        &&& ipc2.next_endpoint_id() == ipc.next_endpoint_id()
        &&& ipc2.next_socket_id() == ipc.next_socket_id()
        &&& if ipc.listening_on(k) || ipc.bound_elsewhere(k, o) {
            r == neg(EADDRINUSE) && ipc2.objs() == ipc.objs()
        } else {
            r == 0 && ipc2.objs() == ipc.objs().update(o, SockView { local_key: Some(k), ..v })
        }
    }
}

/// Binds a socket to a key (`unix:<path>` or `inet:<port>`).
pub fn bind_socket(ipc: &mut InmemIpc, socket_id: u64, key: String) -> (r: i32)
    requires
        old(ipc).wf(),
    ensures
        final(ipc).wf(),
        bind_result(*old(ipc), *final(ipc), socket_id, key@, r),
{
    let o = match ipc.get_socket(socket_id) {
        Ok(o) => o,
        Err(e) => return e,
    };
    proof {
        assert(ipc.objs()[o as int] == sock_view(ipc.objs@[o as int]));
    }
    let key = if str_eq(key.as_str(), "inet:0") {
        let d = ipc.objs[o].state.domain;
        ipc.next_ephemeral_key(d)
    } else {
        key
    };
    if ipc.find_listener(key.as_str()).is_some() {
        return -EADDRINUSE;
    }
    if ipc.bound_in_sockets(key.as_str(), Some(o)) {
        return -EADDRINUSE;
    }
    ipc.set_local_key(o, key);
    0
}

/// `listen(socket_id)` takes the state from `ipc` to `ipc2` and returns
/// `r`: an unbound socket first gets an automatic key; the socket is marked
/// listening and registered as the listener of its key, unless another
/// object listens there (`-EADDRINUSE`, the marks stay). Listening again on
/// its own key succeeds. An unknown socket is `-EBADF`.
pub open spec fn listen_result(ipc: InmemIpc, ipc2: InmemIpc, socket_id: u64, r: i32) -> bool {
    if !ipc.sockets().contains_key(socket_id) {
        r == neg(EBADF) && ipc2.same_state(&ipc)
    } else {
        let o = ipc.sockets()[socket_id] as int;
        let v = ipc.objs()[o];
        let k = match v.local_key {
            Some(k) => k,
            None => ephemeral_key(v.domain, ipc.next_ephemeral_port(), ipc.next_socket_id()),
        };
        let port = match v.local_key {
            Some(_) => ipc.next_ephemeral_port(),
            None => port_after(v.domain, ipc.next_ephemeral_port()),
        };
        &&& ipc2.objs() == ipc.objs().update(o, SockView { local_key: Some(k), listening: true, ..v })
        &&& ipc2.next_ephemeral_port() == port
        &&& ipc2.queues() == ipc.queues()
        &&& ipc2.endpoints() == ipc.endpoints()
        &&& ipc2.sockets() == ipc.sockets()
        &&& ipc2.next_endpoint_id() == ipc.next_endpoint_id()
        &&& ipc2.next_socket_id() == ipc.next_socket_id()
        &&& if ipc.listening_on(k) {
            &&& ipc2.listeners() == ipc.listeners()
            &&& r == (if ipc.listener_of(k) == o {
                0
            } else {
                neg(EADDRINUSE)
            })
        } else {
            ipc2.listeners() == ipc.listeners().push((k, o as usize)) && r == 0
        }
    }
}

/// Makes a socket listen for connections on its key.
pub fn listen_socket(ipc: &mut InmemIpc, socket_id: u64, backlog: i32) -> (r: i32)
    requires
        old(ipc).wf(),
    ensures
        final(ipc).wf(),
        listen_result(*old(ipc), *final(ipc), socket_id, r),
{
    let o = match ipc.get_socket(socket_id) {
        Ok(o) => o,
        Err(e) => return e,
    };
    proof {
        assert(ipc.objs()[o as int] == sock_view(ipc.objs@[o as int]));
    }
    let existing: Option<String> = match &ipc.objs[o].state.local_key {
        Some(k) => Some(k.clone()),
        None => None,
    };
    let key: String = match existing {
        Some(k) => k,
        None => {
            let d = ipc.objs[o].state.domain;
            let k = ipc.next_ephemeral_key(d);
            ipc.set_local_key(o, k.clone());
            k
        },
    };
    ipc.set_listening(o);
    proof {
        let v = old(ipc).objs()[o as int];
        assert(key@ == match v.local_key {
            Some(k) => k,
            None => ephemeral_key(v.domain, old(ipc).next_ephemeral_port(), old(ipc).next_socket_id()),
        });
        assert(ipc.objs() =~= old(ipc).objs().update(
            o as int,
            SockView { local_key: Some(key@), listening: true, ..v },
        ));
    }
    let ghost l = ipc.listeners();
    match ipc.find_listener(key.as_str()) {
        Some(j) => {
            proof {
                assert(l[j as int] == (ipc.listeners@[j as int].0@, ipc.listeners@[j as int].1));
                let c = choose|i: int| 0 <= i < l.len() && #[trigger] l[i].0 == key@;
                if c != j {
                    assert(l[c].0 != l[j as int].0);
                }
            }
            if ipc.listeners[j].1 == o {
                0
            } else {
                -EADDRINUSE
            }
        },
        None => {
            ipc.add_listener(key, o);
            0
        },
    }
}

/// `connect(socket_id, remote)` takes the state from `ipc` to `ipc2` and
/// returns `r`: without a listener on `remote` it is `-ECONNREFUSED`;
/// otherwise an unbound client first gets an automatic key, and, if the
/// listener listens, a new server-side socket bound to `remote` is made,
/// the two are linked as peers and the new one is queued on the listener.
/// If the listener does not listen, the client is left without a peer and
/// the result is `-ECONNREFUSED`. An unknown socket is `-EBADF`.
pub open spec fn connect_result(ipc: InmemIpc, ipc2: InmemIpc, socket_id: u64, remote: Seq<char>, r: i32) -> bool {
    if !ipc.sockets().contains_key(socket_id) {
        r == neg(EBADF) && ipc2.same_state(&ipc)
    } else if !ipc.listening_on(remote) {
        r == neg(ECONNREFUSED) && ipc2.same_state(&ipc)
    } else {
        let o = ipc.sockets()[socket_id] as int;
        let v = ipc.objs()[o];
        let l = ipc.listener_of(remote) as int;
        let ck = match v.local_key {
            Some(k) => k,
            None => ephemeral_key(v.domain, ipc.next_ephemeral_port(), ipc.next_socket_id()),
        };
        let port = match v.local_key {
            Some(_) => ipc.next_ephemeral_port(),
            None => port_after(v.domain, ipc.next_ephemeral_port()),
        };
        &&& ipc2.next_ephemeral_port() == port
        &&& ipc2.endpoints() == ipc.endpoints()
        &&& ipc2.sockets() == ipc.sockets()
        &&& ipc2.listeners() == ipc.listeners()
        &&& ipc2.next_endpoint_id() == ipc.next_endpoint_id()
        &&& ipc2.next_socket_id() == ipc.next_socket_id()
        &&& if !ipc.objs()[l].listening {
            &&& r == neg(ECONNREFUSED)
            &&& ipc2.queues() == ipc.queues()
            &&& ipc2.objs() == ipc.objs().update(o, SockView { local_key: Some(ck), peer: None, ..v })
        } else {
            let s = ipc.objs().len();
            let server = SockView {
                local_key: Some(remote),
                peer: Some(o as usize),
                ..fresh_sock(ipc.queues().len() as usize, v.domain, v.socktype, v.protocol)
            };
            let objs1 = ipc.objs().update(
                o,
                SockView { local_key: Some(ck), peer: Some(s as usize), ..v },
            ).push(server);
            &&& r == 0
            &&& ipc2.queues() == ipc.queues().push(fresh_queue(spec_socket_capacity(v.domain) as nat))
            &&& ipc2.objs() == objs1.update(
                l,
                SockView { pending: objs1[l].pending.push(s as usize), ..objs1[l] },
            )
        }
    }
}

/// Connects a socket to the listener on `remote_key`.
#[verifier::rlimit(60)]
pub fn connect_socket(ipc: &mut InmemIpc, socket_id: u64, remote_key: String) -> (r: i32)
    requires
        old(ipc).wf(),
    ensures
        final(ipc).wf(),
        connect_result(*old(ipc), *final(ipc), socket_id, remote_key@, r),
{
    let o = match ipc.get_socket(socket_id) {
        Ok(o) => o,
        Err(e) => return e,
    };
    let ghost l0 = ipc.listeners();
    let j = match ipc.find_listener(remote_key.as_str()) {
        Some(j) => j,
        None => return -ECONNREFUSED,
    };
    proof {
        assert(l0[j as int] == (ipc.listeners@[j as int].0@, ipc.listeners@[j as int].1));
        let c = choose|i: int| 0 <= i < l0.len() && #[trigger] l0[i].0 == remote_key@;
        if c != j {
            assert(l0[c].0 != l0[j as int].0);
        }
        assert(ipc.objs()[o as int] == sock_view(ipc.objs@[o as int]));
    }
    let l = ipc.listeners[j].1;
    proof {
        assert(ipc.objs()[l as int] == sock_view(ipc.objs@[l as int]));
    }
    let d = ipc.objs[o].state.domain;
    let t = ipc.objs[o].state.socktype;
    let p = ipc.objs[o].state.protocol;
    let listening = ipc.objs[l].state.listening;
    let ghost v = old(ipc).objs()[o as int];
    let ghost ck = match v.local_key {
        Some(k) => k,
        None => ephemeral_key(v.domain, old(ipc).next_ephemeral_port(), old(ipc).next_socket_id()),
    };
    if ipc.objs[o].state.local_key.is_none() {
        let k = ipc.next_ephemeral_key(d);
        ipc.set_local_key(o, k);
    }
    assert(ipc.objs() =~= old(ipc).objs().update(o as int, SockView { local_key: Some(ck), ..v }));
    if !listening {
        ipc.set_peer(o, None);
        assert(ipc.objs() =~= old(ipc).objs().update(
            o as int,
            SockView { local_key: Some(ck), peer: None, ..v },
        ));
        return -ECONNREFUSED;
    }
    let s = ipc.new_socket_obj(d, t, p);
    ipc.set_local_key(s, remote_key);
    ipc.set_peer(s, Some(o));
    ipc.set_peer(o, Some(s));
    ipc.push_pending(l, s);
    proof {
        let server = SockView {
            local_key: Some(remote_key@),
            peer: Some(o),
            ..fresh_sock(old(ipc).queues().len() as usize, v.domain, v.socktype, v.protocol)
        };
        let objs1 = old(ipc).objs().update(
            o as int,
            SockView { local_key: Some(ck), peer: Some(s), ..v },
        ).push(server);
        assert(ipc.objs() =~= objs1.update(
            l as int,
            SockView { pending: objs1[l as int].pending.push(s), ..objs1[l as int] },
        ));
    }
    0
}

/// The outcome of one accept step.
pub enum AcceptStep {
    /// The accept completes: the new socket id, or a negated errno.
    Done(Result<u64, i32>),
    /// Nothing pending on a blocking listener: wait and try again.
    Wait,
}

/// One accept step on the listener behind `fd` takes the state from `ipc`
/// to `ipc2` and returns `r`: the oldest pending connection is registered
/// under the next socket id; with none pending, a socket that does not
/// listen (or is closed) is `-EINVAL`, a non-blocking fd `-EAGAIN`, and
/// otherwise the caller waits. An unknown socket is `-EBADF`.
pub open spec fn accept_result(ipc: InmemIpc, ipc2: InmemIpc, fd: FdEntry, r: AcceptStep) -> bool {
    if !ipc.sockets().contains_key(fd.underfd) {
        r == AcceptStep::Done(Err::<u64, i32>(neg(EBADF))) && ipc2.same_state(&ipc)
    } else {
        let o = ipc.sockets()[fd.underfd] as int;
        let v = ipc.objs()[o];
        if v.pending.len() > 0 {
            &&& r == AcceptStep::Done(Ok::<u64, i32>(ipc.next_socket_id()))
            &&& ipc2.objs() == ipc.objs().update(o, SockView { pending: v.pending.drop_first(), ..v })
            &&& ipc2.sockets() == ipc.sockets().insert(ipc.next_socket_id(), v.pending[0])
            &&& ipc2.next_socket_id() == ipc.next_socket_id().wrapping_add(1)
            &&& ipc2.queues() == ipc.queues()
            &&& ipc2.endpoints() == ipc.endpoints()
            &&& ipc2.listeners() == ipc.listeners()
            &&& ipc2.next_endpoint_id() == ipc.next_endpoint_id()
            &&& ipc2.next_ephemeral_port() == ipc.next_ephemeral_port()
        } else if !v.listening || v.closed {
            r == AcceptStep::Done(Err::<u64, i32>(neg(EINVAL))) && ipc2.same_state(&ipc)
        } else if spec_fd_nonblocking(fd) {
            r == AcceptStep::Done(Err::<u64, i32>(neg(EAGAIN))) && ipc2.same_state(&ipc)
        } else {
            r == AcceptStep::Wait && ipc2.same_state(&ipc)
        }
    }
}

/// One step of accepting a connection on a listening socket.
pub fn accept_socket(ipc: &mut InmemIpc, fdentry: FdEntry) -> (r: AcceptStep)
    requires
        old(ipc).wf(),
    ensures
        final(ipc).wf(),
        accept_result(*old(ipc), *final(ipc), fdentry, r),
{
    let o = match ipc.get_socket(fdentry.underfd) {
        Ok(o) => o,
        Err(e) => return AcceptStep::Done(Err(e)),
    };
    let nonblocking = fd_is_nonblocking(fdentry);
    proof {
        assert(ipc.objs()[o as int] == sock_view(ipc.objs@[o as int]));
    }
    if ipc.objs[o].state.pending.len() > 0 {
        let c = ipc.pop_pending(o);
        let id = ipc.register_socket(c);
        return AcceptStep::Done(Ok(id));
    }
    if !ipc.objs[o].state.listening || ipc.objs[o].state.closed {
        return AcceptStep::Done(Err(-EINVAL));
    }
    if nonblocking {
        return AcceptStep::Done(Err(-EAGAIN));
    }
    AcceptStep::Wait
}

/// Creates two connected sockets; returns their ids, the next two socket
/// ids.
pub fn socketpair(ipc: &mut InmemIpc, domain: i32, socktype: i32, protocol: i32) -> (r: (u64, u64))
    requires
        old(ipc).wf(),
    ensures
        final(ipc).wf(),
        ({
            let n = old(ipc).objs().len();
            let nq = old(ipc).queues().len();
            &&& r.0 == old(ipc).next_socket_id()
            &&& r.1 == r.0.wrapping_add(1)
            &&& final(ipc).next_socket_id() == r.1.wrapping_add(1)
            &&& final(ipc).objs() == old(ipc).objs().push(
                SockView { peer: Some((n + 1) as usize), ..fresh_sock(nq as usize, domain, socktype, protocol) },
            ).push(
                SockView {
                    peer: Some(n as usize),
                    ..fresh_sock((nq + 1) as usize, domain, socktype, protocol)
                },
            )
            &&& final(ipc).queues() == old(ipc).queues().push(
                fresh_queue(spec_socket_capacity(domain) as nat),
            ).push(fresh_queue(spec_socket_capacity(domain) as nat))
            &&& final(ipc).sockets() == old(ipc).sockets().insert(r.0, n as usize).insert(
                r.1,
                (n + 1) as usize,
            )
            &&& final(ipc).endpoints() == old(ipc).endpoints()
            &&& final(ipc).listeners() == old(ipc).listeners()
            &&& final(ipc).next_endpoint_id() == old(ipc).next_endpoint_id()
            &&& final(ipc).next_ephemeral_port() == old(ipc).next_ephemeral_port()
        }),
{
    let s1 = ipc.new_socket_obj(domain, socktype, protocol);
    let s2 = ipc.new_socket_obj(domain, socktype, protocol);
    ipc.set_peer(s1, Some(s2));
    ipc.set_peer(s2, Some(s1));
    let id1 = ipc.register_socket(s1);
    let id2 = ipc.register_socket(s2);
    (id1, id2)
}

/// Poll bits of in-memory fd `fd` for the requested `events`: a pipe end
/// reports its queue for its own direction; a socket reports readable when
/// shut for reading (and then nothing else), when it listens with pending
/// connections, or per its queue, and for writing an error when shut for
/// writing or without a peer, else its peer's queue; an unknown fd is
/// `POLLNVAL`.
pub open spec fn poll_result(ipc: InmemIpc, fd: FdEntry, events: i16) -> i16 {
    let want_in = events & POLLIN != 0;
    let want_out = events & POLLOUT != 0;
    if fd.fdkind == FDKIND_IMPIPE {
        if !ipc.endpoints().contains_key(fd.underfd) {
            POLLNVAL
        } else {
            let e = ipc.endpoints()[fd.underfd];
            let q = ipc.queues()[e.queue as int];
            match e.side {
                PipeSide::Read => if want_in {
                    poll_read_bits(q)
                } else {
                    0
                },
                PipeSide::Write => if want_out {
                    poll_write_bits(q)
                } else {
                    0
                },
            }
        }
    } else if fd.fdkind == FDKIND_IMSOCK {
        if !ipc.sockets().contains_key(fd.underfd) {
            POLLNVAL
        } else {
            let v = ipc.objs()[ipc.sockets()[fd.underfd] as int];
            if want_in && v.read_shutdown {
                POLLIN
            } else {
                let inb: i16 = if want_in {
                    if v.listening && v.pending.len() > 0 {
                        POLLIN
                    } else {
                        poll_read_bits(ipc.queues()[v.incoming as int])
                    }
                } else {
                    0
                };
                if !want_out {
                    inb
                } else if v.write_shutdown {
                    inb | POLLERR
                } else {
                    match v.peer {
                        Some(p) => inb | poll_write_bits(
                            ipc.queues()[ipc.objs()[p as int].incoming as int],
                        ),
                        None => inb | POLLERR,
                    }
                }
            }
        }
    } else {
        POLLNVAL
    }
}

/// Poll bits of an in-memory fd for the requested events.
pub fn poll_fd(ipc: &InmemIpc, fdentry: FdEntry, events: i16) -> (r: i16)
    requires
        ipc.wf(),
    ensures
        r == poll_result(*ipc, fdentry, events),
{
    let want_in = events & POLLIN != 0;
    let want_out = events & POLLOUT != 0;
    if fdentry.fdkind == FDKIND_IMPIPE {
        match ipc.get_endpoint(fdentry.underfd) {
            Ok(e) => {
                match e.side {
                    PipeSide::Read => if want_in {
                        ipc.queues[e.queue].poll_read()
                    } else {
                        0
                    },
                    PipeSide::Write => if want_out {
                        ipc.queues[e.queue].poll_write()
                    } else {
                        0
                    },
                }
            },
            Err(_) => POLLNVAL,
        }
    } else if fdentry.fdkind == FDKIND_IMSOCK {
        match ipc.get_socket(fdentry.underfd) {
            Ok(o) => {
                proof {
                    assert(ipc.objs()[o as int] == sock_view(ipc.objs@[o as int]));
                }
                let st = &ipc.objs[o].state;
                if want_in && st.read_shutdown {
                    return POLLIN;
                }
                let inb: i16 = if want_in {
                    if st.listening && st.pending.len() > 0 {
                        POLLIN
                    } else {
                        ipc.queues[ipc.objs[o].incoming].poll_read()
                    }
                } else {
                    0
                };
                if !want_out {
                    inb
                } else if st.write_shutdown {
                    inb | POLLERR
                } else {
                    match st.peer {
                        Some(p) => {
                            proof {
                                assert(ipc.objs()[p as int] == sock_view(ipc.objs@[p as int]));
                            }
                            inb | ipc.queues[ipc.objs[p].incoming].poll_write()
                        },
                        None => inb | POLLERR,
                    }
                }
            },
            Err(_) => POLLNVAL,
        }
    } else {
        POLLNVAL
    }
}

/// A socket address as the in-memory sockets report it.
pub enum SockName {
    /// IPv4 loopback with this port.
    Inet(u16),
    /// A Unix path, as bytes.
    Unix(Vec<u8>),
}

/// Longest Unix path that fits in an address, leaving room for a NUL.
pub const UNIX_PATH_MAX: usize = 107;

/// The port an IPv4 key names: the number after `inet:`, or 0.
pub open spec fn key_port(key: Option<Seq<char>>) -> u16 {
    match key {
        Some(k) => if has_prefix(k, "inet:"@) {
            match parse_u16_spec(k.skip("inet:"@.len() as int)) {
                Some(p) => p,
                None => 0,
            }
        } else {
            0
        },
        None => 0,
    }
}

/// The path bytes a Unix key names, cut to `UNIX_PATH_MAX`; none when the
/// key is missing or is not a Unix key.
pub open spec fn key_path(key: Option<Seq<char>>) -> Seq<u8> {
    match key {
        Some(k) => if has_prefix(k, "unix:"@) {
            let b = encode_utf8(k.skip("unix:"@.len() as int));
            if b.len() < UNIX_PATH_MAX {
                b
            } else {
                b.take(UNIX_PATH_MAX as int)
            }
        } else {
            Seq::empty()
        },
        None => Seq::empty(),
    }
}

/// The address reported for a socket of `domain` bound to `key`.
pub open spec fn sockname_result(domain: i32, key: Option<Seq<char>>, r: Result<SockName, i32>) -> bool {
    if domain == AF_INET {
        r == Ok::<SockName, i32>(SockName::Inet(key_port(key)))
    } else if domain == AF_UNIX {
        r matches Ok(SockName::Unix(p)) && p@ == key_path(key)
    } else {
        r == Err::<SockName, i32>(neg(EOPNOTSUPP))
    }
}

/// The address for a socket of `domain` bound to `key`.
fn sockaddr_from_key(domain: i32, key: Option<&str>) -> (r: Result<SockName, i32>)
    ensures
        sockname_result(
            domain,
            match key {
                Some(k) => Some(k@),
                None => None,
            },
            r,
        ),
{
    if domain == AF_INET {
        let port: u16 = match key {
            Some(k) => match strip_prefix_str(k, "inet:") {
                Some(rest) => {
                    proof {
                        assert(k@.subrange(0, "inet:"@.len() as int) =~= "inet:"@);
                    }
                    match parse_u16(rest) {
                        Some(p) => p,
                        None => 0,
                    }
                },
                None => 0,
            },
            None => 0,
        };
        Ok(SockName::Inet(port))
    } else if domain == AF_UNIX {
        let mut path: Vec<u8> = Vec::new();
        match key {
            Some(k) => match strip_prefix_str(k, "unix:") {
                Some(rest) => {
                    proof {
                        assert(k@.subrange(0, "unix:"@.len() as int) =~= "unix:"@);
                    }
                    let b = rest.as_bytes();
                    let n = if b.len() < UNIX_PATH_MAX {
                        b.len()
                    } else {
                        UNIX_PATH_MAX
                    };
                    let mut i: usize = 0;
                    while i < n
                        invariant
                            n <= b@.len(),
                            i <= n,
                            path@ == b@.take(i as int),
                        decreases n - i,
                    {
                        path.push(b[i]);
                        i = i + 1;
                        proof {
                            assert(path@ =~= b@.take(i as int));
                        }
                    }
                    proof {
                        if b@.len() < UNIX_PATH_MAX {
                            assert(b@.take(n as int) =~= b@);
                        }
                    }
                },
                None => {},
            },
            None => {},
        }
        Ok(SockName::Unix(path))
    } else {
        Err(-EOPNOTSUPP)
    }
}

/// The address a socket is bound to.
pub fn getsockname(ipc: &InmemIpc, socket_id: u64) -> (r: Result<SockName, i32>)
    requires
        ipc.wf(),
    ensures
        !ipc.sockets().contains_key(socket_id) ==> r == Err::<SockName, i32>(neg(EBADF)),
        ipc.sockets().contains_key(socket_id) ==> {
            let v = ipc.objs()[ipc.sockets()[socket_id] as int];
            sockname_result(v.domain, v.local_key, r)
        },
{
    let o = match ipc.get_socket(socket_id) {
        Ok(o) => o,
        Err(e) => return Err(e),
    };
    proof {
        assert(ipc.objs()[o as int] == sock_view(ipc.objs@[o as int]));
    }
    let st = &ipc.objs[o].state;
    let key: Option<&str> = match &st.local_key {
        Some(k) => Some(k.as_str()),
        None => None,
    };
    sockaddr_from_key(st.domain, key)
}

/// The address of a socket's peer, in the socket's own domain; `-ENOTCONN`
/// without a peer.
pub fn getpeername(ipc: &InmemIpc, socket_id: u64) -> (r: Result<SockName, i32>)
    requires
        ipc.wf(),
    ensures
        !ipc.sockets().contains_key(socket_id) ==> r == Err::<SockName, i32>(neg(EBADF)),
        ipc.sockets().contains_key(socket_id) ==> {
            let v = ipc.objs()[ipc.sockets()[socket_id] as int];
            match v.peer {
                None => r == Err::<SockName, i32>(neg(ENOTCONN)),
                Some(p) => sockname_result(v.domain, ipc.objs()[p as int].local_key, r),
            }
        },
{
    let o = match ipc.get_socket(socket_id) {
        Ok(o) => o,
        Err(e) => return Err(e),
    };
    proof {
        assert(ipc.objs()[o as int] == sock_view(ipc.objs@[o as int]));
    }
    let domain = ipc.objs[o].state.domain;
    match ipc.objs[o].state.peer {
        None => Err(-ENOTCONN),
        Some(p) => {
            proof {
                assert(ipc.objs()[p as int] == sock_view(ipc.objs@[p as int]));
            }
            let key: Option<&str> = match &ipc.objs[p].state.local_key {
                Some(k) => Some(k.as_str()),
                None => None,
            };
            sockaddr_from_key(domain, key)
        },
    }
}

/// The `i32` stored little-endian in `b` at `at`, as the targets here lay
/// out an option value.
pub open spec fn le_i32(b: Seq<u8>, at: int) -> i32 {
    (b[at] as int + b[at + 1] as int * 0x100 + b[at + 2] as int * 0x1_0000 + b[at + 3] as int
        * 0x100_0000) as u32 as i32
}

/// Reads the `i32` stored little-endian in `b` at `at`.
fn read_le_i32(b: &[u8], at: usize) -> (r: i32)
    requires
        at + 4 <= b@.len(),
    ensures
        r == le_i32(b@, at as int),
{
    let u: u32 = b[at] as u32 + (b[at + 1] as u32) * 0x100 + (b[at + 2] as u32) * 0x1_0000 + (b[at
        + 3] as u32) * 0x100_0000;
    u as i32
}

/// The send buffer a request of `v` bytes gives: doubled (saturating),
/// less bookkeeping overhead, at least 1.
pub open spec fn sndbuf_for(v: i32) -> i32 {
    let req: int = if v < 1 {
        1
    } else {
        v as int
    };
    let dbl: int = if 2 * req > i32::MAX {
        i32::MAX as int
    } else {
        2 * req
    };
    (if dbl - 128 < 1 {
        1
    } else {
        dbl - 128
    }) as i32
}

/// `setsockopt` with the option value bytes `optval` (none for a null
/// pointer) takes the state from `ipc` to `ipc2` and returns `r`.
pub open spec fn setsockopt_result(
    ipc: InmemIpc,
    ipc2: InmemIpc,
    socket_id: u64,
    level: i32,
    optname: i32,
    optval: Option<Seq<u8>>,
    r: i32,
) -> bool {
    match optval {
        None => r == neg(EFAULT) && ipc2.same_state(&ipc),
        Some(b) => if !ipc.sockets().contains_key(socket_id) {
            r == neg(EBADF) && ipc2.same_state(&ipc)
        } else {
            let o = ipc.sockets()[socket_id] as int;
            let v = ipc.objs()[o];
            let int_ok = b.len() >= 4;
            let sock = level == SOL_SOCKET;
            let set = |n: SockView| r == 0 && ipc2.objs() == ipc.objs().update(o, n)
                && ipc2.queues() == ipc.queues() && ipc2.same_tables(&ipc);
            if sock && optname == SO_REUSEADDR && int_ok {
                set(SockView { reuseaddr: le_i32(b, 0), ..v })
            } else if sock && optname == SO_REUSEPORT && int_ok {
                set(SockView { reuseport: le_i32(b, 0), ..v })
            } else if sock && optname == SO_SNDBUF && int_ok {
                set(SockView { sndbuf: sndbuf_for(le_i32(b, 0)), ..v })
            } else if sock && optname == SO_RCVBUF && int_ok {
                set(
                    SockView {
                        rcvbuf: if le_i32(b, 0) < 1 {
                            1
                        } else {
                            le_i32(b, 0)
                        },
                        ..v
                    },
                )
            } else if sock && optname == SO_LINGER && b.len() >= 8 {
                set(SockView { linger: (le_i32(b, 0), le_i32(b, 4)), ..v })
            } else if level == IPPROTO_TCP && optname == TCP_NODELAY && int_ok {
                set(SockView { tcp_nodelay: le_i32(b, 0), ..v })
            } else {
                r == neg(ENOPROTOOPT) && ipc2.same_state(&ipc)
            }
        },
    }
}

/// Sets a socket option from its value bytes (`None` for a null pointer).
pub fn setsockopt(ipc: &mut InmemIpc, socket_id: u64, level: i32, optname: i32, optval: Option<&[u8]>) -> (r:
    i32)
    requires
        old(ipc).wf(),
    ensures
        final(ipc).wf(),
        setsockopt_result(
            *old(ipc),
            *final(ipc),
            socket_id,
            level,
            optname,
            match optval {
                Some(b) => Some(b@),
                None => None,
            },
            r,
        ),
{
    let b = match optval {
        Some(b) => b,
        None => return -EFAULT,
    };
    let o = match ipc.get_socket(socket_id) {
        Ok(o) => o,
        Err(e) => return e,
    };
    proof {
        assert(ipc.objs()[o as int] == sock_view(ipc.objs@[o as int]));
    }
    let int_ok = b.len() >= 4;
    let sock = level == SOL_SOCKET;
    let st = &ipc.objs[o].state;
    let (mut ra, mut rp, mut sb, mut rb, mut nd) = (st.reuseaddr, st.reuseport, st.sndbuf, st.rcvbuf, st.tcp_nodelay);
    if sock && optname == SO_REUSEADDR && int_ok {
        ra = read_le_i32(b, 0);
    } else if sock && optname == SO_REUSEPORT && int_ok {
        rp = read_le_i32(b, 0);
    } else if sock && optname == SO_SNDBUF && int_ok {
        let v = read_le_i32(b, 0);
        let req: i64 = if v < 1 {
            1
        } else {
            v as i64
        };
        let dbl: i64 = if 2 * req > i32::MAX as i64 {
            i32::MAX as i64
        } else {
            2 * req
        };
        sb = if dbl - 128 < 1 {
            1
        } else {
            (dbl - 128) as i32
        };
    } else if sock && optname == SO_RCVBUF && int_ok {
        let v = read_le_i32(b, 0);
        rb = if v < 1 {
            1
        } else {
            v
        };
    } else if sock && optname == SO_LINGER && b.len() >= 8 {
        let l = (read_le_i32(b, 0), read_le_i32(b, 4));
        ipc.set_linger(o, l);
        return 0;
    } else if level == IPPROTO_TCP && optname == TCP_NODELAY && int_ok {
        nd = read_le_i32(b, 0);
    } else {
        return -ENOPROTOOPT;
    }
    ipc.set_int_options(o, ra, rp, sb, rb, nd);
    0
}

/// The value of a socket option.
#[derive(Clone, Copy, PartialEq, Eq, Structural, Debug)]
pub enum SockOptValue {
    /// An `int` option.
    Int(i32),
    /// `SO_LINGER`: on/off and seconds.
    Linger(i32, i32),
}

/// The size in bytes of an option value.
pub open spec fn optval_size(v: SockOptValue) -> u32 {
    match v {
        SockOptValue::Int(_) => 4,
        SockOptValue::Linger(_, _) => 8,
    }
}

/// The value of option `optname` at `level` for a socket in state `v`,
/// if the option is supported.
pub open spec fn sockopt_of(v: SockView, level: i32, optname: i32) -> Option<SockOptValue> {
    if level == SOL_SOCKET {
        if optname == SO_TYPE {
            Some(SockOptValue::Int(v.socktype & !(SOCK_CLOEXEC | SOCK_NONBLOCK)))
        } else if optname == SO_ERROR {
            Some(SockOptValue::Int(0))
        } else if optname == SO_ACCEPTCONN {
            Some(
                SockOptValue::Int(
                    if v.listening {
                        1
                    } else {
                        0
                    },
                ),
            )
        } else if optname == SO_REUSEADDR {
            Some(SockOptValue::Int(v.reuseaddr))
        } else if optname == SO_REUSEPORT {
            Some(SockOptValue::Int(v.reuseport))
        } else if optname == SO_SNDBUF {
            Some(SockOptValue::Int(v.sndbuf))
        } else if optname == SO_RCVBUF {
            Some(SockOptValue::Int(v.rcvbuf))
        } else if optname == SO_LINGER {
            Some(SockOptValue::Linger(v.linger.0, v.linger.1))
        } else {
            None
        }
    } else if level == IPPROTO_TCP && optname == TCP_NODELAY {
        Some(SockOptValue::Int(v.tcp_nodelay))
    } else {
        None
    }
}

/// Reads a socket option into a buffer of `optlen` bytes (`None` for a null
/// pointer): `-EFAULT` without a buffer, `-EBADF` for an unknown socket,
/// `-ENOPROTOOPT` for an unsupported option, `-EINVAL` when the value does
/// not fit; otherwise the value, whose size becomes the new length.
pub fn getsockopt(ipc: &InmemIpc, socket_id: u64, level: i32, optname: i32, optlen: Option<u32>) -> (r:
    Result<SockOptValue, i32>)
    requires
        ipc.wf(),
    ensures
        r == (match optlen {
            None => Err(neg(EFAULT)),
            Some(len) => if !ipc.sockets().contains_key(socket_id) {
                Err(neg(EBADF))
            } else {
                match sockopt_of(ipc.objs()[ipc.sockets()[socket_id] as int], level, optname) {
                    None => Err(neg(ENOPROTOOPT)),
                    Some(v) => if len < optval_size(v) {
                        Err(neg(EINVAL))
                    } else {
                        Ok(v)
                    },
                }
            },
        }),
{
    let len = match optlen {
        Some(l) => l,
        None => return Err(-EFAULT),
    };
    let o = match ipc.get_socket(socket_id) {
        Ok(o) => o,
        Err(e) => return Err(e),
    };
    proof {
        assert(ipc.objs()[o as int] == sock_view(ipc.objs@[o as int]));
    }
    let st = &ipc.objs[o].state;
    let v = if level == SOL_SOCKET {
        if optname == SO_TYPE {
            SockOptValue::Int(st.socktype & !(SOCK_CLOEXEC | SOCK_NONBLOCK))
        } else if optname == SO_ERROR {
            SockOptValue::Int(0)
        } else if optname == SO_ACCEPTCONN {
            SockOptValue::Int(
                if st.listening {
                    1
                } else {
                    0
                },
            )
        } else if optname == SO_REUSEADDR {
            SockOptValue::Int(st.reuseaddr)
        } else if optname == SO_REUSEPORT {
            SockOptValue::Int(st.reuseport)
        } else if optname == SO_SNDBUF {
            SockOptValue::Int(st.sndbuf)
        } else if optname == SO_RCVBUF {
            SockOptValue::Int(st.rcvbuf)
        } else if optname == SO_LINGER {
            SockOptValue::Linger(st.linger.0, st.linger.1)
        } else {
            return Err(-ENOPROTOOPT);
        }
    } else if level == IPPROTO_TCP && optname == TCP_NODELAY {
        SockOptValue::Int(st.tcp_nodelay)
    } else {
        return Err(-ENOPROTOOPT);
    };
    let size: u32 = match v {
        SockOptValue::Int(_) => 4,
        SockOptValue::Linger(_, _) => 8,
    };
    if len < size {
        return Err(-EINVAL);
    }
    Ok(v)
}

/// The IPv4 address taken for loopback.
pub const LOOPBACK_ADDR: u32 = 0x7f00_0007;
/// Bytes of a Unix socket path field.
pub const SUN_PATH_LEN: usize = 108;

/// The number of bytes before the first NUL in `b` (all of them if none).
pub open spec fn nul_pos(b: Seq<u8>) -> nat
    decreases b.len(),
{
    if b.len() == 0 || b[0] == 0 {
        0
    } else {
        1 + nul_pos(b.drop_first())
    }
}

/// Skipping a NUL-free prefix of `i` bytes moves the first NUL by `i`.
proof fn lemma_nul_pos_skip(b: Seq<u8>, i: int)
    requires
        0 <= i <= b.len(),
        forall|j: int| 0 <= j < i ==> b[j] != 0,
    ensures
        nul_pos(b) == i + nul_pos(b.skip(i)),
    decreases i,
{
    if i > 0 {
        lemma_nul_pos_skip(b.drop_first(), i - 1);
        assert(b.drop_first().skip(i - 1) =~= b.skip(i));
    } else {
        assert(b.skip(0) =~= b);
    }
}

/// The address family stored (little-endian) in the first two bytes.
pub open spec fn family_of(b: Seq<u8>) -> int {
    b[0] as int + b[1] as int * 0x100
}

/// The `u16` stored big-endian at `at`.
pub open spec fn be_u16(b: Seq<u8>, at: int) -> int {
    b[at] as int * 0x100 + b[at + 1] as int
}

/// The `u32` stored big-endian at `at`.
pub open spec fn be_u32(b: Seq<u8>, at: int) -> int {
    b[at] as int * 0x100_0000 + b[at + 1] as int * 0x1_0000 + b[at + 2] as int * 0x100 + b[at + 3] as int
}

/// The key a socket address names, from the address bytes `a` (none for a
/// null pointer) of which the caller gave `addrlen`: a Unix path (abstract
/// when it starts with NUL, else up to its NUL) or IPv4 loopback (or any)
/// mapped to a loopback path by port; otherwise none. Bytes the address
/// needs but `a` lacks also give none.
pub open spec fn sockaddr_key_result(a: Option<Seq<u8>>, addrlen: u32, r: Option<(i32, String)>) -> bool {
    match a {
        None => r is None,
        Some(b) => if addrlen < 2 || b.len() < 2 {
            r is None
        } else {
            let fam = family_of(b);
            if fam == AF_UNIX {
                let plen: int = if addrlen - 2 < SUN_PATH_LEN {
                    addrlen - 2
                } else {
                    SUN_PATH_LEN as int
                };
                if plen == 0 || b.len() < 2 + plen {
                    r is None
                } else if b[2] == 0 {
                    r matches Some((f, k)) && f == AF_UNIX && k@ == "unix:@"@ + utf8_lossy(
                        b.subrange(3, 2 + plen),
                    )
                } else {
                    let sun = b.subrange(
                        2,
                        if b.len() < 2 + SUN_PATH_LEN {
                            b.len() as int
                        } else {
                            2 + SUN_PATH_LEN
                        },
                    );
                    r matches Some((f, k)) && f == AF_UNIX && k@ == "unix:"@ + utf8_lossy(
                        sun.take(nul_pos(sun) as int),
                    )
                }
            } else if fam == AF_INET {
                if b.len() < 8 {
                    r is None
                } else if be_u32(b, 4) != LOOPBACK_ADDR && be_u32(b, 4) != 0 {
                    r is None
                } else {
                    r matches Some((f, k)) && f == AF_INET && k@ == "unix:tmp/loopback"@ + dec(
                        be_u16(b, 2) as nat,
                    )
                }
            } else {
                r is None
            }
        },
    }
}

/// The family and key of a socket address given as bytes (`None` for a
/// null pointer) with the caller's `addrlen`.
pub fn sockaddr_key(addr: Option<&[u8]>, addrlen: u32) -> (r: Option<(i32, String)>)
    ensures
        sockaddr_key_result(
            match addr {
                Some(b) => Some(b@),
                None => None,
            },
            addrlen,
            r,
        ),
{
    let b = match addr {
        Some(b) => b,
        None => return None,
    };
    if addrlen < 2 || b.len() < 2 {
        return None;
    }
    let fam: u32 = b[0] as u32 + (b[1] as u32) * 0x100;
    if fam == AF_UNIX as u32 {
        let plen: usize = if ((addrlen - 2) as usize) < SUN_PATH_LEN {
            (addrlen - 2) as usize
        } else {
            SUN_PATH_LEN
        };
        if plen == 0 || b.len() < 2 + plen {
            return None;
        }
        if b[2] == 0 {
            let k = prefixed_lossy("unix:@", &b[3..2 + plen]);
            return Some((AF_UNIX, k));
        }
        let end: usize = if b.len() < 2 + SUN_PATH_LEN {
            b.len()
        } else {
            2 + SUN_PATH_LEN
        };
        let ghost sun = b@.subrange(2, end as int);
        let mut i: usize = 2;
        while i < end && b[i] != 0
            invariant
                2 <= i <= end <= b@.len(),
                sun == b@.subrange(2, end as int),
                forall|j: int| 0 <= j < i - 2 ==> sun[j] != 0,
            decreases end - i,
        {
            i = i + 1;
        }
        proof {
            lemma_nul_pos_skip(sun, i - 2);
            if i < end {
                assert(sun.skip(i - 2)[0] == b@[i as int]);
            }
            assert(sun.take(i - 2) =~= b@.subrange(2, i as int));
        }
        let k = prefixed_lossy("unix:", &b[2..i]);
        Some((AF_UNIX, k))
    } else if fam == AF_INET as u32 {
        if b.len() < 8 {
            return None;
        }
        let ip: u32 = (b[4] as u32) * 0x100_0000 + (b[5] as u32) * 0x1_0000 + (b[6] as u32) * 0x100
            + b[7] as u32;
        if ip != LOOPBACK_ADDR && ip != 0 {
            return None;
        }
        let port: u16 = (b[2] as u16) * 0x100 + b[3] as u16;
        Some((AF_INET, loopback_key(port)))
    } else {
        None
    }
}

} // verus!
