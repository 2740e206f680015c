//! Properties of the library that span several operations.
use crate::bytequeue::{poll_read_bits, read_outcome, write_outcome, QueueView, ReadStep, WriteStep};
use crate::memcalls::{spec_mmap_flags_supported, MAP_ANONYMOUS, MAP_FIXED, MAP_PRIVATE, MAP_SHARED};
use crate::threei::{spec_route, SyscallRoute};
use crate::consts::{EXIT_SYSCALL, POLLIN, SHUT_RDWR};
use crate::consts::{neg, EINVAL, EPIPE, FDKIND_IMPIPE, FDKIND_IMSOCK, SHUT_WR, THREEI_DEREGISTER};
use crate::handler_table::{lookup_key, purge_table, spec_register, TableView};
use crate::inmem_ipc::{
    accept_result, bind_result, close_socket_result, connect_result, listen_result, read_result,
    poll_result, shutdown_result, write_result, AcceptStep, FdEntry, InmemIpc, PipeSide,
};
use crate::lib_tables::SymbolKey;
use crate::logging::{lemma_parts_join, lemma_split_join, parts_bits, spec_lower_csv, split_commas};
use crate::consts::MAX_CAGEID;
use crate::sem::{
    destroy_result, init_result, post_result, wait_step_result, SemKey, SemTable, SemWaitStep,
    SEM_VALUE_MAX,
};
use crate::sigcalls::{sigmask_result, SIG_BLOCK, SIG_SETMASK, SIG_UNBLOCK};
use crate::stack_arena::{arena_get, arena_step, arena_trace_get, ArenaOp};
use vstd::prelude::*;

verus! {

/// After a registration (not a deregistration), the lookup for its cage,
/// syscall and lookup target gives the registered handler.
pub proof fn law_register_then_lookup(
    t: TableView,
    target_cageid: u64,
    srccage: u64,
    callnum: u64,
    handlefunccage: u64,
    addr: u64,
)
    requires
        handlefunccage != THREEI_DEREGISTER,
    ensures
        ({
            let t2 = spec_register(t, target_cageid, srccage, callnum, handlefunccage, addr);
            &&& t2.contains_key(srccage)
            &&& t2[srccage].contains_key(callnum)
            &&& t2[srccage][callnum].get(lookup_key(target_cageid, srccage)) == Some(
                (handlefunccage, addr),
            )
        }),
{
}

/// Registering (or deregistering) the same thing twice is the same as
/// doing it once.
pub proof fn law_register_idempotent(
    t: TableView,
    target_cageid: u64,
    srccage: u64,
    callnum: u64,
    handlefunccage: u64,
    addr: u64,
)
    ensures
        spec_register(
            spec_register(t, target_cageid, srccage, callnum, handlefunccage, addr),
            target_cageid,
            srccage,
            callnum,
            handlefunccage,
            addr,
        ) == spec_register(t, target_cageid, srccage, callnum, handlefunccage, addr),
{
    let t1 = spec_register(t, target_cageid, srccage, callnum, handlefunccage, addr);
    let t2 = spec_register(t1, target_cageid, srccage, callnum, handlefunccage, addr);
    if handlefunccage == THREEI_DEREGISTER {
        if t.contains_key(srccage) {
            let cm = t[srccage].remove(callnum);
            if !cm.is_empty() {
                assert(t1[srccage] == cm);
                assert(cm.remove(callnum) =~= cm);
            }
        }
    } else {
        let k = lookup_key(target_cageid, srccage);
        let cm = if t.contains_key(srccage) {
            t[srccage]
        } else {
            Map::empty()
        };
        let tm = if cm.contains_key(callnum) {
            cm[callnum]
        } else {
            Map::empty()
        };
        let v = (handlefunccage, addr);
        assert(t1[srccage] == cm.insert(callnum, tm.insert(k, v)));
        assert(t1[srccage][callnum].insert(k, v) =~= tm.insert(k, v));
        assert(t1[srccage].insert(callnum, tm.insert(k, v)) =~= t1[srccage]);
        assert(t2 =~= t1);
    }
}

/// A second registration for the same cage, syscall and target replaces
/// the first: the table is as if only the second had been made.
pub proof fn law_register_overwrites(
    t: TableView,
    target_cageid: u64,
    srccage: u64,
    callnum: u64,
    h1: u64,
    a1: u64,
    h2: u64,
    a2: u64,
)
    requires
        h1 != THREEI_DEREGISTER,
        h2 != THREEI_DEREGISTER,
    ensures
        spec_register(
            spec_register(t, target_cageid, srccage, callnum, h1, a1),
            target_cageid,
            srccage,
            callnum,
            h2,
            a2,
        ) == spec_register(t, target_cageid, srccage, callnum, h2, a2),
{
    let k = lookup_key(target_cageid, srccage);
    let cm = if t.contains_key(srccage) {
        t[srccage]
    } else {
        Map::empty()
    };
    let tm = if cm.contains_key(callnum) {
        cm[callnum]
    } else {
        Map::empty()
    };
    let t1 = spec_register(t, target_cageid, srccage, callnum, h1, a1);
    assert(t1[srccage][callnum].insert(k, (h2, a2)) =~= tm.insert(k, (h2, a2)));
    assert(t1[srccage].insert(callnum, tm.insert(k, (h2, a2))) =~= cm.insert(
        callnum,
        tm.insert(k, (h2, a2)),
    ));
    assert(spec_register(t1, target_cageid, srccage, callnum, h2, a2) =~= spec_register(
        t,
        target_cageid,
        srccage,
        callnum,
        h2,
        a2,
    ));
}

/// Deregistering a syscall of a cage leaves no handler for it, and leaves
/// every other cage as it was.
pub proof fn law_deregister_removes(t: TableView, target_cageid: u64, srccage: u64, callnum: u64, addr: u64)
    ensures
        ({
            let t2 = spec_register(t, target_cageid, srccage, callnum, THREEI_DEREGISTER, addr);
            &&& !(t2.contains_key(srccage) && t2[srccage].contains_key(callnum))
            &&& forall|c: u64| c != srccage ==> (#[trigger] t2.contains_key(c) <==> t.contains_key(c))
            &&& forall|c: u64| c != srccage && t.contains_key(c) ==> #[trigger] t2[c] == t[c]
        }),
{
}

/// After a grate's handlers are purged, no handler of the grate is left,
/// and every handler of another grate is still there.
pub proof fn law_purge_removes_grate(t: TableView, grateid: u64)
    ensures
        ({
            let p = purge_table(t, grateid);
            &&& p.dom() == t.dom()
            &&& forall|c: u64, n: u64, k: u64|
                #![trigger p[c][n][k]]
                p.contains_key(c) && p[c].contains_key(n) && p[c][n].contains_key(k) ==> p[c][n][k].0
                    != grateid
            &&& forall|c: u64, n: u64, k: u64|
                #![trigger t[c][n][k]]
                t.contains_key(c) && t[c].contains_key(n) && t[c][n].contains_key(k) && t[c][n][k].0
                    != grateid ==> p[c].contains_key(n) && p[c][n].contains_key(k) && p[c][n][k]
                    == t[c][n][k]
        }),
{
}

/// After a cage's harsh exit, the table holds nothing of the cage: no
/// handler map of its own and no handler it owns.
pub proof fn law_harsh_exit_forgets_cage(t: TableView, cage: u64)
    ensures
        ({
            let p = purge_table(t.remove(cage), cage);
            &&& !p.contains_key(cage)
            &&& forall|c: u64, n: u64, k: u64|
                #![trigger p[c][n][k]]
                p.contains_key(c) && p[c].contains_key(n) && p[c][n].contains_key(k) ==> p[c][n][k].0
                    != cage
        }),
{
}

/// After a library entry is registered, looking it up gives its value.
pub proof fn law_lib_get_after_register<V>(m: Map<u64, Map<SymbolKey, V>>, cage: u64, key: SymbolKey, v: V)
    ensures
        ({
            let m2 = m.insert(
                cage,
                (if m.contains_key(cage) {
                    m[cage]
                } else {
                    Map::empty()
                }).insert(key, v),
            );
            m2.contains_key(cage) && m2[cage].get(key) == Some(v)
        }),
{
}

/// After a stack-arena base is unset, looking it up gives nothing.
pub proof fn law_arena_unset_clears(s: Seq<Option<u32>>, id: int)
    requires
        0 <= id < s.len(),
    ensures
        arena_get(s.update(id, None), id) is None,
{
}

/// Bytes come out of a queue in the order they went in: after a write of
/// `data` that completes in one step, reading as many bytes as are queued
/// gives what was queued before followed by `data`.
pub proof fn law_queue_fifo(
    q: QueueView,
    q2: QueueView,
    q3: QueueView,
    data: Seq<u8>,
    nonblocking: bool,
    limit: int,
    w: WriteStep,
    nb2: bool,
    r: ReadStep,
)
    requires
        0 < data.len() <= i32::MAX,
        write_outcome(q, q2, data, 0, nonblocking, limit, w),
        w == WriteStep::Done(data.len() as i32),
        read_outcome(q2, q3, (q.contents.len() + data.len()) as int, nb2, r),
    ensures
        r matches ReadStep::Data(v) && v@ == q.contents + data,
        q3.contents.len() == 0,
{
    assert(q2.contents =~= q.contents + data);
    assert(q2.contents.take(q2.contents.len() as int) =~= q2.contents);
}

/// Reading an empty queue whose writers are gone gives 0 (end of file).
pub proof fn law_queue_eof(q: QueueView, q2: QueueView, count: int, nonblocking: bool, r: ReadStep)
    requires
        q.contents.len() == 0,
        q.writers == 0,
        q.eof,
        count > 0,
        read_outcome(q, q2, count, nonblocking, r),
    ensures
        r == ReadStep::Done(0),
{
}

/// A pipe gives back what was written: with read end `rfd` and write end
/// `wfd` on one empty queue, a write of `data` that completes in one step
/// followed by a read of at least that many bytes gives `data`.
pub proof fn law_pipe_round_trip(
    ipc: InmemIpc,
    ipc2: InmemIpc,
    ipc3: InmemIpc,
    rfd: FdEntry,
    wfd: FdEntry,
    data: Seq<u8>,
    nb: bool,
    count: int,
    nb2: bool,
    w: WriteStep,
    r: ReadStep,
)
    requires
        ipc.wf(),
        rfd.fdkind == FDKIND_IMPIPE,
        wfd.fdkind == FDKIND_IMPIPE,
        ipc.endpoints().contains_key(rfd.underfd),
        ipc.endpoints().contains_key(wfd.underfd),
        ipc.endpoints()[rfd.underfd].side == PipeSide::Read,
        ipc.endpoints()[wfd.underfd].side == PipeSide::Write,
        ipc.endpoints()[rfd.underfd].queue == ipc.endpoints()[wfd.underfd].queue,
        ipc.queues()[ipc.endpoints()[rfd.underfd].queue as int].contents.len() == 0,
        0 < data.len() <= i32::MAX,
        count >= data.len(),
        write_result(ipc, ipc2, wfd, data, 0, nb, w),
        w == WriteStep::Done(data.len() as i32),
        read_result(ipc2, ipc3, rfd, count, nb2, r),
    ensures
        r matches ReadStep::Data(v) && v@ == data,
{
    ipc.lemma_wf();
    let q = ipc.endpoints()[rfd.underfd].queue as int;
    assert(ipc2.endpoints() == ipc.endpoints());
    assert(ipc2.queues()[q].contents =~= data);
    assert(ipc2.queues()[q].contents.take(data.len() as int) =~= data);
}

/// A connected socket pair carries bytes: with socket `a` the peer of
/// socket `b` (and `b`'s queue empty and not shut for reading), a write of
/// `data` on `a` that completes in one step followed by a read of at least
/// that many bytes on `b` gives `data`.
pub proof fn law_socket_round_trip(
    ipc: InmemIpc,
    ipc2: InmemIpc,
    ipc3: InmemIpc,
    afd: FdEntry,
    bfd: FdEntry,
    data: Seq<u8>,
    nb: bool,
    count: int,
    nb2: bool,
    w: WriteStep,
    r: ReadStep,
)
    requires
        ipc.wf(),
        afd.fdkind == FDKIND_IMSOCK,
        bfd.fdkind == FDKIND_IMSOCK,
        ipc.sockets().contains_key(afd.underfd),
        ipc.sockets().contains_key(bfd.underfd),
        ipc.objs()[ipc.sockets()[afd.underfd] as int].peer == Some(ipc.sockets()[bfd.underfd]),
        !ipc.objs()[ipc.sockets()[bfd.underfd] as int].read_shutdown,
        ipc.queues()[ipc.objs()[ipc.sockets()[bfd.underfd] as int].incoming as int].contents.len()
            == 0,
        0 < data.len() <= i32::MAX,
        count >= data.len(),
        write_result(ipc, ipc2, afd, data, 0, nb, w),
        w == WriteStep::Done(data.len() as i32),
        read_result(ipc2, ipc3, bfd, count, nb2, r),
    ensures
        r matches ReadStep::Data(v) && v@ == data,
{
    ipc.lemma_wf();
    let b = ipc.sockets()[bfd.underfd] as int;
    let a = ipc.sockets()[afd.underfd] as int;
    assert(ipc.objs()[a].peer == Some(b as usize));
    let q = ipc.objs()[b].incoming as int;
    assert(ipc2.objs() == ipc.objs());
    assert(ipc2.queues()[q].contents =~= data);
    assert(ipc2.queues()[q].contents.take(data.len() as int) =~= data);
}

/// After a successful `listen`, the socket is the listener of its key.
pub proof fn law_listen_registers(ipc: InmemIpc, ipc2: InmemIpc, socket_id: u64)
    requires
        ipc.wf(),
        ipc2.wf(),
        ipc.sockets().contains_key(socket_id),
        listen_result(ipc, ipc2, socket_id, 0),
    ensures
        ({
            let o = ipc.sockets()[socket_id];
            let k = ipc2.objs()[o as int].local_key->0;
            &&& ipc2.objs()[o as int].listening
            &&& ipc2.listening_on(k)
            &&& ipc2.listener_of(k) == o
        }),
{
    ipc.lemma_wf();
    ipc2.lemma_wf();
    let o = ipc.sockets()[socket_id];
    let k = ipc2.objs()[o as int].local_key->0;
    let l2 = ipc2.listeners();
    if ipc.listening_on(k) {
        assert(ipc.listener_of(k) == o);
    } else {
        let j = l2.len() - 1;
        assert(l2[j] == (k, o));
        let c = choose|i: int| 0 <= i < l2.len() && #[trigger] l2[i].0 == k;
        if c != j {
            assert(l2[c].0 != l2[j].0);
        }
    }
}

/// A connection made to a listener is the one accepted next when nothing
/// was pending: `accept` returns a new socket whose peer is the client and
/// whose address is the listener's key, and the client's peer is it.
pub proof fn law_connect_then_accept(
    ipc: InmemIpc,
    ipc2: InmemIpc,
    ipc3: InmemIpc,
    client_id: u64,
    key: Seq<char>,
    lfd: FdEntry,
    a: AcceptStep,
)
    requires
        ipc.wf(),
        ipc.sockets().contains_key(client_id),
        connect_result(ipc, ipc2, client_id, key, 0),
        ipc.listening_on(key),
        ipc.sockets().contains_key(lfd.underfd),
        ipc.sockets()[lfd.underfd] == ipc.listener_of(key),
        ipc.objs()[ipc.listener_of(key) as int].pending.len() == 0,
        ipc.objs().len() < usize::MAX,
        accept_result(ipc2, ipc3, lfd, a),
    ensures
        a == AcceptStep::Done(Ok::<u64, i32>(ipc2.next_socket_id())),
        ({
            let s = ipc3.sockets()[ipc2.next_socket_id()];
            let c = ipc.sockets()[client_id];
            &&& ipc3.objs()[s as int].peer == Some(c)
            &&& ipc3.objs()[s as int].local_key == Some(key)
            &&& ipc3.objs()[c as int].peer == Some(s)
        }),
{
    ipc.lemma_wf();
    let o = ipc.sockets()[client_id] as int;
    let l = ipc.listener_of(key) as int;
    let jl = choose|j: int| 0 <= j < ipc.listeners().len() && #[trigger] ipc.listeners()[j].0 == key;
    assert(ipc.listeners()[jl].1 < ipc.objs().len());
    let s = ipc.objs().len();
    assert(ipc.objs()[l].listening);
    let v = ipc.objs()[o];
    let ck = match v.local_key {
        Some(k) => k,
        None => crate::inmem_ipc::ephemeral_key(v.domain, ipc.next_ephemeral_port(), ipc.next_socket_id()),
    };
    let server = crate::inmem_ipc::SockView {
        local_key: Some(key),
        peer: Some(o as usize),
        ..crate::inmem_ipc::fresh_sock(ipc.queues().len() as usize, v.domain, v.socktype, v.protocol)
    };
    let objs1 = ipc.objs().update(o, crate::inmem_ipc::SockView { local_key: Some(ck), peer: Some(s as usize), ..v }).push(server);
    assert(ipc2.objs()[l].pending =~= seq![s as usize]);
    assert(ipc2.objs()[s as int] == server);
    assert(ipc2.sockets()[lfd.underfd] == l);
    assert(ipc3.objs()[o].peer == objs1[o].peer);
}

/// Closing a socket that listens on a key frees the key for listeners.
pub proof fn law_close_frees_listener(ipc: InmemIpc, ipc2: InmemIpc, o: int, key: Seq<char>)
    requires
        ipc.wf(),
        0 <= o < ipc.objs().len(),
        !ipc.objs()[o].closed,
        ipc.objs()[o].local_key == Some(key),
        ipc.listening_on(key),
        ipc.listener_of(key) == o,
        close_socket_result(ipc, ipc2, o),
    ensures
        !ipc2.listening_on(key),
{
    ipc.lemma_wf();
    let l = ipc.listeners();
    let j = choose|i: int| 0 <= i < l.len() && #[trigger] l[i].0 == key;
    assert(l[j] == (key, o as usize));
    let c = choose|i: int| 0 <= i < l.len() && #[trigger] l[i] == (key, o as usize);
    if c != j {
        assert(l[c].0 != l[j].0);
    }
    let l2 = l.remove(c);
    assert(ipc2.listeners() == l2);
    if ipc2.listening_on(key) {
        let i = choose|i: int| 0 <= i < l2.len() && #[trigger] l2[i].0 == key;
        let i2 = if i < c { i } else { i + 1 };
        assert(l2[i] == l[i2]);
        assert(l[i2].0 != l[c].0);
    }
}

/// A post followed by a wait step on an initialized semaphore succeeds
/// and leaves the count where it was.
pub proof fn law_sem_post_then_wait(
    t: SemTable,
    t2: SemTable,
    t3: SemTable,
    k: SemKey,
    i: int,
    flags: u32,
    r: SemWaitStep,
)
    requires
        t.wf(),
        t.slot(k) == Some(i),
        post_result(t, t2, Ok::<SemKey, i32>(k), 0),
        wait_step_result(t2, t3, i, flags, r),
    ensures
        r == SemWaitStep::Done(0),
        t3.states() == t.states(),
        t3.slots() == t.slots(),
{
    t.lemma_wf(k);
    assert(t3.states() =~= t.states());
}

/// A semaphore initialized with a value reads back that value.
pub proof fn law_sem_init_then_value(t: SemTable, t2: SemTable, value_arg: u64, k: SemKey)
    requires
        (value_arg as u32) <= SEM_VALUE_MAX,
        t.states().len() < u64::MAX,
        init_result(t, t2, value_arg, Ok::<SemKey, i32>(k), 0),
    ensures
        t2.slot(k) == Some(t.states().len() as int),
        t2.states()[t.states().len() as int].value == value_arg as u32,
        !t2.states()[t.states().len() as int].destroyed,
{
}

/// After a semaphore is destroyed its key is unknown (every later call on
/// it is `-EINVAL`) and waiters still holding its state fail with
/// `-EINVAL`.
pub proof fn law_sem_destroy_then_einval(
    t: SemTable,
    t2: SemTable,
    t3: SemTable,
    k: SemKey,
    i: int,
    flags: u32,
    r: SemWaitStep,
)
    requires
        t.slot(k) == Some(i),
        0 <= i < t.states().len(),
        destroy_result(t, t2, Ok::<SemKey, i32>(k), 0),
        wait_step_result(t2, t3, i, flags, r),
    ensures
        t2.slot(k) is None,
        r == SemWaitStep::Done(neg(EINVAL)),
{
}

/// After a successful bind of an open socket, its key is in use: a later
/// bind of another socket to it fails and `unix_path_is_bound` reports it.
pub proof fn law_bind_marks_key_used(ipc: InmemIpc, ipc2: InmemIpc, socket_id: u64, key: Seq<char>)
    requires
        ipc.wf(),
        ipc.sockets().contains_key(socket_id),
        !ipc.objs()[ipc.sockets()[socket_id] as int].closed,
        key != "inet:0"@,
        bind_result(ipc, ipc2, socket_id, key, 0),
    ensures
        ipc2.bound_elsewhere(key, -1),
        forall|o: int| o != ipc.sockets()[socket_id] ==> #[trigger] ipc2.bound_elsewhere(key, o),
{
    ipc.lemma_wf();
    let o = ipc.sockets()[socket_id];
    assert(ipc2.sockets().contains_key(socket_id));
    assert(ipc2.objs()[o as int].local_key == Some(key));
    assert forall|x: int| x != o implies #[trigger] ipc2.bound_elsewhere(key, x) by {
        assert(ipc2.sockets().contains_key(socket_id));
    }
}

/// After a socket is shut for writing, writing on it fails with `-EPIPE`.
pub proof fn law_shutdown_write_then_epipe(
    ipc: InmemIpc,
    ipc2: InmemIpc,
    ipc3: InmemIpc,
    fd: FdEntry,
    data: Seq<u8>,
    written: int,
    nb: bool,
    w: WriteStep,
)
    requires
        ipc.wf(),
        fd.fdkind == FDKIND_IMSOCK,
        ipc.sockets().contains_key(fd.underfd),
        shutdown_result(ipc, ipc2, fd.underfd, SHUT_WR, 0),
        write_result(ipc2, ipc3, fd, data, written, nb, w),
    ensures
        w == WriteStep::Done(neg(EPIPE)),
{
    ipc.lemma_wf();
}

/// Blocking adds the given signals to the mask and keeps those already
/// blocked; nothing becomes unblocked.
pub proof fn law_block_adds_signals(curr: u64, set: u64)
    ensures
        sigmask_result(SIG_BLOCK, curr, set) matches Ok(st) && st.new_mask & set == set
            && st.new_mask & curr == curr && st.new_mask & !(curr | set) == 0 && st.unblocked == 0,
{
    let st = sigmask_result(SIG_BLOCK, curr, set)->Ok_0;
    let m = st.new_mask;
    let u = curr | set;
    assert(m & set == set && m & curr == curr && m & !u == 0) by (bit_vector)
        requires
            m == curr | set,
            u == curr | set,
    ;
}

/// Unblocking removes exactly the given signals from the mask: none of
/// them stays blocked, and every other blocked signal stays blocked.
pub proof fn law_unblock_removes_signals(curr: u64, set: u64)
    ensures
        sigmask_result(SIG_UNBLOCK, curr, set) matches Ok(st) && st.new_mask & set == 0
            && st.new_mask | set == curr | set && st.unblocked == set,
{
    let m = curr & !set;
    assert(m & set == 0 && m | set == curr | set) by (bit_vector)
        requires m == curr & !set;
}

/// Replacing the mask makes it the given set, and the signals reported as
/// unblocked are exactly those blocked before and absent from the new mask.
pub proof fn law_setmask_unblocks_dropped(curr: u64, set: u64)
    ensures
        sigmask_result(SIG_SETMASK, curr, set) matches Ok(st) && st.new_mask == set
            && st.unblocked == curr & !st.new_mask,
{
    let u = (curr ^ set) & curr;
    assert(u == curr & !set) by (bit_vector)
        requires u == (curr ^ set) & curr;
}

/// Joining two category lists with a comma enables exactly the categories
/// either list enables (for lists already in lowercase, as the parser sees
/// them after lowercasing).
pub proof fn law_category_lists_join(a: Seq<char>, b: Seq<char>, x: u8, y: u8)
    requires
        parts_bits(split_commas(a)) == Ok::<u8, Seq<char>>(x),
        parts_bits(split_commas(b)) == Ok::<u8, Seq<char>>(y),
    ensures
        spec_lower_csv(a + ","@ + b) == Ok::<u8, Seq<char>>(x | y),
{
    let j = a + ","@ + b;
    reveal_strlit(",");
    assert(j =~= a.push(',') + b);
    lemma_split_join(a, b);
    lemma_parts_join(split_commas(a), split_commas(b), x, y);
    assert(j.len() == a.len() + 1 + b.len());
    if j == "all"@ || j == "none"@ {
        reveal_strlit("all");
        reveal_strlit("none");
        assert(j[a.len() as int] == ',');
    }
}

/// A runtime set for a cage below `MAX_CAGEID` is what a lookup of that
/// cage gives until it is removed, and no other cage's lookup changes;
/// after removal the lookup gives `None`.
pub proof fn law_runtime_set_get_remove(s: Seq<Option<u64>>, c: u64, r: u64, c2: u64)
    requires
        s.len() == MAX_CAGEID,
        c < MAX_CAGEID,
    ensures
        ({
            let set = s.update(c as int, Some(r));
            let removed = set.update(c as int, None);
            let get = |t: Seq<Option<u64>>, k: u64| if k < MAX_CAGEID { t[k as int] } else { None };
            &&& get(set, c) == Some(r)
            &&& get(removed, c) is None
            &&& c2 != c ==> get(set, c2) == get(s, c2) && get(removed, c2) == get(s, c2)
        }),
{
}

/// Listening twice on a socket is the same as listening once: the second
/// call returns 0 and changes nothing.
pub proof fn law_listen_idempotent(
    ipc: InmemIpc,
    ipc2: InmemIpc,
    ipc3: InmemIpc,
    socket_id: u64,
    r: i32,
)
    requires
        ipc.wf(),
        ipc2.wf(),
        listen_result(ipc, ipc2, socket_id, 0),
        listen_result(ipc2, ipc3, socket_id, r),
    ensures
        r == 0,
        ipc3.same_state(&ipc2),
{
    if ipc.sockets().contains_key(socket_id) {
        law_listen_registers(ipc, ipc2, socket_id);
        ipc.lemma_wf();
        ipc2.lemma_wf();
        assert(ipc2.sockets()[socket_id] == ipc.sockets()[socket_id]);
        let o = ipc2.sockets()[socket_id] as int;
        let v = ipc2.objs()[o];
        assert(v.local_key is Some);
        assert(ipc3.objs() =~= ipc2.objs());
    }
}

/// Right after a successful bind of an open Unix socket to `unix:<path>`,
/// the path counts as bound.
pub proof fn law_bind_then_unix_path_bound(
    ipc: InmemIpc,
    ipc2: InmemIpc,
    socket_id: u64,
    path: Seq<char>,
)
    requires
        ipc.wf(),
        ipc.sockets().contains_key(socket_id),
        !ipc.objs()[ipc.sockets()[socket_id] as int].closed,
        bind_result(ipc, ipc2, socket_id, "unix:"@ + path, 0),
    ensures
        ipc2.listening_on("unix:"@ + path) || ipc2.bound_elsewhere("unix:"@ + path, -1),
{
    ipc.lemma_wf();
    let key = "unix:"@ + path;
    reveal_strlit("unix:");
    reveal_strlit("inet:0");
    assert(key != "inet:0"@) by {
        assert(key[0] == 'u');
    }
    let o = ipc.sockets()[socket_id];
    assert(ipc2.sockets().contains_key(socket_id));
    assert(ipc2.objs()[o as int].local_key == Some(key));
    assert(ipc2.bound_elsewhere(key, -1));
}

/// Over any run of init, unset and fork calls on the stack-arena bases,
/// the base a grate reports is the one set by the last successful call
/// that changed it (an init, or a fork copying the parent's base at that
/// moment), `None` if that call was an unset, and its initial base if no
/// successful call changed it.
pub proof fn law_arena_bases_follow_last_change(
    states: Seq<Seq<Option<u32>>>,
    ops: Seq<ArenaOp>,
    oks: Seq<bool>,
)
    requires
        states.len() == ops.len() + 1,
        oks.len() == ops.len(),
        forall|k: int| 0 <= k < ops.len() ==> arena_step(states[k], states[k + 1], ops[k], oks[k]),
    ensures
        forall|g: int| 0 <= g ==> #[trigger] arena_get(states.last(), g) == arena_trace_get(
            states[0],
            ops,
            oks,
            g,
        ),
    decreases ops.len(),
{
    if ops.len() > 0 {
        let n = ops.len() - 1;
        let st = states.drop_last();
        assert forall|k: int| 0 <= k < ops.drop_last().len() implies arena_step(
            st[k],
            st[k + 1],
            ops.drop_last()[k],
            oks.drop_last()[k],
        ) by {
            assert(arena_step(states[k], states[k + 1], ops[k], oks[k]));
        }
        law_arena_bases_follow_last_change(st, ops.drop_last(), oks.drop_last());
        assert(st.last() == states[n]);
        assert(states.last() == states[n + 1]);
        assert(arena_step(states[n], states[n + 1], ops[n], oks[n]));
        assert forall|g: int| 0 <= g implies #[trigger] arena_get(states.last(), g)
            == arena_trace_get(states[0], ops, oks, g) by {
            assert(arena_get(st.last(), g) == arena_trace_get(st[0], ops.drop_last(), oks.drop_last(), g));
            if oks[n] {
                match ops[n] {
                    ArenaOp::Fork(p, c) => {
                        assert(arena_get(st.last(), p as int) == arena_trace_get(
                            st[0],
                            ops.drop_last(),
                            oks.drop_last(),
                            p as int,
                        ));
                    },
                    _ => {},
                }
            }
        }
    }
}

/// A call for a cage that is exiting is refused (unless it is the exit
/// call itself), whoever makes it; and a call is refused as exiting only
/// when its target cage is exiting.
pub proof fn law_route_refuses_exiting_target(
    handlers: TableView,
    exiting: Set<u64>,
    runtimes: Seq<Option<u64>>,
    trampolines: Map<u64, u64>,
    self_cageid: u64,
    syscall_num: u64,
    target_cageid: u64,
)
    ensures
        (spec_route(handlers, exiting, runtimes, trampolines, self_cageid, syscall_num, target_cageid)
            == SyscallRoute::Exiting) == (exiting.contains(target_cageid) && syscall_num
            != EXIT_SYSCALL),
{
}

/// Polling a queue for reading reports `POLLIN` exactly when a blocking
/// read of it would not wait (it has data, is at end of file, or has no
/// writers left), and reports nothing otherwise.
pub proof fn law_poll_read_iff_read_ready(
    q: QueueView,
    q2: QueueView,
    count: int,
    r: ReadStep,
)
    requires
        count > 0,
        read_outcome(q, q2, count, false, r),
    ensures
        poll_read_bits(q) == POLLIN <==> !(r is Wait),
        poll_read_bits(q) != POLLIN ==> poll_read_bits(q) == 0,
{
}

/// For the read end of a pipe, `poll` asked for `POLLIN` answers `POLLIN`
/// exactly when a blocking read of that end would not wait.
pub proof fn law_pipe_poll_matches_read(
    ipc: InmemIpc,
    ipc2: InmemIpc,
    fd: FdEntry,
    count: int,
    r: ReadStep,
)
    requires
        ipc.wf(),
        fd.fdkind == FDKIND_IMPIPE,
        ipc.endpoints().contains_key(fd.underfd),
        ipc.endpoints()[fd.underfd].side == PipeSide::Read,
        count > 0,
        read_result(ipc, ipc2, fd, count, false, r),
    ensures
        poll_result(ipc, fd, POLLIN) == POLLIN <==> !(r is Wait),
{
    ipc.lemma_wf();
    assert(POLLIN & POLLIN != 0) by (bit_vector);
    let q = ipc.endpoints()[fd.underfd].queue as int;
    law_poll_read_iff_read_ready(ipc.queues()[q], ipc2.queues()[q], count, r);
}

/// The `mmap` flag check accepts every combination of fixed, shared,
/// private and anonymous, and refuses any flag outside them.
pub proof fn law_mmap_accepts_the_four_flags(fixed: bool, shared: bool, private: bool, anon: bool, other: i32)
    ensures
        spec_mmap_flags_supported(
            (if fixed { MAP_FIXED } else { 0i32 }) | (if shared { MAP_SHARED } else { 0i32 }) | (if private {
                MAP_PRIVATE
            } else {
                0i32
            }) | (if anon { MAP_ANONYMOUS } else { 0i32 }),
        ),
        other & !(MAP_FIXED | MAP_SHARED | MAP_PRIVATE | MAP_ANONYMOUS) != 0
            ==> !spec_mmap_flags_supported(other),
{
    let a: i32 = if fixed { MAP_FIXED } else { 0i32 };
    let b: i32 = if shared { MAP_SHARED } else { 0i32 };
    let c: i32 = if private { MAP_PRIVATE } else { 0i32 };
    let d: i32 = if anon { MAP_ANONYMOUS } else { 0i32 };
    let f = a | b | c | d;
    assert(f & !(0x10i32 | 0x01i32 | 0x02i32 | 0x20i32) == 0) by (bit_vector)
        requires
            a == 0 || a == 0x10,
            b == 0 || b == 0x01,
            c == 0 || c == 0x02,
            d == 0 || d == 0x20,
            f == a | b | c | d,
    ;
}

/// Shutting a socket down in both directions shuts both: the socket is
/// marked shut for reading and writing, its peer's incoming queue has no
/// writers left and is at end of file (so the peer reads end of file once
/// it is drained), and any later write on the socket fails with `-EPIPE`.
pub proof fn law_shutdown_both_directions(
    ipc: InmemIpc,
    ipc2: InmemIpc,
    ipc3: InmemIpc,
    fd: FdEntry,
    data: Seq<u8>,
    written: int,
    nb: bool,
    w: WriteStep,
)
    requires
        ipc.wf(),
        fd.fdkind == FDKIND_IMSOCK,
        ipc.sockets().contains_key(fd.underfd),
        shutdown_result(ipc, ipc2, fd.underfd, SHUT_RDWR, 0),
        write_result(ipc2, ipc3, fd, data, written, nb, w),
    ensures
        ({
            let o = ipc.sockets()[fd.underfd] as int;
            &&& ipc2.objs()[o].read_shutdown
            &&& ipc2.objs()[o].write_shutdown
            &&& ipc.objs()[o].peer matches Some(p) ==> ipc2.queues()[ipc.objs()[p as int].incoming as int].writers
                == 0 && ipc2.queues()[ipc.objs()[p as int].incoming as int].eof
        }),
        w == WriteStep::Done(neg(EPIPE)),
{
    ipc.lemma_wf();
}

} // verus!
