//! The interposition layer: handler registration, routing decisions,
//! cage runtimes and trampolines, and harsh cage exit.
use crate::concurrent::{
    id_map_contents, id_map_get, id_map_insert, id_map_new, id_set_contains, id_set_contents,
    id_set_insert, id_set_new, id_set_remove, IdMap, IdSet,
};
use crate::consts::{
    ELINDAPIABORTED, ELINDESRCH, EXIT_SYSCALL, MAX_CAGEID, RAWPOSIX_CAGEID, WASMTIME_CAGEID,
};
use crate::handler_table::{
    purge_table, spec_register, HandlerTable, TableView,
};
use vstd::prelude::*;

verus! {

/// `ELINDESRCH` as the `i32` status that registration returns.
pub open spec fn esrch_i32() -> i32 {
    ELINDESRCH as i32
}

/// Cages (and grates) that are exiting; calls into them are refused.
pub struct ExitingTable {
    set: IdSet,
}

impl ExitingTable {
    /// An empty table.
    pub fn new() -> (r: ExitingTable)
        ensures
            r@ == Set::<u64>::empty(),
    {
        ExitingTable { set: id_set_new() }
    }

    /// The exiting cage ids.
    pub closed spec fn view(&self) -> Set<u64> {
        id_set_contents(self.set)
    }

    /// Whether `cageid` is exiting.
    pub fn contains(&self, cageid: u64) -> (r: bool)
        ensures
            r == self@.contains(cageid),
    {
        id_set_contains(&self.set, cageid)
    }

    /// Marks `cageid` as exiting.
    pub fn insert(&mut self, cageid: u64)
        ensures
            final(self)@ == old(self)@.insert(cageid),
    {
        id_set_insert(&mut self.set, cageid);
    }

    /// Clears the exiting mark of `cageid`.
    pub fn remove(&mut self, cageid: u64)
        ensures
            final(self)@ == old(self)@.remove(cageid),
    {
        id_set_remove(&mut self.set, cageid);
    }
}

/// The runtime that executes grate calls for each cage, indexed by cage id.
/// It always has exactly `MAX_CAGEID` slots.
pub struct RuntimeTable {
    slots: Vec<Option<u64>>,
}

impl RuntimeTable {
    /// The table keeps one slot per possible cage id.
    #[verifier::type_invariant]
    spec fn slots_per_cage(self) -> bool {
        self.slots@.len() == MAX_CAGEID
    }

    /// A table of `MAX_CAGEID` slots, none set.
    pub fn new() -> (r: RuntimeTable)
        ensures
            r@ == Seq::new(MAX_CAGEID as nat, |i: int| None::<u64>),
    {
        let mut slots: Vec<Option<u64>> = Vec::new();
        while slots.len() < MAX_CAGEID as usize
            invariant
                slots@.len() <= MAX_CAGEID,
                forall|i: int| 0 <= i < slots@.len() ==> slots@[i] == None::<u64>,
            decreases MAX_CAGEID - slots@.len(),
        {
            slots.push(None);
        }
        let r = RuntimeTable { slots };
        proof {
            assert(r@ =~= Seq::new(MAX_CAGEID as nat, |i: int| None::<u64>));
        }
        r
    }

    /// The slots of the table.
    pub closed spec fn view(&self) -> Seq<Option<u64>> {
        self.slots@
    }

    /// The number of slots, which is always `MAX_CAGEID`.
    pub fn len(&self) -> (r: usize)
        ensures
            r == self@.len(),
            r == MAX_CAGEID,
    {
        proof {
            use_type_invariant(self);
        }
        self.slots.len()
    }
}

/// A copy of `slots` with slot `idx` replaced by `v`.
fn slots_with(slots: &Vec<Option<u64>>, idx: usize, v: Option<u64>) -> (r: Vec<Option<u64>>)
    requires
        idx < slots@.len(),
    ensures
        r@ == slots@.update(idx as int, v),
{
    let mut out: Vec<Option<u64>> = Vec::new();
    let mut i: usize = 0;
    while i < slots.len()
        invariant
            i <= slots@.len(),
            idx < slots@.len(),
            out@ == slots@.update(idx as int, v).take(i as int),
        decreases slots@.len() - i,
    {
        if i == idx {
            out.push(v);
        } else {
            out.push(slots[i]);
        }
        proof {
            assert(out@ =~= slots@.update(idx as int, v).take(i + 1));
        }
        i = i + 1;
    }
    proof {
        assert(out@ =~= slots@.update(idx as int, v));
    }
    out
}

/// Associates cage `cageid` with runtime `runtime`. Setting the same value
/// again changes nothing; the cage id must be below `MAX_CAGEID` and the
/// slot must not hold another runtime (both are fatal bugs of the caller).
pub fn set_cage_runtime(rt: &mut RuntimeTable, cageid: u64, runtime: u64)
    requires
        cageid < MAX_CAGEID,
        old(rt)@.len() == MAX_CAGEID ==> (old(rt)@[cageid as int] is None || old(rt)@[
            cageid as int
        ] == Some(runtime)),
    ensures
        old(rt)@.len() == MAX_CAGEID,
        final(rt)@.len() == MAX_CAGEID,
        final(rt)@ == old(rt)@.update(cageid as int, Some(runtime)),
{
    proof {
        use_type_invariant(&*rt);
    }
    let idx = cageid as usize;
    if rt.slots[idx].is_none() {
        rt.slots = slots_with(&rt.slots, idx, Some(runtime));
    } else {
        proof {
            assert(rt.slots@[idx as int] == Some(runtime));
            assert(rt@ =~= old(rt)@.update(cageid as int, Some(runtime)));
        }
    }
}

/// The runtime of `cageid`; `None` when unset or when `cageid` is not below
/// `MAX_CAGEID`.
pub fn get_cage_runtime(rt: &RuntimeTable, cageid: u64) -> (r: Option<u64>)
    ensures
        rt@.len() == MAX_CAGEID,
        r == (if cageid < MAX_CAGEID {
            rt@[cageid as int]
        } else {
            None
        }),
{
    proof {
        use_type_invariant(rt);
    }
    if cageid >= rt.slots.len() as u64 {
        return None;
    }
    rt.slots[cageid as usize]
}

/// Clears and returns the runtime of `cageid`; for a `cageid` not below
/// `MAX_CAGEID` nothing changes and `None` is returned.
pub fn remove_cage_runtime(rt: &mut RuntimeTable, cageid: u64) -> (r: Option<u64>)
    ensures
        old(rt)@.len() == MAX_CAGEID,
        final(rt)@.len() == MAX_CAGEID,
        cageid < MAX_CAGEID ==> r == old(rt)@[cageid as int] && final(rt)@ == old(rt)@.update(
            cageid as int,
            None,
        ),
        cageid >= MAX_CAGEID ==> r is None && final(rt)@ == old(rt)@,
{
    proof {
        use_type_invariant(&*rt);
    }
    if cageid >= rt.slots.len() as u64 {
        return None;
    }
    let idx = cageid as usize;
    let old_v = rt.slots[idx];
    rt.slots = slots_with(&rt.slots, idx, None);
    old_v
}

/// Trampoline addresses registered by runtimes, keyed by runtime id.
pub struct TrampolineTable {
    map: IdMap,
}

impl TrampolineTable {
    /// An empty table.
    pub fn new() -> (r: TrampolineTable)
        ensures
            r@ == Map::<u64, u64>::empty(),
    {
        TrampolineTable { map: id_map_new() }
    }

    /// Runtime id to trampoline address.
    pub closed spec fn view(&self) -> Map<u64, u64> {
        id_map_contents(self.map)
    }
}

/// Registers (or replaces) the trampoline of `runtime`.
pub fn register_trampoline(tt: &mut TrampolineTable, runtime: u64, f: u64)
    ensures
        final(tt)@ == old(tt)@.insert(runtime, f),
{
    id_map_insert(&mut tt.map, runtime, f);
}

/// The trampoline of `runtime`, if one was registered.
pub fn get_runtime_trampoline(tt: &TrampolineTable, runtime: u64) -> (r: Option<u64>)
    ensures
        r == tt@.get(runtime),
{
    id_map_get(&tt.map, runtime)
}

/// All state of the interposition layer.
pub struct Threei {
    pub handlers: HandlerTable,
    pub exiting: ExitingTable,
    pub runtimes: RuntimeTable,
    pub trampolines: TrampolineTable,
}

impl Threei {
    /// Empty tables and `MAX_CAGEID` unset runtime slots.
    pub fn new() -> (r: Threei)
        ensures
            r.handlers@ == TableView::empty(),
            r.exiting@ == Set::<u64>::empty(),
            r.runtimes@ == Seq::new(MAX_CAGEID as nat, |i: int| None::<u64>),
            r.trampolines@ == Map::<u64, u64>::empty(),
    {
        Threei {
            handlers: HandlerTable::new(),
            exiting: ExitingTable::new(),
            runtimes: RuntimeTable::new(),
            trampolines: TrampolineTable::new(),
        }
    }
}

/// Registers an interposition rule: syscall `targetcallnum` of cage
/// `targetcage` is handled by the function at `in_grate_fn_ptr_u64` in cage
/// `handlefunccage` (or deregistered, with `THREEI_DEREGISTER`). Returns
/// `ELINDESRCH` with nothing changed when either cage is exiting; otherwise
/// the table changes as `register_handler_impl` says and 0 is returned.
///
/// Like every 3i call, this one carries the caller's cage and the call's
/// target cage as its first two arguments. The target cage, `target_cageid`,
/// is the only thing that tells a runtime callback from an ordinary
/// interposition rule, so it chooses the key the handler is stored under:
/// `WASMTIME_CAGEID` stores it under that id, and any other value (such as
/// the 0 that plain registrations pass, having no particular target) stores
/// it under `targetcage`, the cage whose syscall is interposed.
pub fn register_handler(
    threei: &mut Threei,
    _self_cageid: u64,
    target_cageid: u64,
    targetcage: u64,
    targetcallnum: u64,
    _runtime_id: u64,
    handlefunccage: u64,
    in_grate_fn_ptr_u64: u64,
    _arg3cage: u64,
    _arg4: u64,
    _arg4cage: u64,
    _arg5: u64,
    _arg5cage: u64,
    _arg6: u64,
    _arg6cage: u64,
) -> (r: i32)
    ensures
        final(threei).exiting@ == old(threei).exiting@,
        final(threei).runtimes@ == old(threei).runtimes@,
        final(threei).trampolines@ == old(threei).trampolines@,
        old(threei).exiting@.contains(targetcage) || old(threei).exiting@.contains(handlefunccage)
            ==> r == esrch_i32() && final(threei).handlers@ == old(threei).handlers@,
        !(old(threei).exiting@.contains(targetcage) || old(threei).exiting@.contains(
            handlefunccage,
        )) ==> r == 0 && final(threei).handlers@ == spec_register(
            old(threei).handlers@,
            target_cageid,
            targetcage,
            targetcallnum,
            handlefunccage,
            in_grate_fn_ptr_u64,
        ),
{
    if threei.exiting.contains(targetcage) || threei.exiting.contains(handlefunccage) {
        return ELINDESRCH as i32;
    }
    threei.handlers.register_handler_impl(
        target_cageid,
        targetcage,
        targetcallnum,
        handlefunccage,
        in_grate_fn_ptr_u64,
    )
}

/// Copies the handler map of `srccage` to `targetcage` (see
/// `copy_handler_table_to_cage_impl`). Returns `ELINDESRCH` with nothing
/// changed when either cage is exiting.
pub fn copy_handler_table_to_cage(
    threei: &mut Threei,
    _thiscage: u64,
    _targetcage: u64,
    srccage: u64,
    targetcage: u64,
    _arg2: u64,
    _arg2cage: u64,
    _arg3: u64,
    _arg3cage: u64,
    _arg4: u64,
    _arg4cage: u64,
    _arg5: u64,
    _arg5cage: u64,
    _arg6: u64,
    _arg6cage: u64,
) -> (r: u64)
    ensures
        final(threei).exiting@ == old(threei).exiting@,
        final(threei).runtimes@ == old(threei).runtimes@,
        final(threei).trampolines@ == old(threei).trampolines@,
        old(threei).exiting@.contains(targetcage) || old(threei).exiting@.contains(srccage) ==> r
            == ELINDESRCH && final(threei).handlers@ == old(threei).handlers@,
        !(old(threei).exiting@.contains(targetcage) || old(threei).exiting@.contains(srccage))
            && !old(threei).handlers@.contains_key(srccage) ==> r == ELINDAPIABORTED && final(threei).handlers@ == old(threei).handlers@,
        !(old(threei).exiting@.contains(targetcage) || old(threei).exiting@.contains(srccage))
            && old(threei).handlers@.contains_key(srccage) ==> {
            &&& r == 0
            &&& final(threei).handlers@.dom() == old(threei).handlers@.dom().insert(targetcage)
            &&& forall|k: u64|
                k != targetcage && #[trigger] old(threei).handlers@.contains_key(k) ==> final(threei).handlers@[k] == old(threei).handlers@[k]
            &&& crate::handler_table::copied_call(
                old(threei).handlers@[srccage],
                final(threei).handlers@[targetcage],
                srccage,
                targetcage,
            )
        },
{
    if threei.exiting.contains(targetcage) || threei.exiting.contains(srccage) {
        return ELINDESRCH;
    }
    threei.handlers.copy_handler_table_to_cage_impl(srccage, targetcage)
}

/// Where a syscall goes, as decided from the interposition state.
pub enum SyscallRoute {
    /// The target cage is exiting: the call returns `ELINDESRCH`.
    Exiting,
    /// No handler is registered for the call: it returns `ELINDAPIABORTED`.
    NotFound,
    /// The handler is a RawPOSIX or Wasmtime function, called directly.
    Direct { fn_ptr: u64 },
    /// The handler lives in a grate, entered through the trampoline of the
    /// grate's runtime.
    Grate { grateid: u64, fn_ptr: u64, trampoline: u64 },
    /// The handling grate has no runtime (a fatal configuration error).
    NoRuntime { grateid: u64 },
    /// The grate's runtime has no trampoline (a fatal configuration error).
    NoTrampoline { grateid: u64, runtime: u64 },
}

/// The route a syscall takes given the interposition state, as specified.
pub open spec fn spec_route(
    handlers: TableView,
    exiting: Set<u64>,
    runtimes: Seq<Option<u64>>,
    trampolines: Map<u64, u64>,
    self_cageid: u64,
    syscall_num: u64,
    target_cageid: u64,
) -> SyscallRoute {
    if exiting.contains(target_cageid) && syscall_num != EXIT_SYSCALL {
        SyscallRoute::Exiting
    } else if !(handlers.contains_key(self_cageid) && handlers[self_cageid].contains_key(
        syscall_num,
    ) && handlers[self_cageid][syscall_num].contains_key(target_cageid)) {
        SyscallRoute::NotFound
    } else {
        let (grateid, fn_ptr) = handlers[self_cageid][syscall_num][target_cageid];
        if grateid == RAWPOSIX_CAGEID || grateid == WASMTIME_CAGEID {
            SyscallRoute::Direct { fn_ptr }
        } else if !(grateid < runtimes.len() && runtimes[grateid as int] is Some) {
            SyscallRoute::NoRuntime { grateid }
        } else {
            let runtime = runtimes[grateid as int]->Some_0;
            if !trampolines.contains_key(runtime) {
                SyscallRoute::NoTrampoline { grateid, runtime }
            } else {
                SyscallRoute::Grate { grateid, fn_ptr, trampoline: trampolines[runtime] }
            }
        }
    }
}

/// Decides where a syscall issued by `self_cageid` for `target_cageid`
/// goes: refused when the target is exiting (unless it is an exit),
/// unrouted when no handler matches the exact target, otherwise to the
/// registered handler.
pub fn route_syscall(threei: &Threei, self_cageid: u64, syscall_num: u64, target_cageid: u64) -> (r:
    SyscallRoute)
    ensures
        r == spec_route(
            threei.handlers@,
            threei.exiting@,
            threei.runtimes@,
            threei.trampolines@,
            self_cageid,
            syscall_num,
            target_cageid,
        ),
{
    if threei.exiting.contains(target_cageid) && syscall_num != EXIT_SYSCALL {
        return SyscallRoute::Exiting;
    }
    if !threei.handlers._check_cage_handler_exists(self_cageid) {
        return SyscallRoute::NotFound;
    }
    match threei.handlers.lookup_handler(self_cageid, syscall_num, target_cageid) {
        None => SyscallRoute::NotFound,
        Some((grateid, fn_ptr)) => {
            if grateid == RAWPOSIX_CAGEID || grateid == WASMTIME_CAGEID {
                return SyscallRoute::Direct { fn_ptr };
            }
            match get_cage_runtime(&threei.runtimes, grateid) {
                None => SyscallRoute::NoRuntime { grateid },
                Some(runtime) => match get_runtime_trampoline(&threei.trampolines, runtime) {
                    None => SyscallRoute::NoTrampoline { grateid, runtime },
                    Some(trampoline) => SyscallRoute::Grate { grateid, fn_ptr, trampoline },
                },
            }
        },
    }
}

/// The status a routed syscall returns without calling anything: an
/// exiting target gives `ELINDESRCH`, an unrouted call `ELINDAPIABORTED`;
/// for the other routes a handler is called and `None` is returned.
pub fn route_status(route: &SyscallRoute) -> (r: Option<i32>)
    ensures
        r == (match *route {
            SyscallRoute::Exiting => Some(ELINDESRCH as i32),
            SyscallRoute::NotFound => Some(ELINDAPIABORTED as i32),
            _ => None,
        }),
{
    match route {
        SyscallRoute::Exiting => Some(ELINDESRCH as i32),
        SyscallRoute::NotFound => Some(ELINDAPIABORTED as i32),
        _ => None,
    }
}

/// First step of a harsh exit of `targetcage`: marks it exiting and drops
/// every handler it owns. The exit syscall and the cleanup of
/// `harsh_cage_exit` follow.
pub fn trigger_harsh_cage_exit(threei: &mut Threei, targetcage: u64, _exittype: u64)
    ensures
        final(threei).exiting@ == old(threei).exiting@.insert(targetcage),
        final(threei).handlers@ == purge_table(old(threei).handlers@, targetcage),
        final(threei).runtimes@ == old(threei).runtimes@,
        final(threei).trampolines@ == old(threei).trampolines@,
{
    threei.exiting.insert(targetcage);
    threei.handlers._rm_grate_from_handler(targetcage);
}

/// Cleanup once `targetcage` has exited: its own handler map and every
/// handler it owns are gone, and it is no longer marked exiting. Returns 0.
pub fn harsh_cage_exit(
    threei: &mut Threei,
    _callnum: u64,
    targetcage: u64,
    _exittype: u64,
    _arg1cage: u64,
    _arg2: u64,
    _arg2cage: u64,
    _arg3: u64,
    _arg3cage: u64,
    _arg4: u64,
    _arg4cage: u64,
    _arg5: u64,
    _arg5cage: u64,
    _arg6: u64,
    _arg6cage: u64,
) -> (r: u64)
    ensures
        r == 0,
        final(threei).handlers@ == purge_table(old(threei).handlers@.remove(targetcage), targetcage),
        final(threei).exiting@ == old(threei).exiting@.remove(targetcage),
        final(threei).runtimes@ == old(threei).runtimes@,
        final(threei).trampolines@ == old(threei).trampolines@,
{
    threei.handlers._rm_cage_from_handler(targetcage);
    threei.handlers._rm_grate_from_handler(targetcage);
    threei.exiting.remove(targetcage);
    0
}

/// Registers the RawPOSIX implementation of every syscall in `table`
/// (pairs of syscall number and function address) for `self_cageid`.
/// Returns 0; neither the cage nor RawPOSIX may be exiting (a failed
/// registration is fatal).
pub fn register_rawposix_syscall(threei: &mut Threei, self_cageid: u64, table: &Vec<(u64, u64)>) -> (r:
    i32)
    requires
        !old(threei).exiting@.contains(self_cageid),
        !old(threei).exiting@.contains(RAWPOSIX_CAGEID),
    ensures
        r == 0,
        final(threei).exiting@ == old(threei).exiting@,
        final(threei).runtimes@ == old(threei).runtimes@,
        final(threei).trampolines@ == old(threei).trampolines@,
        final(threei).handlers@ == register_all(old(threei).handlers@, self_cageid, table@),
{
    let mut ret: i32 = 0;
    let ghost h0 = threei.handlers@;
    for i in 0..table.len()
        invariant
            ret == 0,
            threei.exiting@ == old(threei).exiting@,
            threei.runtimes@ == old(threei).runtimes@,
            threei.trampolines@ == old(threei).trampolines@,
            !threei.exiting@.contains(self_cageid),
            !threei.exiting@.contains(RAWPOSIX_CAGEID),
            h0 == old(threei).handlers@,
            threei.handlers@ == register_all(h0, self_cageid, table@.take(i as int)),
    {
        let (sysno, func) = table[i];
        ret = register_handler(
            threei,
            self_cageid,
            RAWPOSIX_CAGEID,
            self_cageid,
            sysno,
            crate::consts::RUNTIME_TYPE_WASMTIME,
            RAWPOSIX_CAGEID,
            func,
            0,
            0,
            0,
            0,
            0,
            0,
            0,
        );
        proof {
            assert(table@.take(i + 1).drop_last() =~= table@.take(i as int));
        }
    }
    proof {
        assert(table@.take(table@.len() as int) =~= table@);
    }
    ret
}

/// The table after registering each `(syscall, address)` pair of `entries`
/// in order as a RawPOSIX handler for `cage`.
pub open spec fn register_all(t: TableView, cage: u64, entries: Seq<(u64, u64)>) -> TableView
    decreases entries.len(),
{
    if entries.len() == 0 {
        t
    } else {
        let prev = register_all(t, cage, entries.drop_last());
        spec_register(
            prev,
            RAWPOSIX_CAGEID,
            cage,
            entries.last().0,
            RAWPOSIX_CAGEID,
            entries.last().1,
        )
    }
}

} // verus!
