//! The interposition handler table.
//!
//! `table[self_cageid][callnum][target_cageid] = (handler_cageid, handler_addr)`
//!
//! The innermost key is the target cage a syscall is routed for; the value
//! records which cage owns the handler and the address to dispatch to.
use crate::consts::{ELINDAPIABORTED, THREEI_DEREGISTER, WASMTIME_CAGEID};
use crate::maputil::{keys_of, lemma_take_step};
use std::collections::HashMap;
use vstd::prelude::*;

verus! {

broadcast use vstd::std_specs::hash::group_hash_axioms;

/// Handlers of one syscall, keyed by lookup target.
pub type TargetView = Map<u64, (u64, u64)>;

/// Handlers of one cage, keyed by syscall number.
pub type CallView = Map<u64, TargetView>;

/// The whole table, keyed by the cage whose syscalls are interposed.
pub type TableView = Map<u64, CallView>;

/// The nested handler table of the interposition layer.
pub struct HandlerTable {
    table: HashMap<u64, HashMap<u64, HashMap<u64, (u64, u64)>>>,
}

/// The abstract value of one cage's handler map.
pub open spec fn call_view(cm: HashMap<u64, HashMap<u64, (u64, u64)>>) -> CallView {
    cm@.map_values(|t: HashMap<u64, (u64, u64)>| t@)
}

impl View for HandlerTable {
    type V = TableView;

    closed spec fn view(&self) -> TableView {
        self.table@.map_values(|cm: HashMap<u64, HashMap<u64, (u64, u64)>>| call_view(cm))
    }
}

/// The key under which a registration is stored: runtime callbacks that
/// target Wasmtime are stored under that id, everything else under the
/// registering cage.
pub open spec fn lookup_key(target_cageid: u64, srccage: u64) -> u64 {
    if target_cageid == WASMTIME_CAGEID {
        target_cageid
    } else {
        srccage
    }
}

/// The table after a registration request (see `register_handler_impl`).
pub open spec fn spec_register(
    t: TableView,
    target_cageid: u64,
    srccage: u64,
    callnum: u64,
    handlefunccage: u64,
    addr: u64,
) -> TableView {
    if handlefunccage == THREEI_DEREGISTER {
        if t.contains_key(srccage) {
            let cm = t[srccage].remove(callnum);
            if cm.is_empty() {
                t.remove(srccage)
            } else {
                t.insert(srccage, cm)
            }
        } else {
            t
        }
    } else {
        let cm = if t.contains_key(srccage) {
            t[srccage]
        } else {
            Map::empty()
        };
        let tm = if cm.contains_key(callnum) {
            cm[callnum]
        } else {
            Map::empty()
        };
        t.insert(
            srccage,
            cm.insert(callnum, tm.insert(lookup_key(target_cageid, srccage), (handlefunccage, addr))),
        )
    }
}

/// A target map with every handler owned by `grateid` removed.
pub open spec fn purge_target(t: TargetView, grateid: u64) -> TargetView {
    t.filter_keys(|k: u64| t[k].0 != grateid)
}

/// A cage's handler map with every handler owned by `grateid` removed.
pub open spec fn purge_call(c: CallView, grateid: u64) -> CallView {
    c.map_values(|t: TargetView| purge_target(t, grateid))
}

/// The table with every handler owned by `grateid` removed.
pub open spec fn purge_table(t: TableView, grateid: u64) -> TableView {
    t.map_values(|c: CallView| purge_call(c, grateid))
}

/// A target key as copied from cage `s` to cage `d`: self-targeted
/// entries follow the copied cage.
pub open spec fn remap(k: u64, s: u64, d: u64) -> u64 {
    if k == s {
        d
    } else {
        k
    }
}

/// `b` is the copy of target map `a` from cage `s` to cage `d`. Where `a`
/// holds both `s` and `d`, both land on `d` and either value may be kept.
pub open spec fn copied_target(a: TargetView, b: TargetView, s: u64, d: u64) -> bool {
    &&& forall|k: u64|
        k != s && k != d ==> (#[trigger] b.contains_key(k) <==> a.contains_key(k))
    &&& forall|k: u64| k != s && k != d && a.contains_key(k) ==> #[trigger] b[k] == a[k]
    &&& b.contains_key(d) <==> (a.contains_key(s) || a.contains_key(d))
    &&& b.contains_key(d) ==> ((a.contains_key(s) && b[d] == a[s]) || (a.contains_key(d) && b[d]
        == a[d]))
    &&& s != d ==> !b.contains_key(s)
}

/// `dst` is the copy of cage handler map `src` from cage `s` to cage `d`.
pub open spec fn copied_call(src: CallView, dst: CallView, s: u64, d: u64) -> bool {
    &&& dst.dom() == src.dom()
    &&& forall|n: u64| #[trigger] src.contains_key(n) ==> copied_target(src[n], dst[n], s, d)
}

impl HandlerTable {
    /// An empty table.
    pub fn new() -> (r: HandlerTable)
        ensures
            r@ == TableView::empty(),
    {
        let r = HandlerTable { table: HashMap::new() };
        proof {
            assert(r@ =~= TableView::empty());
        }
        r
    }

    /// Whether `cageid` has any entry in the table.
    pub fn _check_cage_handler_exists(&self, cageid: u64) -> (r: bool)
        ensures
            r == self@.contains_key(cageid),
    {
        self.table.contains_key(&cageid)
    }

    /// The handler registered for `(self_cageid, syscall_num, target_cageid)`,
    /// or `None` when no entry for that target exists. The cage and the
    /// syscall must have entries (the lookup treats their absence as a bug).
    pub fn _get_handler(&self, self_cageid: u64, syscall_num: u64, target_cageid: u64) -> (r:
        Option<(u64, u64)>)
        requires
            self@.contains_key(self_cageid),
            self@[self_cageid].contains_key(syscall_num),
        ensures
            r == self@[self_cageid][syscall_num].get(target_cageid),
    {
        self.lookup_handler(self_cageid, syscall_num, target_cageid)
    }

    /// Total lookup: the handler for the triple, `None` where any level of
    /// the table lacks the key.
    pub fn lookup_handler(&self, self_cageid: u64, syscall_num: u64, target_cageid: u64) -> (r:
        Option<(u64, u64)>)
        ensures
            r == (if self@.contains_key(self_cageid) && self@[self_cageid].contains_key(
                syscall_num,
            ) {
                self@[self_cageid][syscall_num].get(target_cageid)
            } else {
                None
            }),
    {
        match self.table.get(&self_cageid) {
            None => None,
            Some(cm) => match cm.get(&syscall_num) {
                None => None,
                Some(tm) => match tm.get(&target_cageid) {
                    None => None,
                    Some(v) => Some(*v),
                },
            },
        }
    }

    /// The handlers registered for `(cage, callnum)`, one per lookup target.
    pub fn mappings_for(&self, cage: u64, callnum: u64) -> (r: Vec<(u64, u64)>)
        ensures
            self@.contains_key(cage) && self@[cage].contains_key(callnum) ==> {
                &&& r@.len() == self@[cage][callnum].dom().len()
                &&& forall|v: (u64, u64)| #[trigger]
                    r@.contains(v) <==> self@[cage][callnum].values().contains(v)
            },
            !(self@.contains_key(cage) && self@[cage].contains_key(callnum)) ==> r@.len() == 0,
    {
        let mut out: Vec<(u64, u64)> = Vec::new();
        match self.table.get(&cage) {
            None => {},
            Some(cm) => match cm.get(&callnum) {
                None => {},
                Some(tm) => {
                    let ks = keys_of(tm);
                    proof {
                        ks@.unique_seq_to_set();
                        assert(ks@.to_set() =~= tm@.dom());
                    }
                    let mut i: usize = 0;
                    while i < ks.len()
                        invariant
                            i <= ks@.len(),
                            out@.len() == i,
                            forall|j: int|
                                0 <= j < out@.len() ==> tm@.values().contains(#[trigger] out@[j]),
                            forall|j: int| 0 <= j < out@.len() ==> #[trigger] out@[j] == tm@[ks@[j]],
                            forall|k: u64| #[trigger] ks@.contains(k) <==> tm@.contains_key(k),
                        decreases ks@.len() - i,
                    {
                        let k = ks[i];
                        assert(ks@.contains(k));
                        let v = *tm.get(&k).unwrap();
                        assert(tm@.contains_key(k) && v == tm@[k]);
                        let ghost before = out@;
                        out.push(v);
                        assert forall|j: int| 0 <= j < out@.len() implies #[trigger] out@[j] == tm@[ks@[j]] by {
                            if j < before.len() {
                                assert(out@[j] == before[j]);
                            }
                        }
                        i = i + 1;
                    }
                    proof {
                        assert(self@[cage][callnum] == tm@);
                        assert forall|v: (u64, u64)| #[trigger]
                            out@.contains(v) <==> tm@.values().contains(v) by {
                            if out@.contains(v) {
                                let j = choose|j: int| 0 <= j < out@.len() && out@[j] == v;
                                assert(tm@.values().contains(out@[j]));
                            }
                            if tm@.values().contains(v) {
                                let k = choose|k: u64| tm@.contains_key(k) && tm@[k] == v;
                                assert(ks@.contains(k));
                                let j = choose|j: int| 0 <= j < ks@.len() && ks@[j] == k;
                                assert(out@[j] == v);
                            }
                        }
                    }
                },
            },
        }
        out
    }

    /// Removes every entry of `cageid`.
    pub fn _rm_cage_from_handler(&mut self, cageid: u64)
        ensures
            final(self)@ == old(self)@.remove(cageid),
    {
        self.table.remove(&cageid);
        proof {
            assert(final(self)@ =~= old(self)@.remove(cageid));
        }
    }

    /// Registers, overwrites or removes handlers.
    ///
    /// With `handlefunccage == THREEI_DEREGISTER` the whole entry of
    /// `(srccage, targetcallnum)` is removed, and the cage's entry too when
    /// nothing remains under it. Otherwise the handler is stored under
    /// `(srccage, targetcallnum, lookup_key(target_cageid, srccage))`,
    /// replacing any handler stored under that exact key. Always returns 0.
    pub fn register_handler_impl(
        &mut self,
        target_cageid: u64,
        srccage: u64,
        targetcallnum: u64,
        handlefunccage: u64,
        in_grate_fn_ptr_u64: u64,
    ) -> (r: i32)
        ensures
            r == 0,
            final(self)@ == spec_register(
                old(self)@,
                target_cageid,
                srccage,
                targetcallnum,
                handlefunccage,
                in_grate_fn_ptr_u64,
            ),
    {
        let ghost t = old(self)@;
        if handlefunccage == THREEI_DEREGISTER {
            match self.table.remove(&srccage) {
                None => {
                    proof {
                        assert(self.table@ == old(self).table@);
                    }
                },
                Some(cm) => {
                    let mut cm = cm;
                    cm.remove(&targetcallnum);
                    if cm.is_empty() {
                        proof {
                            assert(call_view(cm).is_empty());
                            assert(self@ =~= t.remove(srccage));
                        }
                    } else {
                        self.table.insert(srccage, cm);
                        proof {
                            assert(call_view(cm) =~= t[srccage].remove(targetcallnum));
                            assert(self@ =~= t.insert(srccage, t[srccage].remove(targetcallnum)));
                        }
                    }
                },
            }
            return 0;
        }
        let mut cm = match self.table.remove(&srccage) {
            Some(cm) => cm,
            None => HashMap::new(),
        };
        let ghost cm0 = call_view(cm);
        proof {
            assert(cm0 =~= (if t.contains_key(srccage) {
                t[srccage]
            } else {
                Map::empty()
            }));
        }
        let mut tm = match cm.remove(&targetcallnum) {
            Some(tm) => tm,
            None => HashMap::new(),
        };
        let ghost tm0 = tm@;
        proof {
            assert(tm0 =~= (if cm0.contains_key(targetcallnum) {
                cm0[targetcallnum]
            } else {
                Map::empty()
            }));
        }
        let lookup_target = if target_cageid == WASMTIME_CAGEID {
            target_cageid
        } else {
            srccage
        };
        tm.insert(lookup_target, (handlefunccage, in_grate_fn_ptr_u64));
        cm.insert(targetcallnum, tm);
        proof {
            assert(call_view(cm) =~= cm0.insert(
                targetcallnum,
                tm0.insert(lookup_target, (handlefunccage, in_grate_fn_ptr_u64)),
            ));
        }
        self.table.insert(srccage, cm);
        proof {
            assert(self@ =~= spec_register(
                t,
                target_cageid,
                srccage,
                targetcallnum,
                handlefunccage,
                in_grate_fn_ptr_u64,
            ));
        }
        0
    }

    /// Removes, across all cages and syscalls, every handler owned by
    /// `grateid`. Emptied maps stay in place.
    pub fn _rm_grate_from_handler(&mut self, grateid: u64)
        ensures
            final(self)@ == purge_table(old(self)@, grateid),
    {
        let ghost t = old(self)@;
        let cages = keys_of(&self.table);
        for i in 0..cages.len()
            invariant
                forall|k: u64| #[trigger] cages@.contains(k) <==> t.contains_key(k),
                cages@.no_duplicates(),
                self@.dom() == t.dom(),
                forall|k: u64|
                    #![trigger self@[k]]
                    t.contains_key(k) ==> self@[k] == (if cages@.take(i as int).contains(k) {
                        purge_call(t[k], grateid)
                    } else {
                        t[k]
                    }),
        {
            let c = cages[i];
            assert(cages@.contains(c));
            let ghost before = self@;
            let cm = self.table.remove(&c).unwrap();
            let ghost c0 = call_view(cm);
            let ncm = purge_call_map(&cm, grateid);
            self.table.insert(c, ncm);
            proof {
                lemma_take_step(cages@, i as int);
                assert(c0 == before[c]);
                assert(self@[c] == purge_call(t[c], grateid));
                assert forall|k: u64| k != c && #[trigger] before.contains_key(k) implies self@[k]
                    == before[k] by {}
                assert(self@.dom() =~= t.dom());
            }
        }
        proof {
            assert(cages@.take(cages@.len() as int) =~= cages@);
            assert(self@ =~= purge_table(t, grateid));
        }
    }

    /// Copies the handler map of `srccage` to `targetcage`, replacing the
    /// target's whole map; entries targeted at `srccage` follow the copy to
    /// `targetcage`. Returns 0, or `ELINDAPIABORTED` with the table
    /// unchanged when `srccage` has no map.
    pub fn copy_handler_table_to_cage_impl(&mut self, srccage: u64, targetcage: u64) -> (r: u64)
        ensures
            !old(self)@.contains_key(srccage) ==> r == ELINDAPIABORTED && final(self)@ == old(
                self,
            )@,
            old(self)@.contains_key(srccage) ==> {
                &&& r == 0
                &&& final(self)@.dom() == old(self)@.dom().insert(targetcage)
                &&& forall|k: u64|
                    k != targetcage && #[trigger] old(self)@.contains_key(k) ==> final(self)@[k]
                        == old(self)@[k]
                &&& copied_call(old(self)@[srccage], final(self)@[targetcage], srccage, targetcage)
            },
    {
        let ghost t = old(self)@;
        let ncm = match self.table.get(&srccage) {
            None => {
                return ELINDAPIABORTED;
            },
            Some(src) => copy_call_map(src, srccage, targetcage),
        };
        self.table.insert(targetcage, ncm);
        proof {
            assert(self@.dom() =~= t.dom().insert(targetcage));
        }
        0
    }
}

/// Copies `tm` without the handlers owned by `grateid`.
fn purge_target_map(tm: &HashMap<u64, (u64, u64)>, grateid: u64) -> (r: HashMap<u64, (u64, u64)>)
    ensures
        r@ == purge_target(tm@, grateid),
{
    let ks = keys_of(tm);
    let mut out: HashMap<u64, (u64, u64)> = HashMap::new();
    for i in 0..ks.len()
        invariant
            forall|k: u64| #[trigger] ks@.contains(k) <==> tm@.contains_key(k),
            forall|k: u64|
                #[trigger] out@.contains_key(k) <==> (ks@.take(i as int).contains(k)
                    && tm@[k].0 != grateid),
            forall|k: u64| #[trigger] out@.contains_key(k) ==> out@[k] == tm@[k],
    {
        let k = ks[i];
        assert(ks@.contains(k));
        let v = *tm.get(&k).unwrap();
        if v.0 != grateid {
            out.insert(k, v);
        }
        proof {
            lemma_take_step(ks@, i as int);
        }
    }
    proof {
        assert(ks@.take(ks@.len() as int) =~= ks@);
        assert(out@ =~= purge_target(tm@, grateid));
    }
    out
}

/// Copies a cage handler map without the handlers owned by `grateid`.
fn purge_call_map(cm: &HashMap<u64, HashMap<u64, (u64, u64)>>, grateid: u64) -> (r: HashMap<
    u64,
    HashMap<u64, (u64, u64)>,
>)
    ensures
        call_view(r) == purge_call(call_view(*cm), grateid),
{
    let ks = keys_of(cm);
    let mut out: HashMap<u64, HashMap<u64, (u64, u64)>> = HashMap::new();
    for i in 0..ks.len()
        invariant
            forall|k: u64| #[trigger] ks@.contains(k) <==> cm@.contains_key(k),
            forall|k: u64| #[trigger] out@.contains_key(k) <==> ks@.take(i as int).contains(k),
            forall|k: u64|
                #[trigger] out@.contains_key(k) ==> out@[k]@ == purge_target(cm@[k]@, grateid),
    {
        let k = ks[i];
        assert(ks@.contains(k));
        let tm = cm.get(&k).unwrap();
        let ntm = purge_target_map(tm, grateid);
        out.insert(k, ntm);
        proof {
            lemma_take_step(ks@, i as int);
        }
    }
    proof {
        assert(ks@.take(ks@.len() as int) =~= ks@);
        assert(call_view(out) =~= purge_call(call_view(*cm), grateid));
    }
    out
}

/// Copies target map `tm` from cage `s` to cage `d`: the entry under `s`
/// moves to `d`; on a clash the entry met first in iteration order stays.
fn copy_target_map(tm: &HashMap<u64, (u64, u64)>, s: u64, d: u64) -> (r: HashMap<u64, (u64, u64)>)
    ensures
        copied_target(tm@, r@, s, d),
{
    let ks = keys_of(tm);
    let mut out: HashMap<u64, (u64, u64)> = HashMap::new();
    for i in 0..ks.len()
        invariant
            forall|k: u64| #[trigger] ks@.contains(k) <==> tm@.contains_key(k),
            forall|k: u64|
                k != s && k != d ==> (#[trigger] out@.contains_key(k) <==> ks@.take(
                    i as int,
                ).contains(k)),
            forall|k: u64| k != s && k != d && #[trigger] out@.contains_key(k) ==> out@[k] == tm@[k],
            out@.contains_key(d) <==> (ks@.take(i as int).contains(s) || ks@.take(i as int).contains(
                d,
            )),
            out@.contains_key(d) ==> ((tm@.contains_key(s) && out@[d] == tm@[s]) || (
            tm@.contains_key(d) && out@[d] == tm@[d])),
            s != d ==> !out@.contains_key(s),
    {
        let k = ks[i];
        assert(ks@.contains(k));
        let v = *tm.get(&k).unwrap();
        let k2 = if k == s {
            d
        } else {
            k
        };
        if !out.contains_key(&k2) {
            out.insert(k2, v);
        }
        proof {
            lemma_take_step(ks@, i as int);
        }
    }
    proof {
        assert(ks@.take(ks@.len() as int) =~= ks@);
        assert(ks@.contains(s) <==> tm@.contains_key(s));
        assert(ks@.contains(d) <==> tm@.contains_key(d));
        assert forall|k: u64| k != s && k != d implies (#[trigger] out@.contains_key(k)
            <==> tm@.contains_key(k)) by {
            assert(ks@.contains(k) <==> tm@.contains_key(k));
        }
        assert forall|k: u64| k != s && k != d && tm@.contains_key(k) implies #[trigger] out@[k]
            == tm@[k] by {
            assert(ks@.contains(k));
            assert(out@.contains_key(k));
        }
    }
    out
}

/// Copies cage handler map `cm` from cage `s` to cage `d`.
fn copy_call_map(cm: &HashMap<u64, HashMap<u64, (u64, u64)>>, s: u64, d: u64) -> (r: HashMap<
    u64,
    HashMap<u64, (u64, u64)>,
>)
    ensures
        copied_call(call_view(*cm), call_view(r), s, d),
{
    let ks = keys_of(cm);
    let mut out: HashMap<u64, HashMap<u64, (u64, u64)>> = HashMap::new();
    for i in 0..ks.len()
        invariant
            forall|k: u64| #[trigger] ks@.contains(k) <==> cm@.contains_key(k),
            forall|k: u64| #[trigger] out@.contains_key(k) <==> ks@.take(i as int).contains(k),
            forall|k: u64|
                #[trigger] out@.contains_key(k) ==> copied_target(cm@[k]@, out@[k]@, s, d),
    {
        let k = ks[i];
        assert(ks@.contains(k));
        let tm = cm.get(&k).unwrap();
        let ntm = copy_target_map(tm, s, d);
        out.insert(k, ntm);
        proof {
            lemma_take_step(ks@, i as int);
        }
    }
    proof {
        assert(ks@.take(ks@.len() as int) =~= ks@);
        assert(call_view(out).dom() =~= call_view(*cm).dom());
    }
    out
}

/// One handler of the table: cage, syscall, lookup target, handler cage
/// and handler address.
pub type HandlerEntry = (u64, u64, u64, u64, u64);

/// Whether the table holds entry `e`.
pub open spec fn has_entry(t: TableView, e: HandlerEntry) -> bool {
    &&& t.contains_key(e.0)
    &&& t[e.0].contains_key(e.1)
    &&& t[e.0][e.1].contains_key(e.2)
    &&& t[e.0][e.1][e.2] == (e.3, e.4)
}

/// Appends the handlers of `(c, n)` held in `tm`.
fn collect_targets(out: &mut Vec<HandlerEntry>, c: u64, n: u64, tm: &HashMap<u64, (u64, u64)>)
    ensures
        forall|e: HandlerEntry| #[trigger]
            final(out)@.contains(e) <==> (old(out)@.contains(e) || (e.0 == c && e.1 == n
                && tm@.contains_key(e.2) && tm@[e.2] == (e.3, e.4))),
{
    let ks = keys_of(tm);
    let ghost start = out@;
    let mut i: usize = 0;
    while i < ks.len()
        invariant
            i <= ks@.len(),
            forall|k: u64| #[trigger] ks@.contains(k) <==> tm@.contains_key(k),
            forall|e: HandlerEntry| #[trigger]
                out@.contains(e) <==> (start.contains(e) || (e.0 == c && e.1 == n
                    && ks@.take(i as int).contains(e.2) && tm@[e.2] == (e.3, e.4))),
        decreases ks@.len() - i,
    {
        let k = ks[i];
        assert(ks@.contains(k));
        let v = *tm.get(&k).unwrap();
        let ghost before = out@;
        out.push((c, n, k, v.0, v.1));
        proof {
            lemma_take_step(ks@, i as int);
            assert forall|e: HandlerEntry| #[trigger]
                out@.contains(e) <==> (start.contains(e) || (e.0 == c && e.1 == n
                    && ks@.take(i + 1).contains(e.2) && tm@[e.2] == (e.3, e.4))) by {
                if out@.contains(e) && !before.contains(e) {
                    let j = choose|j: int| 0 <= j < out@.len() && out@[j] == e;
                    if j < before.len() {
                        assert(before[j] == e);
                    }
                }
                if before.contains(e) {
                    let j = choose|j: int| 0 <= j < before.len() && before[j] == e;
                    assert(out@[j] == e);
                }
                if e == (c, n, k, v.0, v.1) {
                    assert(out@[before.len() as int] == e);
                }
            }
        }
        i = i + 1;
    }
    proof {
        assert(ks@.take(ks@.len() as int) =~= ks@);
    }
}

/// Appends the handlers of cage `c` held in `cm`.
fn collect_calls(out: &mut Vec<HandlerEntry>, c: u64, cm: &HashMap<u64, HashMap<u64, (u64, u64)>>)
    ensures
        forall|e: HandlerEntry| #[trigger]
            final(out)@.contains(e) <==> (old(out)@.contains(e) || (e.0 == c && call_view(*cm).contains_key(e.1)
                && call_view(*cm)[e.1].contains_key(e.2) && call_view(*cm)[e.1][e.2] == (e.3, e.4))),
{
    let ks = keys_of(cm);
    let ghost start = out@;
    let ghost cv = call_view(*cm);
    let mut i: usize = 0;
    while i < ks.len()
        invariant
            i <= ks@.len(),
            cv == call_view(*cm),
            forall|k: u64| #[trigger] ks@.contains(k) <==> cm@.contains_key(k),
            forall|e: HandlerEntry| #[trigger]
                out@.contains(e) <==> (start.contains(e) || (e.0 == c && ks@.take(i as int).contains(e.1)
                    && cv[e.1].contains_key(e.2) && cv[e.1][e.2] == (e.3, e.4))),
        decreases ks@.len() - i,
    {
        let n = ks[i];
        assert(ks@.contains(n));
        let tm = cm.get(&n).unwrap();
        assert(cv[n] == tm@);
        collect_targets(out, c, n, tm);
        proof {
            lemma_take_step(ks@, i as int);
        }
        i = i + 1;
    }
    proof {
        assert(ks@.take(ks@.len() as int) =~= ks@);
        assert forall|e: HandlerEntry| #[trigger] out@.contains(e) <==> (start.contains(e) || (e.0 == c
            && cv.contains_key(e.1) && cv[e.1].contains_key(e.2) && cv[e.1][e.2] == (e.3, e.4))) by {
            assert(ks@.contains(e.1) <==> cv.contains_key(e.1));
        }
    }
}

/// Every handler of the table, one entry each, as the table dump lists
/// them.
pub fn print_handler_table(table: &HandlerTable) -> (r: Vec<HandlerEntry>)
    ensures
        forall|e: HandlerEntry| #[trigger] r@.contains(e) <==> has_entry(table@, e),
{
    let mut out: Vec<HandlerEntry> = Vec::new();
    let ks = keys_of(&table.table);
    let mut i: usize = 0;
    while i < ks.len()
        invariant
            i <= ks@.len(),
            forall|k: u64| #[trigger] ks@.contains(k) <==> table.table@.contains_key(k),
            forall|e: HandlerEntry| #[trigger]
                out@.contains(e) <==> (ks@.take(i as int).contains(e.0) && has_entry(table@, e)),
        decreases ks@.len() - i,
    {
        let c = ks[i];
        assert(ks@.contains(c));
        let cm = table.table.get(&c).unwrap();
        assert(table@[c] == call_view(*cm));
        collect_calls(&mut out, c, cm);
        proof {
            lemma_take_step(ks@, i as int);
        }
        i = i + 1;
    }
    proof {
        assert(ks@.take(ks@.len() as int) =~= ks@);
        assert forall|e: HandlerEntry| #[trigger] out@.contains(e) <==> has_entry(table@, e) by {
            assert(ks@.contains(e.0) <==> table@.contains_key(e.0));
        }
    }
    out
}

} // verus!
