//! Per-grate base addresses of the grate-worker stack arena.
//!
//! Each grate records the base of its stack arena once; a forked child
//! inherits the parent's base.
use vstd::prelude::*;

verus! {

/// Error: the grate already has a base.
pub const ERR_ALREADY_INITIALIZED: &'static str = "stack arena base already initialized for this grate";

/// Error: the storage does not reach the grate's slot.
pub const ERR_NOT_ALLOCATED: &'static str = "grate stack arena base storage not allocated for this grate";

/// Error: the grate has no base to clear.
pub const ERR_NOT_INITIALIZED: &'static str = "stack arena base not initialized for this grate";

/// Error: the parent of a fork has no base.
pub const ERR_PARENT_NOT_INITIALIZED: &'static str = "parent grate stack arena base not initialized";

/// Stack-arena bases indexed by grate id; `None` where not recorded.
pub struct StackArenaBases {
    bases: Vec<Option<u32>>,
}

/// The recorded base of grate `id` in `s`, `None` past the end.
pub open spec fn arena_get(s: Seq<Option<u32>>, id: int) -> Option<u32> {
    if 0 <= id < s.len() {
        s[id]
    } else {
        None
    }
}

/// A call that may change the recorded bases.
pub enum ArenaOp {
    /// `init_stack_arena_base(grate, base)`.
    Init(usize, u32),
    /// `unset_stack_arena_base(grate)`.
    Unset(usize),
    /// `fork_stack_arena_base_for_child(parent, child)`.
    Fork(usize, usize),
}

/// What `op` does to the recorded bases `s` (now `s2`), as seen through
/// `arena_get`, when it succeeds (`ok`); a failing call changes nothing.
pub open spec fn arena_step(s: Seq<Option<u32>>, s2: Seq<Option<u32>>, op: ArenaOp, ok: bool) -> bool {
    if !ok {
        s2 == s
    } else {
        forall|i: int|
            0 <= i ==> #[trigger] arena_get(s2, i) == match op {
                ArenaOp::Init(g, v) => if i == g { Some(v) } else { arena_get(s, i) },
                ArenaOp::Unset(g) => if i == g { None } else { arena_get(s, i) },
                ArenaOp::Fork(p, c) => if i == c { arena_get(s, p as int) } else { arena_get(s, i) },
            }
    }
}

impl StackArenaBases {
    /// Storage with no grate recorded.
    pub fn new() -> (r: StackArenaBases)
        ensures
            r@ == Seq::<Option<u32>>::empty(),
    {
        StackArenaBases { bases: Vec::new() }
    }

    /// The slots of the storage.
    pub closed spec fn view(&self) -> Seq<Option<u32>> {
        self.bases@
    }
}

/// Records `val` as the base of `grate_id`, growing the storage as needed.
/// Fails, changing nothing, when the grate already has a base: a recorded
/// base is never overwritten. (Growing the storage to reach the slot
/// `usize::MAX` is impossible, so that id must already have a slot.)
pub fn init_stack_arena_base(arena: &mut StackArenaBases, grate_id: usize, val: u32) -> (r: Result<
    (),
    &'static str,
>)
    requires
        grate_id < usize::MAX || grate_id < old(arena)@.len(),
    ensures
        arena_step(old(arena)@, final(arena)@, ArenaOp::Init(grate_id, val), r is Ok),
        arena_get(old(arena)@, grate_id as int) is Some ==> r == Err::<(), &'static str>(
            ERR_ALREADY_INITIALIZED,
        ) && final(arena)@ == old(arena)@,
        arena_get(old(arena)@, grate_id as int) is None ==> {
            &&& r == Ok::<(), &'static str>(())
            &&& final(arena)@.len() == (if old(arena)@.len() > grate_id {
                old(arena)@.len() as int
            } else {
                grate_id + 1
            })
            &&& forall|i: int|
                0 <= i ==> #[trigger] arena_get(final(arena)@, i) == (if i == grate_id {
                    Some(val)
                } else {
                    arena_get(old(arena)@, i)
                })
        },
{
    if arena.bases.len() > grate_id && arena.bases[grate_id].is_some() {
        return Err(ERR_ALREADY_INITIALIZED);
    }
    while arena.bases.len() <= grate_id
        invariant
            grate_id < usize::MAX || grate_id < arena.bases@.len(),
            old(arena)@.len() <= arena.bases@.len(),
            arena.bases@.len() > old(arena)@.len() ==> arena.bases@.len() <= grate_id + 1,
            forall|i: int| 0 <= i < old(arena)@.len() ==> arena.bases@[i] == old(arena)@[i],
            forall|i: int| old(arena)@.len() <= i < arena.bases@.len() ==> arena.bases@[i] is None,
        decreases grate_id + 1 - arena.bases@.len(),

    {
        arena.bases.push(None);
    }
    arena.bases.set(grate_id, Some(val));
    Ok(())
}

/// The recorded base of `grate_id`, if any.
pub fn get_stack_arena_base(arena: &StackArenaBases, grate_id: usize) -> (r: Option<u32>)
    ensures
        r == arena_get(arena@, grate_id as int),
{
    if grate_id < arena.bases.len() {
        arena.bases[grate_id]
    } else {
        None
    }
}

/// Clears the base of `grate_id`. Fails, changing nothing, when the slot
/// does not exist or holds no base.
pub fn unset_stack_arena_base(arena: &mut StackArenaBases, grate_id: usize) -> (r: Result<
    (),
    &'static str,
>)
    ensures
        arena_step(old(arena)@, final(arena)@, ArenaOp::Unset(grate_id), r is Ok),
        grate_id >= old(arena)@.len() ==> r == Err::<(), &'static str>(ERR_NOT_ALLOCATED)
            && final(arena)@ == old(arena)@,
        grate_id < old(arena)@.len() && old(arena)@[grate_id as int] is None ==> r == Err::<
            (),
            &'static str,
        >(ERR_NOT_INITIALIZED) && final(arena)@ == old(arena)@,
        grate_id < old(arena)@.len() && old(arena)@[grate_id as int] is Some ==> r == Ok::<
            (),
            &'static str,
        >(()) && final(arena)@ == old(arena)@.update(grate_id as int, None),
{
    if grate_id >= arena.bases.len() {
        return Err(ERR_NOT_ALLOCATED);
    }
    if arena.bases[grate_id].is_none() {
        return Err(ERR_NOT_INITIALIZED);
    }
    arena.bases.set(grate_id, None);
    Ok(())
}

/// Gives `child_grate_id` the base of `parent_grate_id` on fork. Fails,
/// changing nothing, when the parent has no base or the child has one.
pub fn fork_stack_arena_base_for_child(
    arena: &mut StackArenaBases,
    parent_grate_id: usize,
    child_grate_id: usize,
) -> (r: Result<(), &'static str>)
    requires
        child_grate_id < usize::MAX || child_grate_id < old(arena)@.len(),
    ensures
        arena_step(
            old(arena)@,
            final(arena)@,
            ArenaOp::Fork(parent_grate_id, child_grate_id),
            r is Ok,
        ),
        arena_get(old(arena)@, parent_grate_id as int) is None ==> r == Err::<(), &'static str>(
            ERR_PARENT_NOT_INITIALIZED,
        ) && final(arena)@ == old(arena)@,
        arena_get(old(arena)@, parent_grate_id as int) is Some && arena_get(
            old(arena)@,
            child_grate_id as int,
        ) is Some ==> r == Err::<(), &'static str>(ERR_ALREADY_INITIALIZED) && final(arena)@
            == old(arena)@,
        arena_get(old(arena)@, parent_grate_id as int) is Some && arena_get(
            old(arena)@,
            child_grate_id as int,
        ) is None ==> {
            &&& r == Ok::<(), &'static str>(())
            &&& forall|i: int|
                0 <= i ==> #[trigger] arena_get(final(arena)@, i) == (if i == child_grate_id {
                    arena_get(old(arena)@, parent_grate_id as int)
                } else {
                    arena_get(old(arena)@, i)
                })
        },
{
    let parent_base = match get_stack_arena_base(arena, parent_grate_id) {
        Some(b) => b,
        None => {
            return Err(ERR_PARENT_NOT_INITIALIZED);
        },
    };
    init_stack_arena_base(arena, child_grate_id, parent_base)
}

/// The base of grate `g` after the calls `ops` (with outcomes `oks`) on
/// the bases `s0`: the base set by the last successful call that changed
/// `g` (an init of `g`, or a fork into `g` copying its parent's base at
/// that moment), `None` when that call was an unset, and the base in `s0`
/// when no successful call changed `g`.
pub open spec fn arena_trace_get(s0: Seq<Option<u32>>, ops: Seq<ArenaOp>, oks: Seq<bool>, g: int) -> Option<u32>
    decreases ops.len(),
{
    if ops.len() == 0 || oks.len() != ops.len() {
        arena_get(s0, g)
    } else {
        let n = ops.len() - 1;
        let before = ops.drop_last();
        let ok_before = oks.drop_last();
        if !oks[n] {
            arena_trace_get(s0, before, ok_before, g)
        } else {
            match ops[n] {
                ArenaOp::Init(h, v) => if h == g { Some(v) } else { arena_trace_get(s0, before, ok_before, g) },
                ArenaOp::Unset(h) => if h == g { None } else { arena_trace_get(s0, before, ok_before, g) },
                ArenaOp::Fork(p, c) => if c == g {
                    arena_trace_get(s0, before, ok_before, p as int)
                } else {
                    arena_trace_get(s0, before, ok_before, g)
                },
            }
        }
    }
}

} // verus!
