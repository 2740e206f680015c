//! Process-shared semaphores kept in one table for all cages.
//!
//! A semaphore is named by the shared region it lives in and its offset
//! there, both taken from the calling cage's memory map, so cages that map
//! the same region at different addresses agree on its name. Its state
//! lives here, not in guest memory. Waiting is written as steps: a step
//! either completes or asks the caller to block until a post.
use crate::concurrent::{key_map_contents, key_map_get, key_map_insert, key_map_new, key_map_remove, KeyMap};
use crate::consts::{neg, EAGAIN, EFAULT, EINVAL, EOVERFLOW, ESRCH};
use vstd::prelude::*;

verus! {

/// POSIX `SEM_VALUE_MAX`.
pub const SEM_VALUE_MAX: u32 = 0x7FFF_FFFF;
/// Wait flavors: block, try once, block with a deadline.
pub const SEM_WAIT_BLOCK: u32 = 0;
pub const SEM_WAIT_TRY: u32 = 1;
pub const SEM_WAIT_TIMED: u32 = 2;
/// Marks System V segment ids among region ids.
pub const SHM_REGION_TAG: u64 = 0x8000_0000_0000_0000;
/// Bytes per page, as a shift.
pub const PAGESHIFT: u32 = 12;
/// Bytes per page.
pub const PAGE_BYTES: u64 = 4096;

/// The name of a process-shared semaphore: its region and offset there.
#[derive(Clone, Copy, PartialEq, Eq, Structural, Hash, Debug)]
pub struct SemKey {
    pub region_id: u64,
    pub offset: u32,
}

/// The state of one semaphore.
#[derive(Clone, Copy, PartialEq, Eq, Structural, Debug)]
pub struct SemState {
    pub value: u32,
    pub destroyed: bool,
}

/// What backs a mapping, as far as semaphores care.
#[derive(Clone, Copy, PartialEq, Eq, Structural, Debug)]
pub enum MemoryBacking {
    /// A shared anonymous mapping with this region id.
    SharedAnonymous(u64),
    /// An attached System V segment with this id.
    SharedMemory(u64),
    /// Anything else.
    Other,
}

/// A memory-map entry: its first page and its backing.
#[derive(Clone, Copy, PartialEq, Eq, Structural, Debug)]
pub struct VmmapEntry {
    pub page_num: u32,
    pub backing: MemoryBacking,
}

/// The number a key is stored under: region id, then offset.
pub open spec fn key_code(k: SemKey) -> u128 {
    (k.region_id as int * 0x1_0000_0000 + k.offset as int) as u128
}

/// Distinct keys are stored under distinct numbers.
pub proof fn lemma_key_code_injective(a: SemKey, b: SemKey)
    ensures
        key_code(a) == key_code(b) ==> a == b,
{
    if key_code(a) == key_code(b) {
        let x = a.region_id as int;
        let y = b.region_id as int;
        assert(x * 0x1_0000_0000 + a.offset as int == y * 0x1_0000_0000 + b.offset as int);
        if x < y {
            assert(x * 0x1_0000_0000 + 0x1_0000_0000 <= y * 0x1_0000_0000) by (nonlinear_arith)
                requires
                    x < y,
            ;
        } else if y < x {
            assert(y * 0x1_0000_0000 + 0x1_0000_0000 <= x * 0x1_0000_0000) by (nonlinear_arith)
                requires
                    y < x,
            ;
        }
    }
}

/// The number `k` is stored under.
fn code_of(k: SemKey) -> (r: u128)
    ensures
        r == key_code(k),
{
    (k.region_id as u128) * 0x1_0000_0000 + k.offset as u128
}

/// The name of the semaphore at host address `host_addr` of a cage whose
/// memory starts at `base`, given whether the cage exists and the memory
/// map entry holding the guest address: `-ESRCH` without the cage,
/// `-EFAULT` outside its 32-bit memory or without an entry, `-EINVAL` when
/// the mapping is not shared; otherwise the region and the offset from the
/// mapping's start (System V segments are tagged).
pub open spec fn resolve_result(cage_exists: bool, base: u64, host_addr: u64, entry: Option<VmmapEntry>) -> Result<
    SemKey,
    i32,
> {
    if !cage_exists {
        Err(neg(ESRCH))
    } else if host_addr < base || host_addr - base > u32::MAX {
        Err(neg(EFAULT))
    } else {
        match entry {
            None => Err(neg(EFAULT)),
            Some(e) => {
                let offset = (host_addr - base - e.page_num * PAGE_BYTES) as u32;
                match e.backing {
                    MemoryBacking::SharedAnonymous(id) => Ok(SemKey { region_id: id, offset }),
                    MemoryBacking::SharedMemory(shmid) => Ok(
                        SemKey { region_id: shmid | SHM_REGION_TAG, offset },
                    ),
                    MemoryBacking::Other => Err(neg(EINVAL)),
                }
            },
        }
    }
}

/// The guest address of host address `host_addr` in a memory starting at
/// `base`; `-EFAULT` outside the 32-bit memory.
pub fn guest_address(base: u64, host_addr: u64) -> (r: Result<u32, i32>)
    ensures
        r == (if host_addr < base || host_addr - base > u32::MAX {
            Err(neg(EFAULT))
        } else {
            Ok((host_addr - base) as u32)
        }),
{
    if host_addr < base || host_addr - base > u32::MAX as u64 {
        return Err(-EFAULT);
    }
    Ok((host_addr - base) as u32)
}

/// Names the semaphore at `host_addr`; the entry is the one holding its
/// guest address (which starts at or before that address).
pub fn resolve_sem_key(cage_exists: bool, base: u64, host_addr: u64, entry: Option<VmmapEntry>) -> (r: Result<
    SemKey,
    i32,
>)
    requires
        cage_exists && base <= host_addr && host_addr - base <= u32::MAX ==> (entry matches Some(e) ==> e.page_num
            * PAGE_BYTES <= host_addr - base),
    ensures
        r == resolve_result(cage_exists, base, host_addr, entry),
{
    if !cage_exists {
        return Err(-ESRCH);
    }
    let guest = match guest_address(base, host_addr) {
        Ok(g) => g,
        Err(e) => return Err(e),
    };
    match entry {
        None => Err(-EFAULT),
        Some(e) => {
            let start: u32 = e.page_num * (PAGE_BYTES as u32);
            let offset = guest - start;
            match e.backing {
                MemoryBacking::SharedAnonymous(id) => Ok(SemKey { region_id: id, offset }),
                MemoryBacking::SharedMemory(shmid) => Ok(
                    SemKey { region_id: shmid | SHM_REGION_TAG, offset },
                ),
                MemoryBacking::Other => Err(-EINVAL),
            }
        },
    }
}

/// The outcome of one wait step.
#[derive(Clone, Copy, PartialEq, Eq, Structural, Debug)]
pub enum SemWaitStep {
    /// The wait completes with this return value (0 or a negated errno).
    Done(i32),
    /// The count is zero: block until a post (or the deadline) and retry.
    Block,
}

/// `sem_init` with `value_arg` and the resolved `key` takes table `t` to
/// `t2` and returns `r`: a value above `SEM_VALUE_MAX` is `-EINVAL`, a key
/// that could not be resolved gives its error; otherwise the key names a
/// new state with the value (a key in use is reset).
pub open spec fn init_result(t: SemTable, t2: SemTable, value_arg: u64, key: Result<SemKey, i32>, r: i32) -> bool {
    let unchanged = t2.slots() == t.slots() && t2.states() == t.states();
    if (value_arg as u32) > SEM_VALUE_MAX {
        r == neg(EINVAL) && unchanged
    } else {
        match key {
            Err(e) => r == e && unchanged,
            Ok(k) => {
                &&& r == 0
                &&& t2.states() == t.states().push(SemState { value: value_arg as u32, destroyed: false })
                &&& t2.slots() == t.slots().insert(key_code(k), t.states().len() as u64)
            },
        }
    }
}

/// One wait step on state `i` takes `t` to `t2` and returns `r`: a
/// destroyed semaphore is `-EINVAL`; a positive count is taken by one; at
/// zero, trying is `-EAGAIN` and otherwise the caller blocks.
pub open spec fn wait_step_result(t: SemTable, t2: SemTable, i: int, flags: u32, r: SemWaitStep) -> bool {
    let s = t.states()[i];
    &&& t2.slots() == t.slots()
    &&& if s.destroyed {
        r == SemWaitStep::Done(neg(EINVAL)) && t2.states() == t.states()
    } else if s.value > 0 {
        r == SemWaitStep::Done(0) && t2.states() == t.states().update(
            i,
            SemState { value: (s.value - 1) as u32, ..s },
        )
    } else if flags == SEM_WAIT_TRY {
        r == SemWaitStep::Done(neg(EAGAIN)) && t2.states() == t.states()
    } else {
        r == SemWaitStep::Block && t2.states() == t.states()
    }
}

/// `sem_post` on the resolved `key` takes `t` to `t2` and returns `r`: one
/// is added to the count; `-EOVERFLOW` at `SEM_VALUE_MAX`, `-EINVAL` when
/// not initialized, or the error of the key.
pub open spec fn post_result(t: SemTable, t2: SemTable, key: Result<SemKey, i32>, r: i32) -> bool {
    &&& t2.slots() == t.slots()
    &&& match key {
        Err(e) => r == e && t2.states() == t.states(),
        Ok(k) => match t.slot(k) {
            None => r == neg(EINVAL) && t2.states() == t.states(),
            Some(i) => {
                let s = t.states()[i];
                if s.value >= SEM_VALUE_MAX {
                    r == neg(EOVERFLOW) && t2.states() == t.states()
                } else {
                    r == 0 && t2.states() == t.states().update(i, SemState { value: (s.value + 1) as u32, ..s })
                }
            },
        },
    }
}

/// `sem_destroy` on the resolved `key` takes `t` to `t2` and returns `r`:
/// the state is marked destroyed and the key forgotten; `-EINVAL` when not
/// initialized, or the error of the key.
pub open spec fn destroy_result(t: SemTable, t2: SemTable, key: Result<SemKey, i32>, r: i32) -> bool {
    let unchanged = t2.slots() == t.slots() && t2.states() == t.states();
    match key {
        Err(e) => r == e && unchanged,
        Ok(k) => match t.slot(k) {
            None => r == neg(EINVAL) && unchanged,
            Some(i) => {
                &&& r == 0
                &&& t2.states() == t.states().update(i, SemState { destroyed: true, ..t.states()[i] })
                &&& t2.slots() == t.slots().remove(key_code(k))
            },
        },
    }
}

/// All process-shared semaphores.
pub struct SemTable {
    map: KeyMap,
    states: Vec<SemState>,
}

/// The value check of `sem_init`, made before the semaphore's address is
/// resolved: a value above `SEM_VALUE_MAX` is `-EINVAL`.
pub fn sem_init_value_check(value_arg: u64) -> (r: Result<(), i32>)
    ensures
        r == (if (value_arg as u32) > SEM_VALUE_MAX {
            Err(neg(EINVAL))
        } else {
            Ok(())
        }),
{
    if (value_arg as u32) > SEM_VALUE_MAX {
        Err(-EINVAL)
    } else {
        Ok(())
    }
}

/// The flavor check of `sem_wait`, made before the semaphore's address is
/// resolved: anything but block, try and timed is `-EINVAL`.
pub fn sem_wait_flags_check(flags_arg: u64) -> (r: Result<(), i32>)
    ensures
        ({
            let flags = flags_arg as u32;
            r == (if flags != SEM_WAIT_BLOCK && flags != SEM_WAIT_TRY && flags != SEM_WAIT_TIMED {
                Err(neg(EINVAL))
            } else {
                Ok(())
            })
        }),
{
    let flags = flags_arg as u32;
    if flags != SEM_WAIT_BLOCK && flags != SEM_WAIT_TRY && flags != SEM_WAIT_TIMED {
        Err(-EINVAL)
    } else {
        Ok(())
    }
}

impl SemTable {
    /// Key number to state index.
    pub closed spec fn slots(&self) -> Map<u128, u64> {
        key_map_contents(self.map)
    }

    /// Every state ever made, by index; destroyed ones stay for waiters
    /// that still hold them.
    pub closed spec fn states(&self) -> Seq<SemState> {
        self.states@
    }

    /// Every key names an existing state.
    pub closed spec fn wf(&self) -> bool {
        &&& forall|c: u128| #[trigger]
            self.slots().contains_key(c) ==> self.slots()[c] < self.states().len()
                && !self.states()[self.slots()[c] as int].destroyed
        &&& forall|c1: u128, c2: u128|
            #[trigger] self.slots().contains_key(c1) && #[trigger] self.slots().contains_key(c2) && c1
                != c2 ==> self.slots()[c1] != self.slots()[c2]
        &&& forall|i: int| 0 <= i < self.states().len() ==> #[trigger] self.states()[i].value
            <= SEM_VALUE_MAX
    }

    /// What soundness gives callers: an initialized key names an existing,
    /// live state of its own, and no count exceeds `SEM_VALUE_MAX`.
    pub proof fn lemma_wf(&self, k: SemKey)
        requires
            self.wf(),
        ensures
            self.slot(k) matches Some(i) ==> 0 <= i < self.states().len() && !self.states()[i].destroyed,
            forall|k2: SemKey|
                #![trigger self.slot(k2)]
                key_code(k2) != key_code(k) && self.slot(k) is Some && self.slot(k2) is Some
                    ==> self.slot(k) != self.slot(k2),
            forall|i: int| 0 <= i < self.states().len() ==> #[trigger] self.states()[i].value
                <= SEM_VALUE_MAX,
    {
        assert forall|k2: SemKey|
            #![trigger self.slot(k2)]
            key_code(k2) != key_code(k) && self.slot(k) is Some && self.slot(k2) is Some
                implies self.slot(k) != self.slot(k2) by {
            assert(self.slots().contains_key(key_code(k)));
            assert(self.slots().contains_key(key_code(k2)));
        }
    }

    /// The state index of semaphore `k`, if it is initialized.
    pub open spec fn slot(&self, k: SemKey) -> Option<int> {
        if self.slots().contains_key(key_code(k)) {
            Some(self.slots()[key_code(k)] as int)
        } else {
            None
        }
    }

    /// No semaphores.
    pub fn new() -> (r: SemTable)
        ensures
            r.wf(),
            r.slots() == Map::<u128, u64>::empty(),
            r.states().len() == 0,
    {
        SemTable { map: key_map_new(), states: Vec::new() }
    }

    /// The state index of an initialized semaphore, or `-EINVAL`.
    pub fn lookup_sem(&self, key: SemKey) -> (r: Result<usize, i32>)
        requires
            self.wf(),
        ensures
            match self.slot(key) {
                Some(i) => r matches Ok(j) && j == i && i < self.states().len(),
                None => r == Err::<usize, i32>(neg(EINVAL)),
            },
    {
        let n = self.states.len();
        match key_map_get(&self.map, code_of(key)) {
            Some(i) => {
                assert(i < n);
                Ok(i as usize)
            },
            None => Err(-EINVAL),
        }
    }

    /// `sem_init`: a value above `SEM_VALUE_MAX` is `-EINVAL`, a key that
    /// could not be resolved gives its error; otherwise the key names a new
    /// state with the value (a key in use is reset).
    pub fn sem_init_syscall(&mut self, value_arg: u64, key: Result<SemKey, i32>) -> (r: i32)
        requires
            old(self).wf(),
        ensures
            final(self).wf(),
            init_result(*old(self), *final(self), value_arg, key, r),
    {
        let value = value_arg as u32;
        if value > SEM_VALUE_MAX {
            return -EINVAL;
        }
        let k = match key {
            Ok(k) => k,
            Err(e) => return e,
        };
        let i = self.states.len() as u64;
        self.states.push(SemState { value, destroyed: false });
        key_map_insert(&mut self.map, code_of(k), i);
        proof {
            let n = old(self).states().len();
            assert forall|c: u128| #[trigger] self.slots().contains_key(c) implies self.slots()[c]
                < self.states().len() && !self.states()[self.slots()[c] as int].destroyed by {
                if c != key_code(k) {
                    assert(old(self).slots().contains_key(c));
                    assert(self.states()[old(self).slots()[c] as int] == old(self).states()[old(
                        self,
                    ).slots()[c] as int]);
                }
            }
            assert forall|c1: u128, c2: u128|
                #[trigger] self.slots().contains_key(c1) && #[trigger] self.slots().contains_key(c2)
                    && c1 != c2 implies self.slots()[c1] != self.slots()[c2] by {
                if c1 != key_code(k) && c2 != key_code(k) {
                    assert(old(self).slots().contains_key(c1) && old(self).slots().contains_key(c2));
                } else if c1 == key_code(k) {
                    assert(old(self).slots().contains_key(c2));
                } else {
                    assert(old(self).slots().contains_key(c1));
                }
            }
        }
        0
    }

    /// Start of `sem_wait` and its variants: an unknown flavor is
    /// `-EINVAL`, a key that could not be resolved gives its error, an
    /// uninitialized semaphore is `-EINVAL`, and so is a timed wait whose
    /// nanoseconds are out of range; otherwise the state to wait on.
    pub fn sem_wait_syscall(&self, flags_arg: u64, abs_nsec_arg: u64, key: Result<SemKey, i32>) -> (r: Result<
        usize,
        i32,
    >)
        requires
            self.wf(),
        ensures
            ({
                let flags = flags_arg as u32;
                let nsec = abs_nsec_arg as i64;
                if flags != SEM_WAIT_BLOCK && flags != SEM_WAIT_TRY && flags != SEM_WAIT_TIMED {
                    r == Err::<usize, i32>(neg(EINVAL))
                } else {
                    match key {
                        Err(e) => r == Err::<usize, i32>(e),
                        Ok(k) => match self.slot(k) {
                            None => r == Err::<usize, i32>(neg(EINVAL)),
                            Some(i) => if flags == SEM_WAIT_TIMED && (nsec < 0 || nsec >= 1_000_000_000) {
                                r == Err::<usize, i32>(neg(EINVAL))
                            } else {
                                r matches Ok(j) && j == i && i < self.states().len()
                            },
                        },
                    }
                }
            }),
    {
        let flags = flags_arg as u32;
        if flags != SEM_WAIT_BLOCK && flags != SEM_WAIT_TRY && flags != SEM_WAIT_TIMED {
            return Err(-EINVAL);
        }
        let k = match key {
            Ok(k) => k,
            Err(e) => return Err(e),
        };
        let i = match self.lookup_sem(k) {
            Ok(i) => i,
            Err(e) => return Err(e),
        };
        let nsec = abs_nsec_arg as i64;
        if flags == SEM_WAIT_TIMED && (nsec < 0 || nsec >= 1_000_000_000) {
            return Err(-EINVAL);
        }
        Ok(i)
    }

    /// One wait step on state `i`: a destroyed semaphore is `-EINVAL`; a
    /// positive count is taken by one; at zero, trying is `-EAGAIN` and
    /// otherwise the caller blocks.
    pub fn sem_wait_step(&mut self, i: usize, flags: u32) -> (r: SemWaitStep)
        requires
            old(self).wf(),
            i < old(self).states().len(),
        ensures
            final(self).wf(),
            final(self).slots() == old(self).slots(),
            wait_step_result(*old(self), *final(self), i as int, flags, r),
    {
        let s = self.states[i];
        if s.destroyed {
            return SemWaitStep::Done(-EINVAL);
        }
        if s.value > 0 {
            self.states.set(i, SemState { value: s.value - 1, ..s });
            proof {
                assert forall|c: u128| #[trigger] self.slots().contains_key(c) implies self.slots()[c]
                    < self.states().len() && !self.states()[self.slots()[c] as int].destroyed by {
                    assert(old(self).slots().contains_key(c));
                    let j = self.slots()[c] as int;
                    if j != i {
                        assert(self.states()[j] == old(self).states()[j]);
                    }
                }
                assert forall|c1: u128, c2: u128|
                    #[trigger] self.slots().contains_key(c1) && #[trigger] self.slots().contains_key(c2)
                        && c1 != c2 implies self.slots()[c1] != self.slots()[c2] by {
                    assert(old(self).slots().contains_key(c1) && old(self).slots().contains_key(c2));
                }
            }
            return SemWaitStep::Done(0);
        }
        if flags == SEM_WAIT_TRY {
            return SemWaitStep::Done(-EAGAIN);
        }
        SemWaitStep::Block
    }

    /// `sem_post`: adds one to the count (the caller then wakes a waiter);
    /// `-EOVERFLOW` at `SEM_VALUE_MAX`, `-EINVAL` when not initialized, or
    /// the error of the key.
    pub fn sem_post_syscall(&mut self, key: Result<SemKey, i32>) -> (r: i32)
        requires
            old(self).wf(),
        ensures
            final(self).wf(),
            post_result(*old(self), *final(self), key, r),
    {
        let k = match key {
            Ok(k) => k,
            Err(e) => return e,
        };
        let i = match self.lookup_sem(k) {
            Ok(i) => i,
            Err(e) => return e,
        };
        let s = self.states[i];
        if s.value >= SEM_VALUE_MAX {
            return -EOVERFLOW;
        }
        self.states.set(i, SemState { value: s.value + 1, ..s });
        assert(self.states().len() == old(self).states().len());
        0
    }

    /// `sem_getvalue`: the count, or `-EINVAL` when not initialized, or the
    /// error of the key.
    pub fn sem_getvalue_syscall(&self, key: Result<SemKey, i32>) -> (r: i32)
        requires
            self.wf(),
        ensures
            match key {
                Err(e) => r == e,
                Ok(k) => match self.slot(k) {
                    None => r == neg(EINVAL),
                    Some(i) => r == self.states()[i].value as i32,
                },
            },
    {
        let k = match key {
            Ok(k) => k,
            Err(e) => return e,
        };
        let i = match self.lookup_sem(k) {
            Ok(i) => i,
            Err(e) => return e,
        };
        self.states[i].value as i32
    }

    /// `sem_destroy`: marks the state destroyed (the caller then wakes all
    /// waiters, who fail) and forgets the key; `-EINVAL` when not
    /// initialized, or the error of the key.
    pub fn sem_destroy_syscall(&mut self, key: Result<SemKey, i32>) -> (r: i32)
        requires
            old(self).wf(),
        ensures
            final(self).wf(),
            destroy_result(*old(self), *final(self), key, r),
    {
        let k = match key {
            Ok(k) => k,
            Err(e) => return e,
        };
        let i = match self.lookup_sem(k) {
            Ok(i) => i,
            Err(e) => return e,
        };
        let s = self.states[i];
        self.states.set(i, SemState { destroyed: true, ..s });
        key_map_remove(&mut self.map, code_of(k));
        assert(self.states().len() == old(self).states().len());
        0
    }
}

} // verus!
