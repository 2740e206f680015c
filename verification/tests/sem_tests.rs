use lind::sem::{
    guest_address, resolve_sem_key, MemoryBacking, SemKey, SemTable, SemWaitStep, SEM_VALUE_MAX,
    SEM_WAIT_BLOCK, SEM_WAIT_TIMED, SEM_WAIT_TRY, SHM_REGION_TAG, VmmapEntry,
};

fn key(region_id: u64, offset: u32) -> Result<SemKey, i32> {
    Ok(SemKey { region_id, offset })
}

#[test]
fn init_then_getvalue() {
    let mut t = SemTable::new();
    assert_eq!(t.sem_getvalue_syscall(key(1, 8)), -22);
    assert_eq!(t.sem_init_syscall(3, key(1, 8)), 0);
    assert_eq!(t.sem_getvalue_syscall(key(1, 8)), 3);
    assert_eq!(t.sem_getvalue_syscall(key(1, 12)), -22);
    assert_eq!(t.sem_getvalue_syscall(key(2, 8)), -22);
    assert_eq!(t.sem_init_syscall(SEM_VALUE_MAX as u64 + 1, key(1, 8)), -22);
    assert_eq!(t.sem_init_syscall(1, Err(-14)), -14);
    assert_eq!(t.sem_init_syscall(9, key(1, 8)), 0);
    assert_eq!(t.sem_getvalue_syscall(key(1, 8)), 9);
}

#[test]
fn wait_takes_tokens_and_try_fails_at_zero() {
    let mut t = SemTable::new();
    assert_eq!(t.sem_init_syscall(1, key(5, 0)), 0);
    let i = t.sem_wait_syscall(SEM_WAIT_TRY as u64, 0, key(5, 0)).unwrap();
    assert_eq!(t.sem_wait_step(i, SEM_WAIT_TRY), SemWaitStep::Done(0));
    assert_eq!(t.sem_getvalue_syscall(key(5, 0)), 0);
    assert_eq!(t.sem_wait_step(i, SEM_WAIT_TRY), SemWaitStep::Done(-11));
    assert_eq!(t.sem_wait_step(i, SEM_WAIT_BLOCK), SemWaitStep::Block);
    assert_eq!(t.sem_post_syscall(key(5, 0)), 0);
    assert_eq!(t.sem_wait_step(i, SEM_WAIT_BLOCK), SemWaitStep::Done(0));
}

#[test]
fn wait_start_checks() {
    let mut t = SemTable::new();
    assert_eq!(t.sem_wait_syscall(7, 0, key(5, 0)), Err(-22));
    assert_eq!(t.sem_wait_syscall(SEM_WAIT_BLOCK as u64, 0, key(5, 0)), Err(-22));
    assert_eq!(t.sem_wait_syscall(SEM_WAIT_BLOCK as u64, 0, Err(-3)), Err(-3));
    assert_eq!(t.sem_init_syscall(0, key(5, 0)), 0);
    assert_eq!(t.sem_wait_syscall(SEM_WAIT_TIMED as u64, 1_000_000_000, key(5, 0)), Err(-22));
    assert_eq!(t.sem_wait_syscall(SEM_WAIT_TIMED as u64, u64::MAX, key(5, 0)), Err(-22));
    assert_eq!(t.sem_wait_syscall(SEM_WAIT_TIMED as u64, 5, key(5, 0)), Ok(0));
    assert_eq!(t.sem_wait_syscall(SEM_WAIT_BLOCK as u64, u64::MAX, key(5, 0)), Ok(0));
}

#[test]
fn post_overflows_at_max() {
    let mut t = SemTable::new();
    assert_eq!(t.sem_init_syscall(SEM_VALUE_MAX as u64, key(1, 0)), 0);
    assert_eq!(t.sem_post_syscall(key(1, 0)), -75);
    assert_eq!(t.sem_post_syscall(key(1, 4)), -22);
    assert_eq!(t.sem_post_syscall(Err(-14)), -14);
}

#[test]
fn destroy_fails_waiters_and_forgets_key() {
    let mut t = SemTable::new();
    assert_eq!(t.sem_init_syscall(0, key(4, 16)), 0);
    let i = t.sem_wait_syscall(SEM_WAIT_BLOCK as u64, 0, key(4, 16)).unwrap();
    assert_eq!(t.sem_destroy_syscall(key(4, 16)), 0);
    assert_eq!(t.sem_wait_step(i, SEM_WAIT_BLOCK), SemWaitStep::Done(-22));
    assert_eq!(t.sem_getvalue_syscall(key(4, 16)), -22);
    assert_eq!(t.sem_destroy_syscall(key(4, 16)), -22);
    assert_eq!(t.sem_init_syscall(2, key(4, 16)), 0);
    assert_eq!(t.sem_getvalue_syscall(key(4, 16)), 2);
    assert_eq!(t.sem_wait_step(i, SEM_WAIT_BLOCK), SemWaitStep::Done(-22));
}

#[test]
fn sem_keys_resolve_from_mappings() {
    let base = 0x1000_0000u64;
    assert_eq!(guest_address(base, base + 0x2010), Ok(0x2010));
    assert_eq!(guest_address(base, base - 1), Err(-14));
    assert_eq!(guest_address(base, base + 0x1_0000_0000), Err(-14));
    let anon = VmmapEntry { page_num: 2, backing: MemoryBacking::SharedAnonymous(77) };
    assert_eq!(
        resolve_sem_key(true, base, base + 0x2010, Some(anon)),
        Ok(SemKey { region_id: 77, offset: 0x10 })
    );
    let shm = VmmapEntry { page_num: 1, backing: MemoryBacking::SharedMemory(5) };
    assert_eq!(
        resolve_sem_key(true, base, base + 0x2010, Some(shm)),
        Ok(SemKey { region_id: 5 | SHM_REGION_TAG, offset: 0x1010 })
    );
    let private = VmmapEntry { page_num: 2, backing: MemoryBacking::Other };
    assert_eq!(resolve_sem_key(true, base, base + 0x2010, Some(private)), Err(-22));
    assert_eq!(resolve_sem_key(true, base, base + 0x2010, None), Err(-14));
    assert_eq!(resolve_sem_key(false, base, base + 0x2010, Some(anon)), Err(-3));
    assert_eq!(resolve_sem_key(true, base, base - 4, None), Err(-14));
}

#[test]
fn sem_checks_before_resolving() {
    assert_eq!(lind::sem::sem_init_value_check(5), Ok(()));
    assert_eq!(lind::sem::sem_init_value_check(SEM_VALUE_MAX as u64), Ok(()));
    assert_eq!(lind::sem::sem_init_value_check(SEM_VALUE_MAX as u64 + 1), Err(-22));
    assert_eq!(lind::sem::sem_wait_flags_check(SEM_WAIT_BLOCK as u64), Ok(()));
    assert_eq!(lind::sem::sem_wait_flags_check(SEM_WAIT_TRY as u64), Ok(()));
    assert_eq!(lind::sem::sem_wait_flags_check(SEM_WAIT_TIMED as u64), Ok(()));
    assert_eq!(lind::sem::sem_wait_flags_check(3), Err(-22));
}
