use lind::consts::{ELINDAPIABORTED, ELINDESRCH, THREEI_DEREGISTER};
use lind::threei::{copy_handler_table_to_cage, register_handler, route_status, route_syscall, Threei};

const SYSCALL_FOO: u64 = 34;
const SYSCALL_BAR: u64 = 35;
const OP_ADD: u64 = 1;
const OP_REMOVE: u64 = 0;

fn register_simple(
    t: &mut Threei,
    targetcage: u64,
    targetcallnum: u64,
    handlefunccage: u64,
    in_grate_fn_ptr_u64: u64,
    _op_flag: u64,
) -> i32 {
    register_handler(
        t,
        0,
        0,
        targetcage,
        targetcallnum,
        0,
        handlefunccage,
        in_grate_fn_ptr_u64,
        0,
        0,
        0,
        0,
        0,
        0,
        0,
    )
}

fn cpy(t: &mut Threei, target: u64, src: u64) -> u64 {
    copy_handler_table_to_cage(t, 0, 0, src, target, 0, 0, 0, 0, 0, 0, 0, 0, 0, 0)
}

fn mappings_for(t: &Threei, cage: u64, callnum: u64) -> Vec<(u64, u64)> {
    t.handlers.mappings_for(cage, callnum)
}

#[test]
fn insert_new_handler_creates_mapping() {
    let mut t = Threei::new();
    let cage = 7;
    let callnum = SYSCALL_FOO;
    let dest_grate = 99;
    let addr = 11;
    let rc = register_simple(&mut t, cage, callnum, dest_grate, addr, OP_ADD);
    assert_eq!(rc, 0);
    let m = mappings_for(&t, cage, callnum);
    assert_eq!(m, vec![(dest_grate, addr)]);
}

#[test]
fn re_register_same_mapping_is_idempotent() {
    let mut t = Threei::new();
    let cage = 7;
    let callnum = SYSCALL_FOO;
    let dest_grate = 99;
    let addr = 11;
    assert_eq!(register_simple(&mut t, cage, callnum, dest_grate, addr, OP_ADD), 0);
    assert_eq!(register_simple(&mut t, cage, callnum, dest_grate, addr, OP_ADD), 0);
    let m = mappings_for(&t, cage, callnum);
    assert_eq!(m, vec![(dest_grate, addr)]);
}

#[test]
fn re_register_overwrites_existing_mapping() {
    let mut t = Threei::new();
    let cage = 7;
    let callnum = SYSCALL_FOO;
    let dest_grate = 99;
    let addr1 = 11;
    let addr2 = 12;
    assert_eq!(register_simple(&mut t, cage, callnum, dest_grate, addr1, OP_ADD), 0);
    let rc = register_simple(&mut t, cage, callnum, dest_grate, addr2, OP_ADD);
    assert_eq!(rc, 0);
    let m = mappings_for(&t, cage, callnum);
    assert_eq!(m, vec![(dest_grate, addr2)]);
}

#[test]
fn deregister_entire_callnum_with_constant() {
    let mut t = Threei::new();
    let cage = 7;
    let callnum = SYSCALL_FOO;
    assert_eq!(register_simple(&mut t, cage, callnum, 90, 1, OP_ADD), 0);
    assert_eq!(register_simple(&mut t, cage, callnum, 91, 2, OP_ADD), 0);
    assert_eq!(register_simple(&mut t, cage, callnum, 92, 3, OP_ADD), 0);
    assert_eq!(register_simple(&mut t, cage, callnum, THREEI_DEREGISTER, 0, OP_REMOVE), 0);
    assert!(mappings_for(&t, cage, callnum).is_empty());
    assert_eq!(register_simple(&mut t, cage, callnum, THREEI_DEREGISTER, 0, OP_REMOVE), 0);
}

#[test]
fn registering_different_handler_replaces_existing_mapping() {
    let mut t = Threei::new();
    let cage = 7;
    let callnum = SYSCALL_FOO;
    assert_eq!(register_simple(&mut t, cage, callnum, 90, 1001, OP_ADD), 0);
    assert_eq!(register_simple(&mut t, cage, callnum, 91, 1002, OP_ADD), 0);
    assert_eq!(register_simple(&mut t, cage, callnum, 92, 1003, OP_ADD), 0);
    assert_eq!(mappings_for(&t, cage, callnum), vec![(92, 1003)]);
}

#[test]
fn exiting_table_blocks_registration() {
    let mut t = Threei::new();
    let cage = 7;
    let callnum = SYSCALL_FOO;
    let dest_grate = 99;
    let addr = 11;
    t.exiting.insert(cage);
    let rc = register_simple(&mut t, cage, callnum, dest_grate, addr, OP_ADD);
    assert_eq!(rc, ELINDESRCH as i32);
    t.exiting.remove(cage);
    t.exiting.insert(dest_grate);
    let rc2 = register_simple(&mut t, cage, callnum, dest_grate, addr, OP_ADD);
    assert_eq!(rc2, ELINDESRCH as i32);
    assert!(mappings_for(&t, cage, callnum).is_empty());
}

#[test]
fn cleanup_cage_removed_when_last_callnum_removed() {
    let mut t = Threei::new();
    let cage = 7;
    assert_eq!(register_simple(&mut t, cage, SYSCALL_FOO, 90, 1, OP_ADD), 0);
    assert_eq!(register_simple(&mut t, cage, SYSCALL_BAR, 91, 2, OP_ADD), 0);
    assert_eq!(register_simple(&mut t, cage, SYSCALL_FOO, THREEI_DEREGISTER, 0, OP_REMOVE), 0);
    assert!(t.handlers._check_cage_handler_exists(cage));
    assert_eq!(register_simple(&mut t, cage, SYSCALL_BAR, THREEI_DEREGISTER, 0, OP_REMOVE), 0);
    assert!(!t.handlers._check_cage_handler_exists(cage));
}

#[test]
fn deregister_not_found_is_ok() {
    let mut t = Threei::new();
    let cage = 123;
    let callnum = 456;
    let rc = register_simple(&mut t, cage, callnum, THREEI_DEREGISTER, 0, OP_REMOVE);
    assert_eq!(rc, 0);
}

#[test]
fn copy_into_empty_target_copies_all() {
    let mut t = Threei::new();
    let source = 7;
    let target = 8;
    assert_eq!(register_simple(&mut t, source, SYSCALL_FOO, 90, 11, OP_ADD), 0);
    assert_eq!(register_simple(&mut t, source, SYSCALL_BAR, 91, 12, OP_ADD), 0);
    assert_eq!(cpy(&mut t, target, source), 0);
    assert_eq!(mappings_for(&t, target, SYSCALL_FOO), vec![(90, 11)]);
    assert_eq!(mappings_for(&t, target, SYSCALL_BAR), vec![(91, 12)]);
}

#[test]
fn copy_is_idempotent() {
    let mut t = Threei::new();
    let src = 1002;
    let dst = 2002;
    assert_eq!(register_simple(&mut t, src, SYSCALL_FOO, 90, 11, OP_ADD), 0);
    assert_eq!(cpy(&mut t, dst, src), 0);
    assert_eq!(cpy(&mut t, dst, src), 0);
    let mut got = mappings_for(&t, dst, SYSCALL_FOO);
    got.sort_unstable();
    assert_eq!(got, vec![(90, 11)]);
}

#[test]
fn copy_overwrites_existing_target_handlers() {
    let mut t = Threei::new();
    let source = 7;
    let target = 8;
    assert_eq!(register_simple(&mut t, target, SYSCALL_FOO, 77, 10, OP_ADD), 0);
    assert_eq!(register_simple(&mut t, target, SYSCALL_BAR, 78, 13, OP_ADD), 0);
    assert_eq!(register_simple(&mut t, source, SYSCALL_FOO, 100, 12, OP_ADD), 0);
    assert_eq!(cpy(&mut t, target, source), 0);
    assert_eq!(mappings_for(&t, target, SYSCALL_FOO), vec![(100, 12)]);
    assert!(mappings_for(&t, target, SYSCALL_BAR).is_empty());
}

#[test]
fn copy_preserves_multiple_source_callnums() {
    let mut t = Threei::new();
    let source = 7;
    let target = 8;
    assert_eq!(register_simple(&mut t, source, SYSCALL_FOO, 190, 21, OP_ADD), 0);
    assert_eq!(register_simple(&mut t, source, SYSCALL_BAR, 191, 22, OP_ADD), 0);
    assert_eq!(cpy(&mut t, target, source), 0);
    assert_eq!(mappings_for(&t, target, SYSCALL_FOO), vec![(190, 21)]);
    assert_eq!(mappings_for(&t, target, SYSCALL_BAR), vec![(191, 22)]);
}

#[test]
fn copy_returns_error_if_src_missing_table() {
    let mut t = Threei::new();
    let src = 1005;
    let dst = 2005;
    let rc = cpy(&mut t, dst, src);
    assert_eq!(rc, ELINDAPIABORTED as u64);
    assert!(!t.handlers._check_cage_handler_exists(dst));
}

#[test]
fn copy_returns_elindesrch_if_either_src_or_dst_exiting() {
    let mut t = Threei::new();
    let src = 1006;
    let dst = 2006;
    assert_eq!(register_simple(&mut t, src, SYSCALL_FOO, 90, 11, OP_ADD), 0);
    t.exiting.insert(src);
    let rc1 = cpy(&mut t, dst, src);
    assert_eq!(rc1, ELINDESRCH as u64);
    t.exiting.remove(src);
    t.exiting.insert(dst);
    let rc2 = cpy(&mut t, dst, src);
    assert_eq!(rc2, ELINDESRCH as u64);
    t.exiting.remove(dst);
}

#[test]
fn non_exit_syscall_falls_through_to_rawposix_path_when_not_interposed() {
    let t = Threei::new();
    const CAGE_A: u64 = 11;
    let unknown_syscall = 0xFFFF_FFFFu64;
    let route = route_syscall(&t, CAGE_A, unknown_syscall, CAGE_A);
    let rc = route_status(&route).unwrap();
    assert_eq!(rc, ELINDAPIABORTED as i32);
}
