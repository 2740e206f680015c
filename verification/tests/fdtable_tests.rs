use lind::consts::FDKIND_IMSOCK;
use lind::handler_table::HandlerTable;
use lind::inmem_ipc::{close_fd, FdEntry, InmemIpc};
use lind::lib_tables::{rm_cage_from_lib_handler_table, LibHandlerTable};

const TEST_CAGE_ID: u64 = 999;

#[test]
fn test_fdtable_remove_nonexistent() {
    const NONEXISTENT: u64 = TEST_CAGE_ID + 999;
    let mut handlers = HandlerTable::new();
    handlers._rm_cage_from_handler(NONEXISTENT);
    assert!(!handlers._check_cage_handler_exists(NONEXISTENT));
    let mut libs = LibHandlerTable::new();
    rm_cage_from_lib_handler_table(&mut libs, NONEXISTENT);
    let mut ipc = InmemIpc::new();
    let fd = FdEntry { fdkind: FDKIND_IMSOCK, underfd: NONEXISTENT, should_cloexec: false, perfdinfo: 0 };
    assert_eq!(close_fd(&mut ipc, fd, 0), Ok(()));
}
