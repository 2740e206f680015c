use lind::cage_copy::{
    _strlen_in_cage, _validate_len, copy_addresses_valid, copy_data_precheck, copy_type_from,
    strncpy_copy_len, CopyCheck, CopyType,
};
use lind::consts::{
    DylinkErrorCode, CloneArgStruct, ELINDAPIABORTED, ELINDESRCH, EXIT_SYSCALL, RAWPOSIX_CAGEID,
    WASMTIME_CAGEID,
};
use lind::lib_tables::{
    copy_lib_handler_table_to_cage, copy_lib_symbol_table_to_cage, get_lib_call_id, get_lib_handler,
    register_lib_handler_entry, register_lib_symbol, rm_cage_from_lib_handler_table,
    rm_cage_from_lib_symbol_table, LibHandlerTable, LibSymbolTable,
};
use lind::logging::{
    category_enabled, config_from_values, debug_panic, debug_panic_line, log_line, parse_log_output, parse_panic_behavior, DebugPanicAction,
    LindLoggerConfig, LindLoggerInitError, LogCategory, LogCategorySet, LogOutput, PanicBehavior,
};
use lind::stack_arena::{
    fork_stack_arena_base_for_child, get_stack_arena_base, init_stack_arena_base,
    unset_stack_arena_base, StackArenaBases, ERR_ALREADY_INITIALIZED, ERR_NOT_ALLOCATED,
    ERR_NOT_INITIALIZED, ERR_PARENT_NOT_INITIALIZED,
};
use lind::strings::{parse_u16, str_eq, strip_prefix_str, trim_str};
use lind::threei::{
    get_cage_runtime, get_runtime_trampoline, harsh_cage_exit, register_handler,
    register_rawposix_syscall, register_trampoline, remove_cage_runtime, route_status,
    route_syscall, set_cage_runtime, trigger_harsh_cage_exit, SyscallRoute, Threei,
};

fn reg(t: &mut Threei, target_cageid: u64, cage: u64, callnum: u64, grate: u64, addr: u64) -> i32 {
    register_handler(t, 0, target_cageid, cage, callnum, 0, grate, addr, 0, 0, 0, 0, 0, 0, 0)
}

#[test]
fn lookup_after_register_gives_handler() {
    let mut t = Threei::new();
    assert_eq!(reg(&mut t, 0, 7, 34, 99, 11), 0);
    assert_eq!(t.handlers.lookup_handler(7, 34, 7), Some((99, 11)));
    assert_eq!(t.handlers._get_handler(7, 34, 7), Some((99, 11)));
    assert_eq!(t.handlers.lookup_handler(7, 34, 8), None);
    assert_eq!(t.handlers.lookup_handler(7, 35, 7), None);
}

#[test]
fn wasmtime_target_is_stored_under_wasmtime_id() {
    let mut t = Threei::new();
    assert_eq!(reg(&mut t, WASMTIME_CAGEID, 7, 34, 99, 11), 0);
    assert_eq!(t.handlers.lookup_handler(7, 34, WASMTIME_CAGEID), Some((99, 11)));
    assert_eq!(t.handlers.lookup_handler(7, 34, 7), None);
}

#[test]
fn route_direct_for_rawposix_handler() {
    let mut t = Threei::new();
    assert_eq!(register_rawposix_syscall(&mut t, 5, &vec![(0, 4000), (1, 4001)]), 0);
    assert_eq!(t.handlers.lookup_handler(5, 1, 5), Some((RAWPOSIX_CAGEID, 4001)));
    match route_syscall(&t, 5, 0, 5) {
        SyscallRoute::Direct { fn_ptr } => assert_eq!(fn_ptr, 4000),
        _ => panic!("expected a direct route"),
    }
    assert_eq!(route_status(&route_syscall(&t, 5, 0, 5)), None);
}

#[test]
fn route_to_grate_uses_runtime_trampoline() {
    let mut t = Threei::new();
    assert_eq!(reg(&mut t, 0, 7, 34, 99, 11), 0);
    match route_syscall(&t, 7, 34, 7) {
        SyscallRoute::NoRuntime { grateid } => assert_eq!(grateid, 99),
        _ => panic!("expected no runtime"),
    }
    set_cage_runtime(&mut t.runtimes, 99, 1);
    match route_syscall(&t, 7, 34, 7) {
        SyscallRoute::NoTrampoline { grateid, runtime } => {
            assert_eq!((grateid, runtime), (99, 1))
        }
        _ => panic!("expected no trampoline"),
    }
    register_trampoline(&mut t.trampolines, 1, 5555);
    match route_syscall(&t, 7, 34, 7) {
        SyscallRoute::Grate { grateid, fn_ptr, trampoline } => {
            assert_eq!((grateid, fn_ptr, trampoline), (99, 11, 5555))
        }
        _ => panic!("expected a grate route"),
    }
}

#[test]
fn route_refuses_exiting_target_except_exit() {
    let mut t = Threei::new();
    assert_eq!(reg(&mut t, 0, 7, EXIT_SYSCALL, RAWPOSIX_CAGEID, 60), 0);
    t.exiting.insert(7);
    let r = route_syscall(&t, 7, 34, 7);
    assert_eq!(route_status(&r), Some(ELINDESRCH as i32));
    match route_syscall(&t, 7, EXIT_SYSCALL, 7) {
        SyscallRoute::Direct { fn_ptr } => assert_eq!(fn_ptr, 60),
        _ => panic!("exit must still be routed"),
    }
}

#[test]
fn runtime_table_set_get_remove() {
    let mut t = Threei::new();
    assert_eq!(get_cage_runtime(&t.runtimes, 3), None);
    set_cage_runtime(&mut t.runtimes, 3, 1);
    assert_eq!(get_cage_runtime(&t.runtimes, 3), Some(1));
    assert_eq!(get_cage_runtime(&t.runtimes, 5000), None);
    assert_eq!(remove_cage_runtime(&mut t.runtimes, 3), Some(1));
    assert_eq!(get_cage_runtime(&t.runtimes, 3), None);
    assert_eq!(get_runtime_trampoline(&t.trampolines, 1), None);
    register_trampoline(&mut t.trampolines, 1, 42);
    assert_eq!(get_runtime_trampoline(&t.trampolines, 1), Some(42));
}

#[test]
fn harsh_exit_purges_grate_and_cage() {
    let mut t = Threei::new();
    assert_eq!(reg(&mut t, 0, 7, 34, 99, 11), 0);
    assert_eq!(reg(&mut t, 0, 7, 35, 98, 12), 0);
    assert_eq!(reg(&mut t, 0, 99, 36, 98, 13), 0);
    trigger_harsh_cage_exit(&mut t, 99, 0);
    assert!(t.exiting.contains(99));
    assert_eq!(t.handlers.lookup_handler(7, 34, 7), None);
    assert_eq!(t.handlers.lookup_handler(7, 35, 7), Some((98, 12)));
    assert_eq!(reg(&mut t, 0, 7, 34, 99, 11), ELINDESRCH as i32);
    assert_eq!(harsh_cage_exit(&mut t, 0, 99, 0, 0, 0, 0, 0, 0, 0, 0, 0, 0, 0, 0), 0);
    assert!(!t.exiting.contains(99));
    assert!(!t.handlers._check_cage_handler_exists(99));
    assert_eq!(t.handlers.lookup_handler(7, 35, 7), Some((98, 12)));
}

#[test]
fn rm_grate_keeps_other_grates() {
    let mut t = Threei::new();
    assert_eq!(reg(&mut t, 0, 7, 34, 99, 11), 0);
    assert_eq!(reg(&mut t, 0, 8, 34, 98, 12), 0);
    t.handlers._rm_grate_from_handler(99);
    assert_eq!(t.handlers.lookup_handler(7, 34, 7), None);
    assert_eq!(t.handlers.lookup_handler(8, 34, 8), Some((98, 12)));
    t.handlers._rm_cage_from_handler(8);
    assert!(!t.handlers._check_cage_handler_exists(8));
}

#[test]
fn copy_remaps_self_target() {
    let mut t = Threei::new();
    assert_eq!(reg(&mut t, 0, 7, 34, 99, 11), 0);
    assert_eq!(t.handlers.copy_handler_table_to_cage_impl(7, 8), 0);
    assert_eq!(t.handlers.lookup_handler(8, 34, 8), Some((99, 11)));
    assert_eq!(t.handlers.lookup_handler(8, 34, 7), None);
    assert_eq!(t.handlers.copy_handler_table_to_cage_impl(42, 8), ELINDAPIABORTED);
}

#[test]
fn lib_handler_get_after_register_and_copy() {
    let mut t = LibHandlerTable::new();
    assert_eq!(get_lib_handler(&t, 1, "libc.so", "puts"), None);
    register_lib_handler_entry(&mut t, 1, "libc.so", "puts", 9, 100);
    register_lib_handler_entry(&mut t, 1, "libc.so", "printf", 9, 101);
    assert_eq!(get_lib_handler(&t, 1, "libc.so", "puts"), Some((9, 100)));
    register_lib_handler_entry(&mut t, 1, "libc.so", "puts", 10, 200);
    assert_eq!(get_lib_handler(&t, 1, "libc.so", "puts"), Some((10, 200)));
    copy_lib_handler_table_to_cage(&mut t, 1, 2);
    assert_eq!(get_lib_handler(&t, 2, "libc.so", "puts"), Some((10, 200)));
    assert_eq!(get_lib_handler(&t, 2, "libc.so", "printf"), Some((9, 101)));
    rm_cage_from_lib_handler_table(&mut t, 1);
    assert_eq!(get_lib_handler(&t, 1, "libc.so", "puts"), None);
    assert_eq!(get_lib_handler(&t, 2, "libc.so", "puts"), Some((10, 200)));
}

#[test]
fn lib_symbol_get_after_register_and_remove() {
    let mut t = LibSymbolTable::new();
    register_lib_symbol(&mut t, 3, "libm.so", "sin", 2001);
    assert_eq!(get_lib_call_id(&t, 3, "libm.so", "sin"), Some(2001));
    assert_eq!(get_lib_call_id(&t, 3, "libm.so", "cos"), None);
    assert_eq!(get_lib_call_id(&t, 3, "libc.so", "sin"), None);
    copy_lib_symbol_table_to_cage(&mut t, 3, 4);
    assert_eq!(get_lib_call_id(&t, 4, "libm.so", "sin"), Some(2001));
    rm_cage_from_lib_symbol_table(&mut t, 3);
    assert_eq!(get_lib_call_id(&t, 3, "libm.so", "sin"), None);
    copy_lib_symbol_table_to_cage(&mut t, 3, 4);
    assert_eq!(get_lib_call_id(&t, 4, "libm.so", "sin"), Some(2001));
}

#[test]
fn stack_arena_init_get_unset() {
    let mut a = StackArenaBases::new();
    assert_eq!(get_stack_arena_base(&a, 3), None);
    assert_eq!(unset_stack_arena_base(&mut a, 3), Err(ERR_NOT_ALLOCATED));
    assert_eq!(init_stack_arena_base(&mut a, 3, 0x1000), Ok(()));
    assert_eq!(get_stack_arena_base(&a, 3), Some(0x1000));
    assert_eq!(get_stack_arena_base(&a, 2), None);
    assert_eq!(init_stack_arena_base(&mut a, 3, 0x2000), Err(ERR_ALREADY_INITIALIZED));
    assert_eq!(unset_stack_arena_base(&mut a, 2), Err(ERR_NOT_INITIALIZED));
    assert_eq!(unset_stack_arena_base(&mut a, 3), Ok(()));
    assert_eq!(get_stack_arena_base(&a, 3), None);
}

#[test]
fn stack_arena_fork_copies_parent() {
    let mut a = StackArenaBases::new();
    assert_eq!(fork_stack_arena_base_for_child(&mut a, 1, 2), Err(ERR_PARENT_NOT_INITIALIZED));
    assert_eq!(init_stack_arena_base(&mut a, 1, 0x4000), Ok(()));
    assert_eq!(fork_stack_arena_base_for_child(&mut a, 1, 2), Ok(()));
    assert_eq!(get_stack_arena_base(&a, 2), Some(0x4000));
    assert_eq!(fork_stack_arena_base_for_child(&mut a, 1, 2), Err(ERR_ALREADY_INITIALIZED));
}

#[test]
fn log_categories_parse() {
    assert_eq!(LogCategorySet::from_csv(" ALL ").ok(), Some(LogCategorySet::all()));
    assert_eq!(LogCategorySet::from_csv("none").ok(), Some(LogCategorySet::none()));
    assert_eq!(LogCategorySet::from_csv("dylink, ThreeI").ok(), Some(LogCategorySet(0b110)));
    assert_eq!(LogCategorySet::from_csv("default").ok(), Some(LogCategorySet::default_only()));
    match LogCategorySet::from_csv("default,bogus") {
        Err(LindLoggerInitError::InvalidConfig(m)) => {
            assert_eq!(m, "unknown log category: 'bogus'")
        }
        _ => panic!("expected an invalid category"),
    }
    let set = LogCategorySet(0b010);
    assert!(set.contains(LogCategory::DYLINK));
    assert!(!set.contains(LogCategory::THREEI));
    assert!(category_enabled(None, LogCategory::THREEI));
    assert!(!category_enabled(Some(&set), LogCategory::Default));
    assert_eq!(LogCategory::THREEI.as_str(), "THREEI");
    assert_eq!(LogCategory::Default.as_str(), "Default");
}

#[test]
fn log_output_and_panic_parse() {
    assert!(matches!(parse_log_output(" stdout "), Ok(LogOutput::Stdout)));
    assert!(matches!(parse_log_output("stderr"), Ok(LogOutput::Stderr)));
    assert!(matches!(parse_log_output("none"), Ok(LogOutput::Discard)));
    match parse_log_output("file:/tmp/lind.log") {
        Ok(LogOutput::File(p)) => assert_eq!(p, "/tmp/lind.log"),
        _ => panic!("expected a file"),
    }
    match parse_log_output("/var/log/x") {
        Ok(LogOutput::File(p)) => assert_eq!(p, "/var/log/x"),
        _ => panic!("expected a file"),
    }
    assert!(matches!(parse_panic_behavior("log-only"), Ok(PanicBehavior::LogOnly)));
    assert!(matches!(parse_panic_behavior(" panic "), Ok(PanicBehavior::PanicAndExit)));
    assert!(matches!(parse_panic_behavior("no-action"), Ok(PanicBehavior::NoAction)));
    match parse_panic_behavior("maybe") {
        Err(LindLoggerInitError::InvalidConfig(m)) => assert_eq!(
            m,
            "unknown LIND_DEBUG_PANIC value: 'maybe' (expected: panic, log, none)"
        ),
        _ => panic!("expected an invalid value"),
    }
    assert_eq!(debug_panic(None), DebugPanicAction::LogAndPanic);
    assert_eq!(debug_panic(Some(PanicBehavior::LogOnly)), DebugPanicAction::LogAndContinue);
    assert_eq!(debug_panic(Some(PanicBehavior::NoAction)), DebugPanicAction::Nothing);
    let c = LindLoggerConfig::with_log_path(String::from("/tmp/a.log"));
    assert!(matches!(c.output, LogOutput::File(ref p) if p == "/tmp/a.log"));
    assert!(matches!(c.panic_behavior, PanicBehavior::PanicAndExit));
    assert_eq!(c.enabled_categories, LogCategorySet::default_only());
}

#[test]
fn copy_checks() {
    assert_eq!(copy_type_from(0), Ok(CopyType::RawMemcpy));
    assert_eq!(copy_type_from(1), Ok(CopyType::Strncpy));
    assert_eq!(copy_type_from(7), Err(7));
    assert_eq!(_validate_len(10, 10), Ok(()));
    assert_eq!(_validate_len(11, 10), Err(ELINDAPIABORTED));
    assert_eq!(copy_data_precheck(3, 3, 100, 4, 0), CopyCheck::Reject);
    assert_eq!(copy_data_precheck(3, 4, 100, 0x1_0000_0000, 0), CopyCheck::Reject);
    assert_eq!(copy_data_precheck(3, 4, 0, 4, 0), CopyCheck::NeedsAllocation);
    assert_eq!(copy_data_precheck(3, 4, 100, 4, 0), CopyCheck::Memcpy);
    assert_eq!(copy_data_precheck(3, 4, 100, 4, 1), CopyCheck::Strncpy);
    assert_eq!(copy_data_precheck(3, 4, 100, 4, 2), CopyCheck::Reject);
    assert_eq!(_strlen_in_cage(b"ab\0cd", 5), Some(2));
    assert_eq!(_strlen_in_cage(b"abcd", 4), None);
    assert_eq!(strncpy_copy_len(Some(2), 10), 3);
    assert_eq!(strncpy_copy_len(Some(9), 10), 10);
    assert_eq!(strncpy_copy_len(None, 10), 10);
    assert!(copy_addresses_valid(1, 2, 3));
    assert!(!copy_addresses_valid(0, 2, 3));
    assert!(!copy_addresses_valid(u64::MAX, 2, 3));
}

#[test]
fn string_helpers() {
    assert!(str_eq("abc", "abc"));
    assert!(!str_eq("abc", "abd"));
    assert_eq!(trim_str("\t x y \n"), "x y");
    assert_eq!(strip_prefix_str("inet:80", "inet:"), Some("80"));
    assert_eq!(strip_prefix_str("unix:/a", "inet:"), None);
    assert_eq!(parse_u16("8080"), Some(8080));
    assert_eq!(parse_u16("+80"), Some(80));
    assert_eq!(parse_u16("0065535"), Some(65535));
    assert_eq!(parse_u16("65536"), None);
    assert_eq!(parse_u16(""), None);
    assert_eq!(parse_u16("+"), None);
    assert_eq!(parse_u16("-1"), None);
    assert_eq!(parse_u16("12a"), None);
    assert_eq!(parse_u16("99999999999999999999"), None);
}

#[test]
fn dylink_codes_and_clone_args() {
    assert_eq!(DylinkErrorCode::EOPEN.code(), 1);
    assert_eq!(DylinkErrorCode::ENOFOUND.code(), 7);
    assert_eq!(DylinkErrorCode::EINTERNAL.code(), 9);
    let c = CloneArgStruct::default();
    assert_eq!(c.flags, 0);
    assert_eq!(c.set_tid_size, 0);
}

#[test]
fn handler_dump_lists_every_entry() {
    let mut t = Threei::new();
    assert!(lind::handler_table::print_handler_table(&t.handlers).is_empty());
    assert_eq!(reg(&mut t, 0, 7, 34, 99, 11), 0);
    assert_eq!(reg(&mut t, WASMTIME_CAGEID, 7, 34, 98, 12), 0);
    assert_eq!(reg(&mut t, 0, 8, 1, 97, 13), 0);
    let mut got = lind::handler_table::print_handler_table(&t.handlers);
    got.sort_unstable();
    assert_eq!(
        got,
        vec![(7, 34, 7, 99, 11), (7, 34, WASMTIME_CAGEID, 98, 12), (8, 1, 8, 97, 13)]
    );
}

#[test]
fn logger_config_from_settings() {
    let base = LindLoggerConfig::with_log_path(String::from("/tmp/LIND.log"));
    let c = config_from_values(base, None, None, None).ok().unwrap();
    assert!(matches!(c.output, LogOutput::File(ref p) if p == "/tmp/LIND.log"));
    assert_eq!(c.enabled_categories, LogCategorySet::default_only());
    let base = LindLoggerConfig::with_log_path(String::from("/tmp/LIND.log"));
    let c = config_from_values(base, Some("stderr"), Some("all"), Some("log")).ok().unwrap();
    assert!(matches!(c.output, LogOutput::Stderr));
    assert_eq!(c.enabled_categories, LogCategorySet::all());
    assert!(matches!(c.panic_behavior, PanicBehavior::LogOnly));
    let base = LindLoggerConfig::with_log_path(String::from("/tmp/LIND.log"));
    match config_from_values(base, Some("stdout"), Some("x"), Some("bad")) {
        Err(LindLoggerInitError::InvalidConfig(m)) => assert_eq!(m, "unknown log category: 'x'"),
        _ => panic!("expected the category error"),
    }
    let base = LindLoggerConfig::with_log_path(String::from("/tmp/LIND.log"));
    match config_from_values(base, None, None, Some("bad")) {
        Err(LindLoggerInitError::InvalidConfig(m)) => assert_eq!(
            m,
            "unknown LIND_DEBUG_PANIC value: 'bad' (expected: panic, log, none)"
        ),
        _ => panic!("expected the panic error"),
    }
}

#[test]
fn logger_env_defaults_when_nothing_is_set() {
    let c = config_from_values(LindLoggerConfig::env_defaults(), None, None, None).ok().unwrap();
    assert!(matches!(c.output, LogOutput::Stderr));
    assert_eq!(c.enabled_categories, LogCategorySet::all());
    assert!(matches!(c.panic_behavior, PanicBehavior::PanicAndExit));
    let c = config_from_values(LindLoggerConfig::env_defaults(), None, Some("dylink"), None)
        .ok()
        .unwrap();
    assert!(matches!(c.output, LogOutput::Stderr));
    assert!(c.enabled_categories.contains(LogCategory::DYLINK));
    assert!(!c.enabled_categories.contains(LogCategory::Default));
}

#[test]
fn stack_arena_reports_last_change() {
    let mut a = StackArenaBases::new();
    assert_eq!(init_stack_arena_base(&mut a, 1, 0x1000), Ok(()));
    assert_eq!(fork_stack_arena_base_for_child(&mut a, 1, 4), Ok(()));
    assert_eq!(unset_stack_arena_base(&mut a, 1), Ok(()));
    assert_eq!(init_stack_arena_base(&mut a, 1, 0x3000), Ok(()));
    assert_eq!(init_stack_arena_base(&mut a, 4, 0x5000), Err(ERR_ALREADY_INITIALIZED));
    assert_eq!(get_stack_arena_base(&a, 1), Some(0x3000));
    assert_eq!(get_stack_arena_base(&a, 4), Some(0x1000));
    assert_eq!(get_stack_arena_base(&a, 9), None);
}

#[test]
fn log_and_debug_panic_lines() {
    assert_eq!(
        log_line(LogCategory::THREEI, "routed", "src/a.rs", 42, "threei"),
        "[LIND][THREEI][src/a.rs:42 threei] routed"
    );
    assert_eq!(
        debug_panic_line(false, "bad fd", "fs.rs", 7, "rawposix::fs"),
        "[LIND][DEBUG PANIC][fs.rs:7 rawposix::fs] bad fd"
    );
    assert_eq!(
        debug_panic_line(true, "bad fd", "fs.rs", 7, "rawposix::fs"),
        "[LIND][DEBUG PANIC continuing][fs.rs:7 rawposix::fs] bad fd"
    );
}
