use lind::memcalls::{
    fcntl_action, fcntl_fd_check, mmap_args_check, shmat_check, mmap_fd, mmap_final_flags, mmap_flags_supported, mmap_maxprot,
    mmap_range_check, munmap_check, pipe2_flags, prot_requests_exec, shm_prot, FcntlAction,
    F_DUPFD, F_DUPFD_CLOEXEC, F_GETFD, F_GETLK, F_GETOWN, F_SETFD, F_SETOWN, MAP_ANONYMOUS,
    MAP_FIXED, MAP_PRIVATE, MAP_SHARED, O_CLOEXEC, PROT_EXEC, PROT_READ, PROT_WRITE, SHM_RDONLY,
};
use lind::consts::O_NONBLOCK;
use lind::waitpid::{
    sanitize_waitpid_child_selector, waitpid_after_yield, waitpid_check_child, waitpid_first_look,
    waitpid_start, waitpid_take,
    WaitpidChildSelector, WaitpidStep, Zombie, WNOHANG,
};

fn z(cageid: u64, exit_code: i32) -> Zombie {
    Zombie { cageid, exit_code }
}

#[test]
fn waitpid_selector_and_start() {
    assert_eq!(sanitize_waitpid_child_selector(-1), WaitpidChildSelector::AnyChild);
    assert_eq!(sanitize_waitpid_child_selector(0), WaitpidChildSelector::AnyChild);
    assert_eq!(sanitize_waitpid_child_selector(5), WaitpidChildSelector::SpecificChild(5));
    assert_eq!(waitpid_start(&vec![], 0), Err(-10));
    assert_eq!(waitpid_start(&vec![], 1), Ok(()));
    assert_eq!(waitpid_start(&vec![z(3, 0)], 0), Ok(()));
}

#[test]
fn waitpid_any_reaps_oldest_first() {
    let mut zs = vec![z(3, 1), z(4, 2), z(3, 5)];
    assert_eq!(waitpid_take(&mut zs, WaitpidChildSelector::AnyChild, 0), WaitpidStep::Reaped(z(3, 1)));
    assert_eq!(waitpid_take(&mut zs, WaitpidChildSelector::AnyChild, 0), WaitpidStep::Reaped(z(4, 2)));
    assert_eq!(zs, vec![z(3, 5)]);
    zs.clear();
    assert_eq!(waitpid_take(&mut zs, WaitpidChildSelector::AnyChild, WNOHANG), WaitpidStep::Return(0));
    assert_eq!(waitpid_take(&mut zs, WaitpidChildSelector::AnyChild, 0), WaitpidStep::Wait);
}

#[test]
fn waitpid_specific_reaps_its_first_entry() {
    let mut zs = vec![z(3, 1), z(4, 2), z(4, 7)];
    assert_eq!(
        waitpid_take(&mut zs, WaitpidChildSelector::SpecificChild(4), 0),
        WaitpidStep::Reaped(z(4, 2))
    );
    assert_eq!(zs, vec![z(3, 1), z(4, 7)]);
    assert_eq!(waitpid_take(&mut zs, WaitpidChildSelector::SpecificChild(9), WNOHANG), WaitpidStep::Return(0));
    assert_eq!(waitpid_take(&mut zs, WaitpidChildSelector::SpecificChild(9), 0), WaitpidStep::Wait);
    assert_eq!(zs.len(), 2);
    assert_eq!(waitpid_check_child(None, 1), Err(-10));
    assert_eq!(waitpid_check_child(Some(2), 1), Err(-10));
    assert_eq!(waitpid_check_child(Some(1), 1), Ok(()));
}

#[test]
fn mmap_argument_checks() {
    assert!(mmap_flags_supported(MAP_PRIVATE | MAP_ANONYMOUS | MAP_FIXED));
    assert!(!mmap_flags_supported(MAP_PRIVATE | 0x100));
    assert!(prot_requests_exec(PROT_READ | PROT_EXEC));
    assert!(!prot_requests_exec(PROT_READ | PROT_WRITE));
    assert_eq!(mmap_range_check(0x2000, 0), Ok(()));
    assert_eq!(mmap_range_check(0x2001, 0), Err(-22));
    assert_eq!(mmap_range_check(0x2000, -4096), Err(-22));
    assert_eq!(mmap_range_check(0x2000, 100), Err(-22));
    assert_eq!(mmap_final_flags(MAP_PRIVATE), Ok(MAP_PRIVATE | MAP_FIXED));
    assert_eq!(mmap_final_flags(MAP_SHARED | MAP_ANONYMOUS), Ok(MAP_SHARED | MAP_ANONYMOUS | MAP_FIXED));
    assert_eq!(mmap_final_flags(MAP_ANONYMOUS), Err(-22));
    assert_eq!(mmap_final_flags(MAP_PRIVATE | MAP_SHARED), Err(-22));
    assert_eq!(mmap_fd(MAP_PRIVATE | MAP_ANONYMOUS, 5), -1);
    assert_eq!(mmap_fd(MAP_PRIVATE, 5), 5);
    assert_eq!(mmap_maxprot(-1), Err(-22));
    assert_eq!(mmap_maxprot(2), Ok(PROT_WRITE));
    assert_eq!(munmap_check(0x1000, 0), Err(-22));
    assert_eq!(munmap_check(0x1001, 10), Err(-22));
    assert_eq!(munmap_check(0x1000, 10), Ok(()));
}

#[test]
fn pipe2_shm_and_fcntl_decisions() {
    assert_eq!(pipe2_flags(0), Ok(false));
    assert_eq!(pipe2_flags(O_CLOEXEC | O_NONBLOCK), Ok(true));
    assert_eq!(pipe2_flags(1), Err(-22));
    assert_eq!(shm_prot(SHM_RDONLY), PROT_READ);
    assert_eq!(shm_prot(0), PROT_READ | PROT_WRITE);
    assert_eq!(fcntl_action(F_DUPFD, 10), FcntlAction::DupFd { start: 10, cloexec: false });
    assert_eq!(fcntl_action(F_DUPFD_CLOEXEC, 3), FcntlAction::DupFd { start: 3, cloexec: true });
    assert_eq!(fcntl_action(F_GETFD, 0), FcntlAction::GetFd);
    assert_eq!(fcntl_action(F_SETFD, 1), FcntlAction::SetFd { cloexec: true });
    assert_eq!(fcntl_action(F_GETOWN, 0), FcntlAction::GetOwn);
    assert_eq!(fcntl_action(F_SETOWN, 4), FcntlAction::SetOwn);
    assert_eq!(fcntl_action(F_SETOWN, -4), FcntlAction::Kernel { lock: false });
    assert_eq!(fcntl_action(F_GETLK, 0), FcntlAction::Kernel { lock: true });
    assert_eq!(fcntl_action(3, 0), FcntlAction::Kernel { lock: false });
    assert_eq!(fcntl_fd_check(1024), Ok(()));
    assert_eq!(fcntl_fd_check(1025), Err(-9));
}

#[test]
fn unix_sockaddr_path_moves_under_root() {
    let mut addr = vec![0u8; 110];
    addr[0] = 1;
    addr[2..7].copy_from_slice(b"/sock");
    let out = lind::netcalls::prefix_unix_sockaddr(&addr, b"/lind/root");
    assert_eq!(out.len(), 110);
    assert_eq!(&out[0..2], &[1u8, 0]);
    assert_eq!(&out[2..17], b"/lind/root/sock");
    assert!(out[17..].iter().all(|b| *b == 0));
    let mut inet = vec![0u8; 110];
    inet[0] = 2;
    inet[2] = 7;
    assert_eq!(lind::netcalls::prefix_unix_sockaddr(&inet, b"/lind/root"), inet);
    let mut long = vec![b'a'; 110];
    long[0] = 1;
    long[1] = 0;
    assert_eq!(lind::netcalls::prefix_unix_sockaddr(&long, b"/r"), long);
    let mut fits = vec![0u8; 110];
    fits[0] = 1;
    for b in fits[2..107].iter_mut() {
        *b = b'x';
    }
    assert_eq!(lind::netcalls::prefix_unix_sockaddr(&fits, b"/rr"), fits);
    assert_eq!(lind::netcalls::prefix_unix_sockaddr(&fits, b"/"), {
        let mut e = vec![1u8, 0, b'/'];
        e.extend(std::iter::repeat(b'x').take(105));
        e.extend([0u8, 0]);
        e
    });
}

#[test]
fn sockaddr_copies_by_family() {
    use_unix();
    use_inet();
}

fn use_unix() {
    let a = lind::netcalls::SockAddr::new_unix();
    assert_eq!(a.sun_family, 1);
    assert_eq!(a.get_len(), 110);
    assert!(a.sun_path.iter().all(|b| *b == 0));
    assert_eq!(lind::netcalls::SockAddr::new_ipv4().get_len(), 16);
    assert_eq!(lind::netcalls::SockAddr::new_ipv6().get_len(), 28);
    let mut raw = vec![1u8, 0];
    raw.extend_from_slice(b"/p");
    raw.resize(110, 0);
    let c = lind::netcalls::SockAddr::clone_to_sockaddr(Some(&raw));
    assert_eq!(c.sun_family, 1);
    assert_eq!(c.sun_path[0], b'/' as i8);
    assert_eq!(c.sun_path[1], b'p' as i8);
    let n = lind::netcalls::SockAddr::clone_to_sockaddr(None);
    assert_eq!(n.sun_family, 0);
    assert_eq!(n.get_len(), 0);
}

fn use_inet() {
    let raw = vec![2u8, 0, 0x1f, 0x90, 127, 0, 0, 1, 9, 9, 9, 9, 9, 9, 9, 9, 5, 5];
    let c = lind::netcalls::SockAddr::clone_to_sockaddr(Some(&raw));
    assert_eq!(c.sun_family, 2);
    assert_eq!(c.sun_path[0], 0x1f);
    assert_eq!(c.sun_path[13], 9);
    assert_eq!(c.sun_path[14], 0);
    assert_eq!(c.get_len(), 16);
}

#[test]
fn mmap_args_checked_in_order() {
    assert_eq!(mmap_args_check(MAP_PRIVATE | MAP_ANONYMOUS, PROT_READ | PROT_WRITE, 0, 0), Ok(()));
    assert_eq!(mmap_args_check(MAP_PRIVATE, PROT_READ | PROT_EXEC, 0, 0), Err(-22));
    assert_eq!(mmap_args_check(0x40000, PROT_READ, 0, 0), Err(-22));
    assert_eq!(mmap_args_check(MAP_SHARED, PROT_READ, 4097, 0), Err(-22));
    assert_eq!(mmap_args_check(MAP_SHARED, PROT_READ, 4096, -4096), Err(-22));
    assert_eq!(mmap_args_check(MAP_SHARED, PROT_READ, 8192, 4096), Ok(()));
}

#[test]
fn waitpid_first_look_and_retry() {
    let mut zs: Vec<Zombie> = vec![];
    assert_eq!(
        waitpid_first_look(&mut zs, 0, WaitpidChildSelector::AnyChild, 0, None, 1),
        WaitpidStep::Return(-10)
    );
    assert_eq!(
        waitpid_first_look(&mut zs, 1, WaitpidChildSelector::AnyChild, WNOHANG, None, 1),
        WaitpidStep::Return(0)
    );
    // a live child that has not exited: WNOHANG returns 0, otherwise wait
    assert_eq!(
        waitpid_first_look(&mut zs, 1, WaitpidChildSelector::SpecificChild(5), WNOHANG, Some(1), 1),
        WaitpidStep::Return(0)
    );
    assert_eq!(
        waitpid_first_look(&mut zs, 1, WaitpidChildSelector::SpecificChild(5), 0, Some(1), 1),
        WaitpidStep::Wait
    );
    // not our child, or no such cage
    assert_eq!(
        waitpid_first_look(&mut zs, 1, WaitpidChildSelector::SpecificChild(5), WNOHANG, Some(2), 1),
        WaitpidStep::Return(-10)
    );
    assert_eq!(
        waitpid_first_look(&mut zs, 1, WaitpidChildSelector::SpecificChild(5), 0, None, 1),
        WaitpidStep::Return(-10)
    );
    assert_eq!(waitpid_after_yield(&mut zs, WaitpidChildSelector::SpecificChild(5), true), WaitpidStep::Return(-4));
    assert_eq!(waitpid_after_yield(&mut zs, WaitpidChildSelector::AnyChild, false), WaitpidStep::Wait);
    zs.push(z(5, 3));
    assert_eq!(
        waitpid_after_yield(&mut zs, WaitpidChildSelector::SpecificChild(5), true),
        WaitpidStep::Reaped(z(5, 3))
    );
    assert!(zs.is_empty());
}

#[test]
fn shmat_checks_and_rounds() {
    assert_eq!(shmat_check(None, 0), Err(-22));
    assert_eq!(shmat_check(Some(100), 4097), Err(-22));
    assert_eq!(shmat_check(Some(100), 0), Ok(4096));
    assert_eq!(shmat_check(Some(8192), 8192), Ok(8192));
    assert_eq!(shmat_check(Some(0), 0), Ok(0));
    assert_eq!(shmat_check(Some(u32::MAX), 0), Ok(0x1_0000_0000));
}

#[test]
fn decimal_digits() {
    assert_eq!(lind::strings::decimal(0), "0");
    assert_eq!(lind::strings::decimal(7), "7");
    assert_eq!(lind::strings::decimal(10), "10");
    assert_eq!(lind::strings::decimal(60999), "60999");
    assert_eq!(lind::strings::decimal(u64::MAX), "18446744073709551615");
}
