use lind::bytequeue::{ReadStep, WriteStep};
use lind::consts::{
    AF_INET, AF_UNIX, FDKIND_IMPIPE, FDKIND_IMSOCK, IPPROTO_TCP, O_NONBLOCK, POLLERR, POLLIN,
    POLLNVAL, POLLOUT, SHUT_RD, SHUT_WR, SOCK_NONBLOCK, SOCK_STREAM, SOL_SOCKET, SO_ACCEPTCONN,
    SO_LINGER, SO_RCVBUF, SO_SNDBUF, SO_TYPE, TCP_NODELAY,
};
use lind::inmem_ipc::{
    accept_socket, bind_socket, close_fd, connect_socket, create_pipe, create_socket,
    fd_is_nonblocking, getpeername, getsockname, getsockopt, is_supported_socket, listen_socket,
    poll_fd, read, recvfrom, sendto, setsockopt, shutdown_socket, socket_capacity, sockaddr_key,
    socketpair, unix_path_is_bound, AcceptStep, FdEntry, InmemIpc, SockName, SockOptValue,
    MSG_DONTWAIT, read_retry, CANCEL_CHECK_INTERVAL,
};

fn pipe_fd(id: u64, nonblocking: bool) -> FdEntry {
    FdEntry {
        fdkind: FDKIND_IMPIPE,
        underfd: id,
        should_cloexec: false,
        perfdinfo: if nonblocking { O_NONBLOCK as u64 } else { 0 },
    }
}

fn sock_fd(id: u64, nonblocking: bool) -> FdEntry {
    FdEntry {
        fdkind: FDKIND_IMSOCK,
        underfd: id,
        should_cloexec: false,
        perfdinfo: if nonblocking { O_NONBLOCK as u64 } else { 0 },
    }
}

fn data_of(r: ReadStep) -> Vec<u8> {
    match r {
        ReadStep::Data(v) => v,
        ReadStep::Done(n) => panic!("read done with {}", n),
        ReadStep::Wait => panic!("read would wait"),
    }
}

fn done_read(r: ReadStep) -> i32 {
    match r {
        ReadStep::Done(n) => n,
        ReadStep::Data(v) => panic!("read gave {} bytes", v.len()),
        ReadStep::Wait => panic!("read would wait"),
    }
}

fn done_write(w: WriteStep) -> i32 {
    match w {
        WriteStep::Done(n) => n,
        WriteStep::Wait(n) => panic!("write waits after {}", n),
    }
}

#[test]
fn pipe_write_then_read_round_trips() {
    let mut ipc = InmemIpc::new();
    let (r, w) = create_pipe(&mut ipc);
    assert_eq!((r, w), (1, 2));
    assert_eq!(done_write(lind::inmem_ipc::write(&mut ipc, pipe_fd(w, false), b"hello", 0)), 5);
    assert_eq!(data_of(read(&mut ipc, pipe_fd(r, false), 3)), b"hel".to_vec());
    assert_eq!(data_of(read(&mut ipc, pipe_fd(r, false), 10)), b"lo".to_vec());
}

#[test]
fn pipe_empty_read_waits_or_eagain() {
    let mut ipc = InmemIpc::new();
    let (r, _w) = create_pipe(&mut ipc);
    assert!(matches!(read(&mut ipc, pipe_fd(r, false), 4), ReadStep::Wait));
    assert_eq!(done_read(read(&mut ipc, pipe_fd(r, true), 4)), -11);
    assert_eq!(done_read(read(&mut ipc, pipe_fd(r, false), 0)), 0);
}

#[test]
fn pipe_eof_after_writer_closed() {
    let mut ipc = InmemIpc::new();
    let (r, w) = create_pipe(&mut ipc);
    assert_eq!(done_write(lind::inmem_ipc::write(&mut ipc, pipe_fd(w, false), b"x", 0)), 1);
    assert_eq!(close_fd(&mut ipc, pipe_fd(w, false), 0), Ok(()));
    assert_eq!(data_of(read(&mut ipc, pipe_fd(r, false), 4)), b"x".to_vec());
    assert_eq!(done_read(read(&mut ipc, pipe_fd(r, false), 4)), 0);
    assert_eq!(done_read(read(&mut ipc, pipe_fd(r, true), 4)), 0);
}

#[test]
fn pipe_write_without_reader_is_epipe() {
    let mut ipc = InmemIpc::new();
    let (r, w) = create_pipe(&mut ipc);
    assert_eq!(close_fd(&mut ipc, pipe_fd(r, false), 0), Ok(()));
    assert_eq!(done_write(lind::inmem_ipc::write(&mut ipc, pipe_fd(w, false), b"x", 0)), -32);
}

#[test]
fn wrong_pipe_end_or_unknown_fd_is_ebadf() {
    let mut ipc = InmemIpc::new();
    let (r, w) = create_pipe(&mut ipc);
    assert_eq!(done_read(read(&mut ipc, pipe_fd(w, false), 4)), -9);
    assert_eq!(done_write(lind::inmem_ipc::write(&mut ipc, pipe_fd(r, false), b"x", 0)), -9);
    assert_eq!(done_read(read(&mut ipc, pipe_fd(77, false), 4)), -9);
    assert_eq!(done_read(read(&mut ipc, sock_fd(77, false), 4)), -9);
    let other = FdEntry { fdkind: 0, underfd: r, should_cloexec: false, perfdinfo: 0 };
    assert_eq!(done_read(read(&mut ipc, other, 4)), -9);
    assert_eq!(done_write(lind::inmem_ipc::write(&mut ipc, other, b"x", 0)), -9);
    assert_eq!(close_fd(&mut ipc, pipe_fd(77, false), 0), Ok(()));
}

#[test]
fn pipe_fills_to_capacity() {
    let mut ipc = InmemIpc::new();
    let (r, w) = create_pipe(&mut ipc);
    let big = vec![7u8; 70_000];
    assert_eq!(done_write(lind::inmem_ipc::write(&mut ipc, pipe_fd(w, true), &big, 0)), 65_536);
    assert_eq!(done_write(lind::inmem_ipc::write(&mut ipc, pipe_fd(w, true), &big, 0)), -11);
    match lind::inmem_ipc::write(&mut ipc, pipe_fd(w, false), &big, 0) {
        WriteStep::Wait(n) => assert_eq!(n, 0),
        WriteStep::Done(n) => panic!("unexpected done {}", n),
    }
    assert_eq!(data_of(read(&mut ipc, pipe_fd(r, false), 100_000)).len(), 65_536);
    match lind::inmem_ipc::write(&mut ipc, pipe_fd(w, false), &big, 0) {
        WriteStep::Wait(n) => assert_eq!(n, 65_536),
        WriteStep::Done(n) => panic!("unexpected done {}", n),
    }
}

#[test]
fn socketpair_carries_bytes_both_ways() {
    let mut ipc = InmemIpc::new();
    let (a, b) = socketpair(&mut ipc, AF_UNIX, SOCK_STREAM, 0);
    assert_eq!((a, b), (1, 2));
    assert_eq!(done_write(lind::inmem_ipc::write(&mut ipc, sock_fd(a, false), b"ping", 0)), 4);
    assert_eq!(data_of(read(&mut ipc, sock_fd(b, false), 64)), b"ping".to_vec());
    assert_eq!(done_write(sendto(&mut ipc, sock_fd(b, false), b"pong", 0, 0)), 4);
    assert_eq!(data_of(recvfrom(&mut ipc, sock_fd(a, false), 64, 0)), b"pong".to_vec());
    assert_eq!(done_read(recvfrom(&mut ipc, sock_fd(a, false), 64, MSG_DONTWAIT)), -11);
    assert!(matches!(read(&mut ipc, sock_fd(a, false), 64), ReadStep::Wait));
}

#[test]
fn bind_listen_connect_accept_and_talk() {
    let mut ipc = InmemIpc::new();
    let s = create_socket(&mut ipc, AF_UNIX, SOCK_STREAM, 0);
    assert_eq!(bind_socket(&mut ipc, s, String::from("unix:/tmp/srv")), 0);
    assert!(unix_path_is_bound(&ipc, "/tmp/srv"));
    assert!(!unix_path_is_bound(&ipc, "/tmp/other"));
    assert_eq!(listen_socket(&mut ipc, s, 5), 0);
    assert_eq!(listen_socket(&mut ipc, s, 5), 0);
    let c = create_socket(&mut ipc, AF_UNIX, SOCK_STREAM, 0);
    assert_eq!(connect_socket(&mut ipc, c, String::from("unix:/tmp/srv")), 0);
    assert_eq!(poll_fd(&ipc, sock_fd(s, false), POLLIN), POLLIN);
    let conn = match accept_socket(&mut ipc, sock_fd(s, true)) {
        AcceptStep::Done(Ok(id)) => id,
        _ => panic!("expected a connection"),
    };
    assert_eq!(conn, 3);
    match accept_socket(&mut ipc, sock_fd(s, true)) {
        AcceptStep::Done(Err(e)) => assert_eq!(e, -11),
        _ => panic!("expected EAGAIN"),
    }
    assert!(matches!(accept_socket(&mut ipc, sock_fd(s, false)), AcceptStep::Wait));
    assert_eq!(done_write(lind::inmem_ipc::write(&mut ipc, sock_fd(c, false), b"hi", 0)), 2);
    assert_eq!(data_of(read(&mut ipc, sock_fd(conn, false), 8)), b"hi".to_vec());
    assert_eq!(done_write(lind::inmem_ipc::write(&mut ipc, sock_fd(conn, false), b"yo", 0)), 2);
    assert_eq!(data_of(read(&mut ipc, sock_fd(c, false), 8)), b"yo".to_vec());
    match getsockname(&ipc, conn) {
        Ok(SockName::Unix(p)) => assert_eq!(p, b"/tmp/srv".to_vec()),
        _ => panic!("expected a unix name"),
    }
    match getpeername(&ipc, conn) {
        Ok(SockName::Unix(p)) => assert_eq!(p, b"@autobind3".to_vec()),
        _ => panic!("expected a unix peer"),
    }
    match getpeername(&ipc, c) {
        Ok(SockName::Unix(p)) => assert_eq!(p, b"/tmp/srv".to_vec()),
        _ => panic!("expected a unix peer"),
    }
}

#[test]
fn connect_without_listener_is_refused() {
    let mut ipc = InmemIpc::new();
    let c = create_socket(&mut ipc, AF_UNIX, SOCK_STREAM, 0);
    assert_eq!(connect_socket(&mut ipc, c, String::from("unix:/nobody")), -111);
    assert_eq!(connect_socket(&mut ipc, 99, String::from("unix:/nobody")), -9);
    match getpeername(&ipc, c) {
        Err(e) => assert_eq!(e, -107),
        _ => panic!("expected ENOTCONN"),
    }
}

#[test]
fn bind_refuses_key_in_use() {
    let mut ipc = InmemIpc::new();
    let s1 = create_socket(&mut ipc, AF_UNIX, SOCK_STREAM, 0);
    let s2 = create_socket(&mut ipc, AF_UNIX, SOCK_STREAM, 0);
    assert_eq!(bind_socket(&mut ipc, s1, String::from("unix:/a")), 0);
    assert_eq!(bind_socket(&mut ipc, s2, String::from("unix:/a")), -98);
    assert_eq!(bind_socket(&mut ipc, s1, String::from("unix:/a")), 0);
    assert_eq!(listen_socket(&mut ipc, s1, 1), 0);
    assert_eq!(bind_socket(&mut ipc, s2, String::from("unix:/a")), -98);
    assert_eq!(bind_socket(&mut ipc, 42, String::from("unix:/b")), -9);
    assert_eq!(close_fd(&mut ipc, sock_fd(s1, false), 0), Ok(()));
    assert!(!unix_path_is_bound(&ipc, "/a"));
    assert_eq!(bind_socket(&mut ipc, s2, String::from("unix:/a")), 0);
}

#[test]
fn inet_zero_binds_ephemeral_ports_counting_down() {
    let mut ipc = InmemIpc::new();
    let s1 = create_socket(&mut ipc, AF_INET, SOCK_STREAM, IPPROTO_TCP);
    let s2 = create_socket(&mut ipc, AF_INET, SOCK_STREAM, 0);
    assert_eq!(bind_socket(&mut ipc, s1, String::from("inet:0")), 0);
    assert_eq!(bind_socket(&mut ipc, s2, String::from("inet:0")), 0);
    match getsockname(&ipc, s1) {
        Ok(SockName::Inet(p)) => assert_eq!(p, 60_999),
        _ => panic!("expected an inet name"),
    }
    match getsockname(&ipc, s2) {
        Ok(SockName::Inet(p)) => assert_eq!(p, 60_998),
        _ => panic!("expected an inet name"),
    }
    let s3 = create_socket(&mut ipc, AF_INET, SOCK_STREAM, 0);
    match getsockname(&ipc, s3) {
        Ok(SockName::Inet(p)) => assert_eq!(p, 0),
        _ => panic!("expected an inet name"),
    }
    let s4 = create_socket(&mut ipc, 10, SOCK_STREAM, 0);
    match getsockname(&ipc, s4) {
        Err(e) => assert_eq!(e, -95),
        _ => panic!("expected EOPNOTSUPP"),
    }
}

#[test]
fn accept_on_non_listener_is_einval() {
    let mut ipc = InmemIpc::new();
    let s = create_socket(&mut ipc, AF_UNIX, SOCK_STREAM, 0);
    match accept_socket(&mut ipc, sock_fd(s, false)) {
        AcceptStep::Done(Err(e)) => assert_eq!(e, -22),
        _ => panic!("expected EINVAL"),
    }
    match accept_socket(&mut ipc, sock_fd(50, false)) {
        AcceptStep::Done(Err(e)) => assert_eq!(e, -9),
        _ => panic!("expected EBADF"),
    }
}

#[test]
fn shutdown_write_gives_epipe_and_peer_eof() {
    let mut ipc = InmemIpc::new();
    let (a, b) = socketpair(&mut ipc, AF_UNIX, SOCK_STREAM, 0);
    assert_eq!(shutdown_socket(&mut ipc, a, 9), -22);
    assert_eq!(shutdown_socket(&mut ipc, 77, SHUT_WR), -9);
    assert_eq!(shutdown_socket(&mut ipc, a, SHUT_WR), 0);
    assert_eq!(done_write(lind::inmem_ipc::write(&mut ipc, sock_fd(a, false), b"x", 0)), -32);
    assert_eq!(done_read(read(&mut ipc, sock_fd(b, false), 8)), 0);
    assert_eq!(poll_fd(&ipc, sock_fd(a, false), POLLOUT), POLLERR);
    assert_eq!(shutdown_socket(&mut ipc, b, SHUT_RD), 0);
    assert_eq!(done_read(read(&mut ipc, sock_fd(b, false), 8)), 0);
    assert_eq!(poll_fd(&ipc, sock_fd(b, false), POLLIN | POLLOUT), POLLIN);
}

#[test]
fn close_socket_ends_peer_stream() {
    let mut ipc = InmemIpc::new();
    let (a, b) = socketpair(&mut ipc, AF_UNIX, SOCK_STREAM, 0);
    assert_eq!(done_write(lind::inmem_ipc::write(&mut ipc, sock_fd(a, false), b"bye", 0)), 3);
    assert_eq!(close_fd(&mut ipc, sock_fd(a, false), 0), Ok(()));
    assert_eq!(data_of(read(&mut ipc, sock_fd(b, false), 8)), b"bye".to_vec());
    assert_eq!(done_read(read(&mut ipc, sock_fd(b, false), 8)), 0);
    assert_eq!(done_write(lind::inmem_ipc::write(&mut ipc, sock_fd(b, false), b"x", 0)), -32);
    assert_eq!(poll_fd(&ipc, sock_fd(b, false), POLLOUT), POLLERR);
}

#[test]
fn poll_pipes_and_unknown_fds() {
    let mut ipc = InmemIpc::new();
    let (r, w) = create_pipe(&mut ipc);
    assert_eq!(poll_fd(&ipc, pipe_fd(r, false), POLLIN), 0);
    assert_eq!(poll_fd(&ipc, pipe_fd(w, false), POLLOUT), POLLOUT);
    assert_eq!(poll_fd(&ipc, pipe_fd(w, false), POLLIN), 0);
    assert_eq!(done_write(lind::inmem_ipc::write(&mut ipc, pipe_fd(w, false), b"z", 0)), 1);
    assert_eq!(poll_fd(&ipc, pipe_fd(r, false), POLLIN | POLLOUT), POLLIN);
    assert_eq!(poll_fd(&ipc, pipe_fd(99, false), POLLIN), POLLNVAL);
    assert_eq!(poll_fd(&ipc, sock_fd(99, false), POLLIN), POLLNVAL);
    let other = FdEntry { fdkind: 0, underfd: 0, should_cloexec: false, perfdinfo: 0 };
    assert_eq!(poll_fd(&ipc, other, POLLIN), POLLNVAL);
    assert_eq!(close_fd(&mut ipc, pipe_fd(r, false), 0), Ok(()));
    assert_eq!(poll_fd(&ipc, pipe_fd(w, false), POLLOUT), POLLERR);
}

#[test]
fn socket_options_set_and_get() {
    let mut ipc = InmemIpc::new();
    let s = create_socket(&mut ipc, AF_UNIX, SOCK_STREAM | SOCK_NONBLOCK, 0);
    let le = |v: i32| v.to_le_bytes().to_vec();
    assert_eq!(getsockopt(&ipc, s, SOL_SOCKET, SO_SNDBUF, Some(4)), Ok(SockOptValue::Int(212_992)));
    assert_eq!(setsockopt(&mut ipc, s, SOL_SOCKET, SO_SNDBUF, Some(&le(1000))), 0);
    assert_eq!(getsockopt(&ipc, s, SOL_SOCKET, SO_SNDBUF, Some(4)), Ok(SockOptValue::Int(1872)));
    assert_eq!(setsockopt(&mut ipc, s, SOL_SOCKET, SO_SNDBUF, Some(&le(i32::MAX))), 0);
    assert_eq!(
        getsockopt(&ipc, s, SOL_SOCKET, SO_SNDBUF, Some(4)),
        Ok(SockOptValue::Int(i32::MAX - 128))
    );
    assert_eq!(setsockopt(&mut ipc, s, SOL_SOCKET, SO_RCVBUF, Some(&le(-5))), 0);
    assert_eq!(getsockopt(&ipc, s, SOL_SOCKET, SO_RCVBUF, Some(4)), Ok(SockOptValue::Int(1)));
    let mut lb = le(1);
    lb.extend(le(5));
    assert_eq!(setsockopt(&mut ipc, s, SOL_SOCKET, SO_LINGER, Some(&lb)), 0);
    assert_eq!(getsockopt(&ipc, s, SOL_SOCKET, SO_LINGER, Some(8)), Ok(SockOptValue::Linger(1, 5)));
    assert_eq!(getsockopt(&ipc, s, SOL_SOCKET, SO_LINGER, Some(4)), Err(-22));
    assert_eq!(setsockopt(&mut ipc, s, SOL_SOCKET, SO_LINGER, Some(&le(1))), -92);
    assert_eq!(setsockopt(&mut ipc, s, IPPROTO_TCP, TCP_NODELAY, Some(&le(1))), 0);
    assert_eq!(getsockopt(&ipc, s, IPPROTO_TCP, TCP_NODELAY, Some(4)), Ok(SockOptValue::Int(1)));
    assert_eq!(getsockopt(&ipc, s, SOL_SOCKET, SO_TYPE, Some(4)), Ok(SockOptValue::Int(SOCK_STREAM)));
    assert_eq!(getsockopt(&ipc, s, SOL_SOCKET, SO_ACCEPTCONN, Some(4)), Ok(SockOptValue::Int(0)));
    assert_eq!(listen_socket(&mut ipc, s, 1), 0);
    assert_eq!(getsockopt(&ipc, s, SOL_SOCKET, SO_ACCEPTCONN, Some(4)), Ok(SockOptValue::Int(1)));
    assert_eq!(getsockopt(&ipc, s, SOL_SOCKET, 999, Some(4)), Err(-92));
    assert_eq!(getsockopt(&ipc, s, SOL_SOCKET, SO_TYPE, None), Err(-14));
    assert_eq!(getsockopt(&ipc, 77, SOL_SOCKET, SO_TYPE, Some(4)), Err(-9));
    assert_eq!(setsockopt(&mut ipc, s, SOL_SOCKET, SO_SNDBUF, None), -14);
    assert_eq!(setsockopt(&mut ipc, 77, SOL_SOCKET, SO_SNDBUF, Some(&le(1))), -9);
    assert_eq!(setsockopt(&mut ipc, s, 99, 99, Some(&le(1))), -92);
}

#[test]
fn send_limit_follows_send_buffer() {
    let mut ipc = InmemIpc::new();
    let (a, b) = socketpair(&mut ipc, AF_UNIX, SOCK_STREAM, 0);
    assert_eq!(setsockopt(&mut ipc, a, SOL_SOCKET, SO_SNDBUF, Some(&100i32.to_le_bytes())), 0);
    let big = vec![1u8; 500];
    assert_eq!(done_write(sendto(&mut ipc, sock_fd(a, false), &big, 0, MSG_DONTWAIT)), 72);
    assert_eq!(done_write(sendto(&mut ipc, sock_fd(a, false), &big, 0, MSG_DONTWAIT)), -11);
    assert_eq!(data_of(read(&mut ipc, sock_fd(b, false), 1000)).len(), 72);
}

#[test]
fn sockaddr_keys_from_bytes() {
    let mut un = vec![1u8, 0];
    un.extend_from_slice(b"/tmp/x\0");
    match sockaddr_key(Some(&un), 9) {
        Some((f, k)) => {
            assert_eq!(f, AF_UNIX);
            assert_eq!(k, "unix:/tmp/x");
        }
        None => panic!("expected a unix key"),
    }
    let abs = vec![1u8, 0, 0, b'a', b'b'];
    match sockaddr_key(Some(&abs), 5) {
        Some((_, k)) => assert_eq!(k, "unix:@ab"),
        None => panic!("expected an abstract key"),
    }
    let inet = vec![2u8, 0, 0x1f, 0x90, 127, 0, 0, 7];
    match sockaddr_key(Some(&inet), 16) {
        Some((f, k)) => {
            assert_eq!(f, AF_INET);
            assert_eq!(k, "unix:tmp/loopback8080");
        }
        None => panic!("expected an inet key"),
    }
    let any = vec![2u8, 0, 0, 80, 0, 0, 0, 0];
    assert_eq!(sockaddr_key(Some(&any), 16).map(|(_, k)| k), Some(String::from("unix:tmp/loopback80")));
    let far = vec![2u8, 0, 0, 80, 10, 0, 0, 1];
    assert!(sockaddr_key(Some(&far), 16).is_none());
    assert!(sockaddr_key(None, 16).is_none());
    assert!(sockaddr_key(Some(&un), 1).is_none());
    assert!(sockaddr_key(Some(&un), 2).is_none());
    let other = vec![10u8, 0, 1, 2];
    assert!(sockaddr_key(Some(&other), 4).is_none());
}

#[test]
fn socket_kind_helpers() {
    assert!(is_supported_socket(AF_UNIX, SOCK_STREAM | SOCK_NONBLOCK, 0));
    assert!(is_supported_socket(AF_INET, SOCK_STREAM, IPPROTO_TCP));
    assert!(!is_supported_socket(AF_INET, 2, 0));
    assert!(!is_supported_socket(10, SOCK_STREAM, 0));
    assert!(!is_supported_socket(AF_INET, SOCK_STREAM, 17));
    assert_eq!(socket_capacity(AF_UNIX), 212_992);
    assert_eq!(socket_capacity(10), 65_536);
    assert!(fd_is_nonblocking(pipe_fd(1, true)));
    assert!(!fd_is_nonblocking(pipe_fd(1, false)));
}

#[test]
fn blocking_read_gives_up_after_interval() {
    assert_eq!(read_retry(0), Ok(1));
    assert_eq!(read_retry(CANCEL_CHECK_INTERVAL - 1), Ok(CANCEL_CHECK_INTERVAL));
    assert_eq!(read_retry(CANCEL_CHECK_INTERVAL), Err(-11));
}
