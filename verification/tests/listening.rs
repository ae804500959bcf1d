use tarantool_tcp::accept::{AcceptPoll, AttemptEnd};
use tarantool_tcp::addr::{SockAddrIn, SockAddrIn6};
use tarantool_tcp::error::{kind_of, Error, ErrorKind, OsError};
use tarantool_tcp::listener::TcpListener;
use tarantool_tcp::platform::{Os, Platform};
use tarantool_tcp::progress::Progress;
use tarantool_tcp::resolve::{AddrEntry, EntryAddr, LookupError};
use tarantool_tcp::stream::TcpStream;
use tarantool_tcp::syscall::{AutoCloseFd, Reply, Syscall};

fn linux() -> Platform {
    Platform::new(Os::Linux {
        sock_cloexec: libc::SOCK_CLOEXEC,
        sock_nonblock: libc::SOCK_NONBLOCK,
    })
}

fn macos() -> Platform {
    Platform::new(Os::MacOs { fioclex: 1, so_nosigpipe: 2, fionbio: 3 })
}

fn entry4() -> AddrEntry {
    AddrEntry {
        family: libc::AF_INET,
        addr: EntryAddr::In(SockAddrIn {
            sin_family: 2,
            sin_port: [0, 0],
            sin_addr: [127, 0, 0, 1],
            sin_zero: [0; 8],
        }),
    }
}

fn entry6() -> AddrEntry {
    AddrEntry {
        family: libc::AF_INET6,
        addr: EntryAddr::In6(SockAddrIn6 {
            sin6_family: 10,
            sin6_port: [0, 0],
            sin6_flowinfo: 0,
            sin6_addr: [0; 16],
            sin6_scope_id: 0,
        }),
    }
}

fn ok(ret: i32) -> Reply {
    Reply { ret, errno: 0, value: 0 }
}

fn failed(errno: i32) -> Reply {
    Reply { ret: -1, errno, value: 0 }
}

/// Names the call and the descriptor or the family that it is about.
fn name(call: &Syscall) -> String {
    match call {
        Syscall::Socket { domain, .. } => format!("socket {}", domain),
        Syscall::Bind { fd, .. } => format!("bind {}", fd),
        Syscall::Connect { fd, .. } => format!("connect {}", fd),
        Syscall::Listen { fd, backlog } => format!("listen {} {}", fd, backlog),
        Syscall::Accept { fd } => format!("accept {}", fd),
        Syscall::Accept4 { fd, .. } => format!("accept4 {}", fd),
        Syscall::SetSockOpt(set) => format!("set {} {}", set.fd, set.name),
        Syscall::GetSockOpt { fd, .. } => format!("get {}", fd),
        Syscall::Ioctl { fd, request, .. } => format!("ioctl {} {}", fd, request),
        Syscall::Close { fd } => format!("close {}", fd),
    }
}

fn run_bind(
    host: &str,
    port: u16,
    lookup: Result<Vec<AddrEntry>, LookupError>,
    platform: &Platform,
    replies: &[Reply],
) -> (Vec<String>, Result<TcpListener, Error>) {
    let mut made: Vec<String> = Vec::new();
    let mut next = 0;
    let mut progress = TcpListener::bind(host, port, &lookup, platform);
    loop {
        match progress {
            Progress::Pending { call, state } => {
                made.push(name(&call));
                progress = state.resume(&replies[next]);
                next += 1;
            }
            Progress::Complete(result) => {
                assert_eq!(next, replies.len());
                return (made, result);
            }
        }
    }
}

fn listener(fd: i32) -> TcpListener {
    TcpListener { connections_stream: TcpStream { fd: Some(fd) } }
}

fn run_accept(fd: i32, platform: &Platform, replies: &[Reply]) -> (Vec<String>, AcceptPoll) {
    let waiting = listener(fd).accept(platform).unwrap();
    let mut made: Vec<String> = Vec::new();
    let mut next = 0;
    let mut progress = waiting.poll();
    loop {
        match progress {
            Progress::Pending { call, state } => {
                made.push(name(&call));
                progress = state.resume(&replies[next]);
                next += 1;
            }
            Progress::Complete(end) => {
                assert_eq!(next, replies.len());
                return (made, waiting.finish(end));
            }
        }
    }
}

#[test]
fn bind() {
    let replies = [ok(3), ok(0), ok(0), ok(0)];
    let (calls, result) = run_bind("localhost", 0, Ok(vec![entry4()]), &linux(), &replies);
    let _ = result.unwrap();
    let listen = format!("listen 3 {}", libc::SOMAXCONN);
    assert_eq!(calls, vec!["socket 2", "bind 3", "set 3 2", listen.as_str()]);
}

#[test]
fn first_address_that_works() {
    let found = Ok(vec![entry6(), entry4()]);
    let replies = [ok(3), failed(98), ok(0), ok(4), ok(0), ok(0), ok(0)];
    let (calls, result) = run_bind("localhost", 18899, found, &linux(), &replies);
    assert_eq!(result, Ok(listener(4)));
    let listen = format!("listen 4 {}", libc::SOMAXCONN);
    assert_eq!(
        calls,
        vec![
            "socket 2",
            "bind 3",
            "close 3",
            "socket 10",
            "bind 4",
            "set 4 2",
            listen.as_str()
        ]
    );
}

#[test]
fn last_error_counts() {
    let found = Ok(vec![entry4(), entry6()]);
    let replies = [failed(24), ok(3), failed(98), ok(0)];
    let (_, result) = run_bind("localhost", 18899, found, &linux(), &replies);
    assert_eq!(
        result,
        Err(Error::Bind {
            error: OsError { code: 98 },
            address: "localhost:18899".to_string()
        })
    );
}

#[test]
fn failed_listen_keeps_the_socket() {
    let replies = [ok(3), ok(0), ok(0), failed(95)];
    let (calls, result) = run_bind("localhost", 1, Ok(vec![entry4()]), &linux(), &replies);
    assert_eq!(calls.len(), 4);
    assert_eq!(
        result,
        Err(Error::Bind { error: OsError { code: 95 }, address: "localhost:1".to_string() })
    );
}

#[test]
fn bind_on_macos() {
    let replies = [ok(3), ok(0), ok(0), ok(0), ok(0), ok(0), ok(0)];
    let (calls, result) = run_bind("localhost", 1, Ok(vec![entry4()]), &macos(), &replies);
    assert_eq!(result, Ok(listener(3)));
    assert_eq!(calls[1..4], ["ioctl 3 1", "set 3 2", "ioctl 3 3"]);
}

#[test]
fn nothing_to_bind_to() {
    let (calls, result) = run_bind("localhost", 18899, Ok(vec![]), &linux(), &[]);
    assert_eq!(result, Err(Error::ResolveAddress("localhost:18899".to_string())));
    assert_eq!(calls.len(), 0);
    let failure = Err(LookupError::Other);
    let (_, result) = run_bind("localhost", 18899, failure, &linux(), &[]);
    assert_eq!(result, Err(Error::ResolveAddress("localhost".to_string())));
    let timeout = Err(LookupError::Io(ErrorKind::TimedOut));
    let (_, result) = run_bind("localhost", 18899, timeout, &linux(), &[]);
    assert_eq!(result, Err(Error::Timeout));
}

#[test]
fn bind_comes_to_an_end() {
    let mut progress = TcpListener::bind("h", 1, &Ok(vec![entry4(), entry6()]), &macos());
    let mut taken = 0;
    while let Progress::Pending { state, .. } = progress {
        progress = state.resume(&failed(1));
        taken += 1;
    }
    assert!(taken <= 16);
}

#[test]
fn a_connection_is_taken() {
    let (calls, poll) = run_accept(3, &linux(), &[ok(0), ok(5)]);
    assert_eq!(poll, AcceptPoll::Ready(Ok(TcpStream { fd: Some(5) })));
    assert_eq!(calls, vec!["get 3", "accept4 3"]);
    let replies = [ok(0), ok(5), ok(0), ok(0), ok(0)];
    let (calls, poll) = run_accept(3, &macos(), &replies);
    assert_eq!(poll, AcceptPoll::Ready(Ok(TcpStream { fd: Some(5) })));
    assert_eq!(calls, vec!["get 3", "accept 3", "ioctl 5 1", "set 5 2", "ioctl 5 3"]);
}

#[test]
fn nothing_to_accept_yet() {
    for code in [libc::EAGAIN, libc::EWOULDBLOCK] {
        let (calls, poll) = run_accept(3, &linux(), &[ok(0), failed(code)]);
        assert_eq!(poll, AcceptPoll::Pending { fd: 3 });
        assert_eq!(calls, vec!["get 3", "accept4 3"]);
    }
}

#[test]
fn accept_fails() {
    for code in [libc::EMFILE, libc::ECONNABORTED, libc::ETIMEDOUT] {
        let (calls, poll) = run_accept(3, &linux(), &[ok(0), failed(code)]);
        assert_eq!(poll, AcceptPoll::Ready(Err(Error::Accept { error: OsError { code } })));
        assert_eq!(calls, vec!["get 3", "accept4 3"]);
    }
}

#[test]
fn socket_error_closes_the_listener() {
    let pending = Reply { ret: 0, errno: 0, value: libc::EAGAIN };
    let (calls, poll) = run_accept(3, &linux(), &[pending, failed(9)]);
    assert_eq!(
        poll,
        AcceptPoll::Ready(Err(Error::Accept { error: OsError { code: libc::EAGAIN } }))
    );
    assert_eq!(calls, vec!["get 3", "close 3"]);
    let (calls, poll) = run_accept(3, &linux(), &[failed(9), ok(0)]);
    assert_eq!(poll, AcceptPoll::Ready(Err(Error::Accept { error: OsError { code: 9 } })));
    assert_eq!(calls, vec!["get 3", "close 3"]);
}

#[test]
fn kinds_decide_about_waiting() {
    let waiting = listener(3).accept(&linux()).unwrap();
    let error = OsError { code: 11 };
    let blocked = AttemptEnd::AcceptError(error);
    assert_eq!(
        waiting.finish_with_kind(blocked, ErrorKind::WouldBlock),
        AcceptPoll::Pending { fd: 3 }
    );
    let failed = AttemptEnd::AcceptError(error);
    assert_eq!(
        waiting.finish_with_kind(failed, ErrorKind::TimedOut),
        AcceptPoll::Ready(Err(Error::Accept { error }))
    );
    let taken = AttemptEnd::Connected(AutoCloseFd::new(4));
    assert_eq!(
        waiting.finish_with_kind(taken, ErrorKind::WouldBlock),
        AcceptPoll::Ready(Ok(TcpStream { fd: Some(4) }))
    );
}

#[test]
fn a_closed_listener_accepts_nothing() {
    let closed = TcpListener { connections_stream: TcpStream { fd: None } };
    assert_eq!(closed.accept(&linux()).unwrap_err(), Error::AlreadyClosed);
    assert_eq!(closed.connections_stream.fd(), Err(Error::AlreadyClosed));
}

#[test]
fn kinds_of_error_numbers() {
    assert_eq!(kind_of(libc::EAGAIN), ErrorKind::WouldBlock);
    assert_eq!(kind_of(libc::ETIMEDOUT), ErrorKind::TimedOut);
    assert_eq!(kind_of(libc::EMFILE), ErrorKind::Other);
}

#[test]
fn several_polls() {
    let blocked = [ok(0), failed(libc::EAGAIN)];
    for _ in 0..3 {
        let (calls, poll) = run_accept(3, &linux(), &blocked);
        assert_eq!(poll, AcceptPoll::Pending { fd: 3 });
        assert_eq!(calls, vec!["get 3", "accept4 3"]);
    }
    let (calls, poll) = run_accept(3, &linux(), &[ok(0), ok(8)]);
    assert_eq!(poll, AcceptPoll::Ready(Ok(TcpStream { fd: Some(8) })));
    assert_eq!(calls, vec!["get 3", "accept4 3"]);
}

#[test]
fn every_v4_address_before_v6() {
    let found = Ok(vec![entry6(), entry4(), entry6(), entry4()]);
    let replies = [failed(1), failed(2), failed(3), failed(4)];
    let (calls, result) = run_bind("localhost", 7, found, &linux(), &replies);
    assert_eq!(calls, vec!["socket 2", "socket 2", "socket 10", "socket 10"]);
    assert_eq!(
        result,
        Err(Error::Bind { error: OsError { code: 4 }, address: "localhost:7".to_string() })
    );
}

#[test]
fn failed_setup_closes_the_connection_only() {
    let replies = [ok(0), ok(5), ok(0), failed(22), ok(0)];
    let (calls, poll) = run_accept(3, &macos(), &replies);
    assert_eq!(calls, vec!["get 3", "accept 3", "ioctl 5 1", "set 5 2", "close 5"]);
    assert_eq!(poll, AcceptPoll::Ready(Err(Error::Accept { error: OsError { code: 22 } })));
}
