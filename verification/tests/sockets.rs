use tarantool_tcp::addr::{AddrInfo, SockAddr, SockAddrIn};
use tarantool_tcp::error::OsError;
use tarantool_tcp::plan::Plan;
use tarantool_tcp::platform::{Os, Platform};
use tarantool_tcp::progress::Progress;
use tarantool_tcp::socket::{
    accept, ask_socket_error, bind_socket, check_socket_error, connect_socket,
    make_socket_nonblocking, nonblocking_socket,
};
use tarantool_tcp::syscall::{
    cvt, done, getsockopt, setsockopt, AutoCloseFd, Reply, SetSockOpt, Syscall,
};

const FIOCLEX: u64 = 0x2000_6601;
const FIONBIO: u64 = 0x8004_667e;
const SO_NOSIGPIPE: i32 = 0x1022;

fn linux() -> Platform {
    Platform::new(Os::Linux {
        sock_cloexec: libc::SOCK_CLOEXEC,
        sock_nonblock: libc::SOCK_NONBLOCK,
    })
}

fn macos() -> Platform {
    Platform::new(Os::MacOs { fioclex: FIOCLEX, so_nosigpipe: SO_NOSIGPIPE, fionbio: FIONBIO })
}

fn addr() -> SockAddr {
    SockAddr::V4(SockAddrIn {
        sin_family: 2,
        sin_port: [0, 80],
        sin_addr: [127, 0, 0, 1],
        sin_zero: [0; 8],
    })
}

fn ok(ret: i32) -> Reply {
    Reply { ret, errno: 0, value: 0 }
}

fn failed(errno: i32) -> Reply {
    Reply { ret: -1, errno, value: 0 }
}

fn show<T: std::fmt::Debug>(value: &T) -> String {
    format!("{:?}", value)
}

/// Carries `plan` out against `replies`: the calls it makes, and its outcome.
fn carry_out(plan: Plan, replies: &[Reply]) -> (String, Result<i32, OsError>) {
    let mut made: Vec<Syscall> = Vec::new();
    let mut progress = plan.start();
    let mut next = 0;
    loop {
        match progress {
            Progress::Pending { call, state } => {
                made.push(call);
                progress = state.resume(&replies[next]);
                next += 1;
            }
            Progress::Complete(outcome) => {
                assert_eq!(next, replies.len());
                return (show(&made), outcome.map(|fd| fd.into_raw_fd()));
            }
        }
    }
}

fn linux_socket() -> Syscall {
    Syscall::Socket {
        domain: libc::AF_INET,
        ty: libc::SOCK_STREAM | libc::SOCK_CLOEXEC | libc::SOCK_NONBLOCK,
        protocol: 0,
    }
}

#[test]
fn results_of_calls() {
    assert_eq!(cvt(-1, 5), Err(OsError { code: 5 }));
    assert_eq!(cvt(0, 5), Ok(0));
    assert_eq!(cvt(7, 5), Ok(7));
    assert_eq!(cvt(-2, 5), Ok(-2));
    assert_eq!(done(&failed(5)), Err(OsError { code: 5 }));
    assert_eq!(done(&ok(7)), Ok(()));
}

#[test]
fn options() {
    assert_eq!(
        setsockopt(3, 1, 2, 9i32),
        SetSockOpt { fd: 3, level: 1, name: 2, value: 9i32, len: 4 }
    );
    assert_eq!(
        setsockopt(3, 1, 2, 9u8),
        SetSockOpt { fd: 3, level: 1, name: 2, value: 9u8, len: 1 }
    );
    assert_eq!(
        setsockopt(3, 1, 2, [5u64, 6]),
        SetSockOpt { fd: 3, level: 1, name: 2, value: [5u64, 6], len: 16 }
    );
    assert_eq!(setsockopt(3, 1, 2, 9u8).finish(&ok(0)), Ok(()));
    assert_eq!(setsockopt(3, 1, 2, 9u8).finish(&ok(-2)), Ok(()));
    assert_eq!(setsockopt(3, 1, 2, 9u8).finish(&failed(92)), Err(OsError { code: 92 }));
    assert_eq!(
        show(&getsockopt(3, 1, 2)),
        show(&Syscall::GetSockOpt { fd: 3, level: 1, name: 2, len: 4 })
    );
}

#[test]
fn owned_descriptors() {
    let fd = AutoCloseFd::new(4);
    assert_eq!(fd.as_raw_fd(), 4);
    assert_eq!(fd.into_raw_fd(), 4);
    assert_eq!(show(&AutoCloseFd::new(5).close()), show(&Syscall::Close { fd: 5 }));
}

#[test]
fn pending_errors() {
    assert_eq!(
        show(&ask_socket_error(3, &linux())),
        show(&Syscall::GetSockOpt {
            fd: 3,
            level: libc::SOL_SOCKET,
            name: libc::SO_ERROR,
            len: 4
        })
    );
    assert_eq!(check_socket_error(&ok(0)), Ok(()));
    assert_eq!(check_socket_error(&failed(9)), Err(OsError { code: 9 }));
    assert_eq!(
        check_socket_error(&Reply { ret: 0, errno: 9, value: 104 }),
        Err(OsError { code: 104 })
    );
    assert_eq!(
        check_socket_error(&Reply { ret: -1, errno: 9, value: 104 }),
        Err(OsError { code: 9 })
    );
}

#[test]
fn opening_on_linux() {
    let (calls, outcome) = carry_out(nonblocking_socket(libc::AF_INET, &linux()), &[ok(3)]);
    assert_eq!(calls, show(&vec![linux_socket()]));
    assert_eq!(outcome, Ok(3));
    let (_, outcome) = carry_out(nonblocking_socket(libc::AF_INET, &linux()), &[failed(24)]);
    assert_eq!(outcome, Err(OsError { code: 24 }));
}

#[test]
fn opening_on_macos() {
    let p = macos();
    assert_eq!(make_socket_nonblocking(1, FIOCLEX, SO_NOSIGPIPE, FIONBIO).len(), 3);
    let all = vec![
        Syscall::Socket { domain: libc::AF_INET, ty: libc::SOCK_STREAM, protocol: 0 },
        Syscall::Ioctl { fd: 3, request: FIOCLEX, arg: None },
        Syscall::SetSockOpt(SetSockOpt {
            fd: 3,
            level: libc::SOL_SOCKET,
            name: SO_NOSIGPIPE,
            value: 1,
            len: 4,
        }),
        Syscall::Ioctl { fd: 3, request: FIONBIO, arg: Some(1) },
    ];
    let plan = nonblocking_socket(libc::AF_INET, &p);
    let (calls, outcome) = carry_out(plan, &[ok(3), ok(0), ok(0), ok(0)]);
    assert_eq!(calls, show(&all));
    assert_eq!(outcome, Ok(3));
    let plan = nonblocking_socket(libc::AF_INET, &p);
    let (calls, outcome) = carry_out(plan, &[ok(3), ok(0), failed(22), failed(9)]);
    let mut closed = all[..3].to_vec();
    closed.push(Syscall::Close { fd: 3 });
    assert_eq!(calls, show(&closed));
    assert_eq!(outcome, Err(OsError { code: 22 }));
}

#[test]
fn connecting() {
    let p = linux();
    let a = addr();
    let info = AddrInfo::from(&a, &p);
    let connect = Syscall::Connect { fd: 3, addr: a, addr_len: 16 };
    let (calls, outcome) = carry_out(connect_socket(&info, &p), &[ok(3), ok(0)]);
    assert_eq!(calls, show(&vec![linux_socket(), connect]));
    assert_eq!(outcome, Ok(3));
    let in_progress = failed(libc::EINPROGRESS);
    let (calls, outcome) = carry_out(connect_socket(&info, &p), &[ok(3), in_progress]);
    assert_eq!(calls, show(&vec![linux_socket(), connect]));
    assert_eq!(outcome, Ok(3));
    let refused = failed(libc::ECONNREFUSED);
    let (calls, outcome) = carry_out(connect_socket(&info, &p), &[ok(3), refused, ok(0)]);
    assert_eq!(calls, show(&vec![linux_socket(), connect, Syscall::Close { fd: 3 }]));
    assert_eq!(outcome, Err(OsError { code: libc::ECONNREFUSED }));
    let (_, outcome) = carry_out(connect_socket(&info, &p), &[in_progress]);
    assert_eq!(outcome, Err(OsError { code: libc::EINPROGRESS }));
}

#[test]
fn binding() {
    let p = linux();
    let a = addr();
    let info = AddrInfo::from(&a, &p);
    let bound = Syscall::Bind { fd: 3, addr: a, addr_len: 16 };
    let reuse = Syscall::SetSockOpt(SetSockOpt {
        fd: 3,
        level: libc::SOL_SOCKET,
        name: libc::SO_REUSEADDR,
        value: 1,
        len: 4,
    });
    let close = Syscall::Close { fd: 3 };
    let (calls, outcome) = carry_out(bind_socket(&info, &p), &[ok(3), ok(0), ok(0)]);
    assert_eq!(calls, show(&vec![linux_socket(), bound, reuse]));
    assert_eq!(outcome, Ok(3));
    let (calls, outcome) = carry_out(bind_socket(&info, &p), &[ok(3), failed(98), ok(0)]);
    assert_eq!(calls, show(&vec![linux_socket(), bound, close]));
    assert_eq!(outcome, Err(OsError { code: 98 }));
    let replies = [ok(3), ok(0), failed(92), ok(0)];
    let (calls, outcome) = carry_out(bind_socket(&info, &p), &replies);
    assert_eq!(calls, show(&vec![linux_socket(), bound, reuse, close]));
    assert_eq!(outcome, Err(OsError { code: 92 }));
}

#[test]
fn accepting() {
    let flags = libc::SOCK_CLOEXEC | libc::SOCK_NONBLOCK;
    let (calls, outcome) = carry_out(accept(3, &linux()), &[ok(4)]);
    assert_eq!(calls, show(&vec![Syscall::Accept4 { fd: 3, flags }]));
    assert_eq!(outcome, Ok(4));
    let (calls, outcome) = carry_out(accept(3, &macos()), &[ok(4), failed(25), ok(0)]);
    assert_eq!(
        calls,
        show(&vec![
            Syscall::Accept { fd: 3 },
            Syscall::Ioctl { fd: 4, request: FIOCLEX, arg: None },
            Syscall::Close { fd: 4 },
        ])
    );
    assert_eq!(outcome, Err(OsError { code: 25 }));
}
