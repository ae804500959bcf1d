//! Non-blocking sockets: how they are opened, bound, connected and accepted.
use vstd::prelude::*;

use crate::addr::{AddrInfo, SockAddr};
use crate::error::OsError;
use crate::plan::{FdCall, Plan, PlanView, RunProgress, Step};
use crate::platform::{Os, Platform};
use crate::progress;
use crate::syscall::{cvt, getsockopt, Reply, Syscall};

verus! {

/// A call that must succeed, or else the descriptor is closed.
pub open spec fn required(call: FdCall) -> Step {
    Step { call, tolerated: None, closes: true }
}

fn require(call: FdCall) -> (step: Step)
    ensures
        step == required(call),
{
    Step { call, tolerated: None, closes: true }
}

/// The calls that make a fresh descriptor non-blocking, where opening it has not
/// done so already: it is closed on `exec`, raises no signal when its peer is
/// gone, and does not block.
pub open spec fn nonblocking_steps(platform: Platform) -> Seq<Step> {
    match platform.os {
        Os::Linux { .. } => Seq::empty(),
        Os::MacOs { fioclex, so_nosigpipe, fionbio } => seq![
            required(FdCall::Ioctl { request: fioclex, arg: None }),
            required(
                FdCall::SetSockOpt { level: platform.sol_socket, name: so_nosigpipe, value: 1 },
            ),
            required(FdCall::Ioctl { request: fionbio, arg: Some(1) }),
        ],
    }
}

/// Opening a non-blocking stream socket of the family `kind`.
pub open spec fn socket_plan(kind: i32, platform: Platform) -> PlanView {
    PlanView {
        open: Syscall::Socket {
            domain: kind,
            ty: match platform.os {
                Os::Linux { sock_cloexec, sock_nonblock } => platform.sock_stream | sock_cloexec
                    | sock_nonblock,
                Os::MacOs { .. } => platform.sock_stream,
            },
            protocol: 0,
        },
        steps: nonblocking_steps(platform),
    }
}

/// Opening a socket, connecting it. A connection that is still being made counts
/// as made.
pub open spec fn connect_plan(
    kind: i32,
    addr: SockAddr,
    addr_len: u32,
    platform: Platform,
) -> PlanView {
    let socket = socket_plan(kind, platform);
    PlanView {
        open: socket.open,
        steps: socket.steps.push(
            Step {
                call: FdCall::Connect { addr, addr_len },
                tolerated: Some(platform.einprogress),
                closes: true,
            },
        ),
    }
}

/// Opening a socket, binding it, and letting its address be used again.
pub open spec fn bind_plan(
    kind: i32,
    addr: SockAddr,
    addr_len: u32,
    platform: Platform,
) -> PlanView {
    let socket = socket_plan(kind, platform);
    PlanView {
        open: socket.open,
        steps: socket.steps + seq![
            required(FdCall::Bind { addr, addr_len }),
            required(
                FdCall::SetSockOpt {
                    level: platform.sol_socket,
                    name: platform.so_reuseaddr,
                    value: 1,
                },
            ),
        ],
    }
}

/// Taking a connection from the listening socket `fd`, as a non-blocking socket.
pub open spec fn accept_plan(fd: i32, platform: Platform) -> PlanView {
    PlanView {
        open: match platform.os {
            Os::Linux { sock_cloexec, sock_nonblock } => Syscall::Accept4 {
                fd,
                flags: sock_cloexec | sock_nonblock,
            },
            Os::MacOs { .. } => Syscall::Accept { fd },
        },
        steps: nonblocking_steps(platform),
    }
}

/// The steps that make a fresh descriptor non-blocking on macOS.
pub fn make_socket_nonblocking(
    sol_socket: i32,
    fioclex: u64,
    so_nosigpipe: i32,
    fionbio: u64,
) -> (steps: Vec<Step>)
    ensures
        steps@ == seq![
            required(FdCall::Ioctl { request: fioclex, arg: None }),
            required(FdCall::SetSockOpt { level: sol_socket, name: so_nosigpipe, value: 1 }),
            required(FdCall::Ioctl { request: fionbio, arg: Some(1) }),
        ],
{
    let mut steps: Vec<Step> = Vec::new();
    steps.push(require(FdCall::Ioctl { request: fioclex, arg: None }));
    steps.push(
        require(FdCall::SetSockOpt { level: sol_socket, name: so_nosigpipe, value: 1 }),
    );
    steps.push(require(FdCall::Ioctl { request: fionbio, arg: Some(1) }));
    steps
}

/// Plans to open a non-blocking stream socket of the family `kind`.
pub fn nonblocking_socket(kind: i32, platform: &Platform) -> (plan: Plan)
    ensures
        plan@ == socket_plan(kind, *platform),
{
    match platform.os {
        Os::Linux { sock_cloexec, sock_nonblock } => Plan {
            open: Syscall::Socket {
                domain: kind,
                ty: platform.sock_stream | sock_cloexec | sock_nonblock,
                protocol: 0,
            },
            steps: Vec::new(),
        },
        Os::MacOs { fioclex, so_nosigpipe, fionbio } => Plan {
            open: Syscall::Socket { domain: kind, ty: platform.sock_stream, protocol: 0 },
            steps: make_socket_nonblocking(platform.sol_socket, fioclex, so_nosigpipe, fionbio),
        },
    }
}

/// Plans to open a non-blocking socket and to connect it.
pub fn connect_socket(addr_info: &AddrInfo<'_>, platform: &Platform) -> (plan: Plan)
    ensures
        plan@ == connect_plan(
            addr_info.kind,
            *addr_info.addr,
            addr_info.addr_len,
            *platform,
        ),
{
    let mut plan = nonblocking_socket(addr_info.kind, platform);
    plan.steps.push(
        Step {
            call: FdCall::Connect { addr: *addr_info.addr, addr_len: addr_info.addr_len },
            tolerated: Some(platform.einprogress),
            closes: true,
        },
    );
    plan
}

/// Plans to open a non-blocking socket and to bind it.
pub fn bind_socket(addr_info: &AddrInfo<'_>, platform: &Platform) -> (plan: Plan)
    ensures
        plan@ == bind_plan(
            addr_info.kind,
            *addr_info.addr,
            addr_info.addr_len,
            *platform,
        ),
{
    let mut plan = nonblocking_socket(addr_info.kind, platform);
    plan.steps.push(
        require(FdCall::Bind { addr: *addr_info.addr, addr_len: addr_info.addr_len }),
    );
    plan.steps.push(
        require(
            FdCall::SetSockOpt {
                level: platform.sol_socket,
                name: platform.so_reuseaddr,
                value: 1,
            },
        ),
    );
    assert(plan@ =~= bind_plan(
            addr_info.kind,
            *addr_info.addr,
            addr_info.addr_len,
            *platform,
        ));
    plan
}

/// Plans to take a connection from the listening socket `fd`.
pub fn accept(fd: i32, platform: &Platform) -> (plan: Plan)
    ensures
        plan@ == accept_plan(fd, *platform),
{
    match platform.os {
        Os::Linux { sock_cloexec, sock_nonblock } => Plan {
            open: Syscall::Accept4 { fd, flags: sock_cloexec | sock_nonblock },
            steps: Vec::new(),
        },
        Os::MacOs { fioclex, so_nosigpipe, fionbio } => Plan {
            open: Syscall::Accept { fd },
            steps: make_socket_nonblocking(platform.sol_socket, fioclex, so_nosigpipe, fionbio),
        },
    }
}

/// The call that reads, and clears, the pending error of a socket.
pub open spec fn pending_error_call(fd: i32, platform: Platform) -> Syscall {
    Syscall::GetSockOpt {
        fd,
        level: platform.sol_socket,
        name: platform.so_error,
        len: crate::syscall::len_of::<i32>(),
    }
}

pub fn ask_socket_error(fd: i32, platform: &Platform) -> (call: Syscall)
    ensures
        call == pending_error_call(fd, *platform),
{
    getsockopt(fd, platform.sol_socket, platform.so_error)
}

/// The error that a reply to [`ask_socket_error`] tells of: that of the call
/// itself, or else the one that was pending on the socket.
pub open spec fn socket_error(reply: Reply) -> Option<OsError> {
    if reply.ret == -1 {
        Some(OsError { code: reply.errno })
    } else if reply.value != 0 {
        Some(OsError { code: reply.value })
    } else {
        None
    }
}

/// Checks the reply to [`ask_socket_error`].
pub fn check_socket_error(reply: &Reply) -> (result: Result<(), OsError>)
    ensures
        result == match socket_error(*reply) {
            None => Ok(()),
            Some(error) => Err(error),
        },
{
    match cvt(reply.ret, reply.errno) {
        Ok(_) => match reply.value {
            0 => Ok(()),
            v => Err(OsError { code: v }),
        },
        Err(error) => Err(error),
    }
}

/// A socket that Linux opens or accepts is non-blocking and closed on `exec` from
/// the start: both flags are among those it is made with.
pub proof fn law_linux_flags(kind: i32, fd: i32, platform: Platform)
    requires
        platform.os is Linux,
    ensures
        socket_plan(kind, platform).open matches Syscall::Socket { domain, ty, protocol } && {
            &&& ty & platform.os->sock_nonblock == platform.os->sock_nonblock
            &&& ty & platform.os->sock_cloexec == platform.os->sock_cloexec
            &&& ty & platform.sock_stream == platform.sock_stream
        },
        accept_plan(fd, platform).open matches Syscall::Accept4 { fd: from, flags } && {
            &&& from == fd
            &&& flags & platform.os->sock_nonblock == platform.os->sock_nonblock
            &&& flags & platform.os->sock_cloexec == platform.os->sock_cloexec
        },
{
    let s = platform.sock_stream;
    let c = platform.os->sock_cloexec;
    let n = platform.os->sock_nonblock;
    assert((s | c | n) & n == n && (s | c | n) & c == c && (s | c | n) & s == s) by (bit_vector);
    assert((c | n) & n == n && (c | n) & c == c) by (bit_vector);
}

/// A socket that is opened, bound, connected or accepted becomes non-blocking
/// before anything else is done with it.
pub proof fn law_nonblocking_first(
    kind: i32,
    addr: SockAddr,
    addr_len: u32,
    fd: i32,
    platform: Platform,
)
    ensures
        nonblocking_steps(platform) == socket_plan(kind, platform).steps,
        nonblocking_steps(platform) == accept_plan(fd, platform).steps,
        nonblocking_steps(platform).is_prefix_of(
            connect_plan(kind, addr, addr_len, platform).steps,
        ),
        nonblocking_steps(platform).is_prefix_of(bind_plan(kind, addr, addr_len, platform).steps),
{
    let steps = nonblocking_steps(platform);
    assert(steps =~= connect_plan(kind, addr, addr_len, platform).steps.take(steps.len() as int));
    assert(steps =~= bind_plan(kind, addr, addr_len, platform).steps.take(steps.len() as int));
}

/// Opening, connecting, binding or accepting a socket loses no descriptor,
/// whatever the system replies.
pub proof fn law_sockets_accounted(
    kind: i32,
    addr: SockAddr,
    addr_len: u32,
    fd: i32,
    platform: Platform,
    replies: Seq<Reply>,
)
    requires
        replies.len() > 0,
    ensures
        crate::plan::accounted(socket_plan(kind, platform), replies),
        crate::plan::accounted(connect_plan(kind, addr, addr_len, platform), replies),
        crate::plan::accounted(bind_plan(kind, addr, addr_len, platform), replies),
        crate::plan::accounted(accept_plan(fd, platform), replies),
{
    crate::plan::law_descriptor_accounted(socket_plan(kind, platform), replies);
    crate::plan::law_descriptor_accounted(connect_plan(kind, addr, addr_len, platform), replies);
    crate::plan::law_descriptor_accounted(bind_plan(kind, addr, addr_len, platform), replies);
    crate::plan::law_descriptor_accounted(accept_plan(fd, platform), replies);
}

/// A connection that is still being made when the call returns counts as made:
/// the socket is given back, and stays open.
pub proof fn law_connect_in_progress(
    kind: i32,
    addr: SockAddr,
    addr_len: u32,
    platform: Platform,
    replies: Seq<Reply>,
)
    requires
        replies.len() == nonblocking_steps(platform).len() + 2,
        socket_plan(kind, platform).passes(replies, nonblocking_steps(platform).len() as int),
        replies.last().ret == -1,
        replies.last().errno == platform.einprogress,
    ensures
        progress::after(connect_plan(kind, addr, addr_len, platform).start(), replies)
            == RunProgress::Complete(Ok(replies[0].ret)),
        progress::calls(connect_plan(kind, addr, addr_len, platform).start(), replies).last() == (
        Syscall::Connect { fd: replies[0].ret, addr, addr_len }),
{
    let plan = connect_plan(kind, addr, addr_len, platform);
    let n = nonblocking_steps(platform).len() as int;
    assert forall|i: int| 0 <= i < plan.steps.len() implies plan.steps[i].passes(
        #[trigger] replies[i + 1],
    ) by {
        if i < n {
            assert(plan.steps[i] == socket_plan(kind, platform).steps[i]);
        }
    }
    crate::plan::law_run_succeeds(plan, replies);
    let made = plan.step_calls(replies[0].ret, n + 1);
    assert(made.last() == plan.steps[n].call.call_on(replies[0].ret));
}

} // verus!
