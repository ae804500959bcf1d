//! What the operations do, told by the values that go into their calls and come
//! out of them: fields, replies of the system, and the calls that are made of it.
use vstd::prelude::*;

use crate::addr::{AddrInfo, SockAddr};
use crate::error::OsError;
use crate::plan::{FdCall, Plan, PlanView, Run, RunView, Step};
use crate::platform::{Os, Platform};
use crate::progress;
use crate::progress::{Machine, Progress};
use crate::socket::{
    accept, bind_socket, connect_socket, make_socket_nonblocking, nonblocking_socket,
};
use crate::syscall::{AutoCloseFd, Reply, SetSockOpt, Syscall};

pub mod accepting;
pub mod binding;
pub mod resolving;

verus! {

/// `steps` is how a plan is carried out by `replies`: it is started, and resumed
/// with one reply after the other.
pub open spec fn carried_out(
    plan: Plan,
    steps: Seq<Progress<Run, Result<AutoCloseFd, OsError>>>,
    replies: Seq<Reply>,
) -> bool {
    &&& steps.len() == replies.len() + 1
    &&& call_ensures(Plan::start, (plan,), steps[0])
    &&& forall|i: int|
        0 <= i < replies.len() ==> (#[trigger] steps[i]) is Pending && call_ensures(
            Run::resume,
            (steps[i]->state, &replies[i]),
            steps[i + 1],
        )
}

/// What an operation that opens a descriptor has come to: nothing yet, the
/// descriptor, or an error.
pub open spec fn opened(step: Progress<Run, Result<AutoCloseFd, OsError>>) -> Option<
    Result<i32, OsError>,
> {
    match step {
        Progress::Pending { .. } => None,
        Progress::Complete(Ok(fd)) => Some(Ok(fd@)),
        Progress::Complete(Err(error)) => Some(Err(error)),
    }
}

/// The reply lets the call number `k` of `todo` pass: it is not -1, or the call is
/// the last one and the error is the tolerated one.
pub open spec fn good(todo: Seq<Syscall>, tolerated: Option<i32>, k: int, reply: Reply) -> bool {
    reply.ret != -1 || (k == todo.len() - 1 && tolerated == Some(reply.errno))
}

/// The first `m` replies let as many calls of `todo` pass, beginning with `at`.
pub open spec fn all_good(
    todo: Seq<Syscall>,
    tolerated: Option<i32>,
    at: int,
    replies: Seq<Reply>,
    m: int,
) -> bool {
    forall|i: int| 0 <= i < m ==> good(todo, tolerated, at + i, #[trigger] replies[i])
}

/// With `fd` open and the calls of `todo` before `at` made, the others are made in
/// order while the replies are good. After the last one the outcome is `fd`. A bad
/// reply ends it with its error, and the descriptor is closed first, unless the
/// call was the last one and `keeps` tells to leave the descriptor alone.
pub open spec fn sets_up(
    fd: i32,
    todo: Seq<Syscall>,
    tolerated: Option<i32>,
    keeps: bool,
    at: int,
    calls: Seq<Syscall>,
    replies: Seq<Reply>,
    outcome: Option<Result<i32, OsError>>,
) -> bool {
    let n = replies.len() as int;
    let left = todo.len() - at;
    let passed = |m: int| all_good(todo, tolerated, at, replies, m);
    let fails = |i: int| !good(todo, tolerated, at + i, replies[i]);
    let kept = |i: int| keeps && at + i == todo.len() - 1;
    let close = Syscall::Close { fd };
    {
        // under way
        ||| n < left && passed(n) && calls == todo.subrange(at, at + n + 1) && outcome is None
        // all calls made
        ||| n == left && passed(n) && calls == todo.skip(at) && outcome == Some(
            Ok::<i32, OsError>(fd),
        )
        // failed, and left open
        ||| {
            &&& 0 < n <= left
            &&& passed(n - 1)
            &&& fails(n - 1)
            &&& kept(n - 1)
            &&& calls == todo.subrange(at, at + n)
            &&& outcome == Some(Err::<i32, OsError>(OsError { code: replies[n - 1].errno }))
        }
        // failed, and being closed
        ||| {
            &&& 0 < n <= left
            &&& passed(n - 1)
            &&& fails(n - 1)
            &&& !kept(n - 1)
            &&& calls == todo.subrange(at, at + n).push(close)
            &&& outcome is None
        }
        // failed, and closed
        ||| {
            &&& 1 < n <= left + 1
            &&& passed(n - 2)
            &&& fails(n - 2)
            &&& !kept(n - 2)
            &&& calls == todo.subrange(at, at + n - 1).push(close)
            &&& outcome == Some(Err::<i32, OsError>(OsError { code: replies[n - 2].errno }))
        }
    }
}

/// A descriptor is opened by `opening`, and the calls of `todo` are made on it.
pub open spec fn performs(
    opening: Syscall,
    todo: spec_fn(i32) -> Seq<Syscall>,
    tolerated: Option<i32>,
    keeps: bool,
    calls: Seq<Syscall>,
    replies: Seq<Reply>,
    outcome: Option<Result<i32, OsError>>,
) -> bool {
    let fd = replies[0].ret;
    &&& calls.len() > 0
    &&& calls[0] == opening
    &&& if replies.len() == 0 {
        calls.len() == 1 && outcome is None
    } else if fd == -1 {
        &&& replies.len() == 1
        &&& calls.len() == 1
        &&& outcome == Some(Err::<i32, OsError>(OsError { code: replies[0].errno }))
    } else {
        sets_up(
            fd,
            todo(fd),
            tolerated,
            keeps,
            0,
            calls.drop_first(),
            replies.drop_first(),
            outcome,
        )
    }
}

proof fn lemma_sets_up(
    plan: PlanView,
    fd: i32,
    todo: Seq<Syscall>,
    tolerated: Option<i32>,
    keeps: bool,
    at: int,
    replies: Seq<Reply>,
)
    requires
        0 <= at <= todo.len(),
        plan_is(plan, fd, todo, tolerated, keeps),
        replies.len() > 0 ==> progress::after(plan.go_on(fd, at), replies.drop_last()) is Pending,
    ensures
        sets_up(
            fd,
            todo,
            tolerated,
            keeps,
            at,
            progress::calls(plan.go_on(fd, at), replies),
            replies,
            came_to(progress::after(plan.go_on(fd, at), replies)),
        ),
    decreases replies.len(),
{
    let here = plan.go_on(fd, at);
    let calls = progress::calls(here, replies);
    let outcome = came_to(progress::after(here, replies));
    if replies.len() == 0 {
        if at < todo.len() {
            assert(calls =~= todo.subrange(at, at + 1));
        } else {
            assert(calls =~= todo.skip(at));
        }
    } else {
        let rest = replies.drop_first();
        assert(at < todo.len()) by {
            if at == todo.len() {
                assert(here is Complete);
                reveal_with_fuel(progress::after, 2);
            }
        }
        let next = RunView::Stepping { plan, fd, at }.next(replies[0]);
        let later = progress::calls(next, rest);
        assert(calls == seq![todo[at]] + later);
        assert(progress::after(here, replies) == progress::after(next, rest));
        assert(plan.steps[at].passes(replies[0]) <==> good(todo, tolerated, at, replies[0]));
        if rest.len() > 0 {
            assert(replies.drop_last().drop_first() =~= rest.drop_last());
            assert(progress::after(next, rest.drop_last()) is Pending);
        }
        if plan.steps[at].passes(replies[0]) {
            lemma_sets_up(plan, fd, todo, tolerated, keeps, at + 1, rest);
            lemma_sets_up_step(fd, todo, tolerated, keeps, at, later, replies, outcome);
            assert(calls == seq![todo[at]] + later);
        } else if plan.steps[at].closes {
            let close = Syscall::Close { fd };
            if rest.len() == 0 {
                assert(later =~= seq![close]);
                assert(calls =~= todo.subrange(at, at + 1).push(close));
            } else {
                reveal_with_fuel(progress::after, 3);
                reveal_with_fuel(progress::calls, 3);
                if rest.len() > 1 {
                    let two = rest.drop_last();
                    assert(progress::after(next, two) is Complete);
                }
                assert(later =~= seq![close]);
                assert(calls =~= todo.subrange(at, at + 1).push(close));
            }
        } else {
            if rest.len() > 0 {
                assert(progress::after(next, rest.drop_last()) is Complete);
            }
            assert(calls =~= todo.subrange(at, at + 1));
        }
    }
}

proof fn lemma_sets_up_step(
    fd: i32,
    todo: Seq<Syscall>,
    tolerated: Option<i32>,
    keeps: bool,
    at: int,
    later: Seq<Syscall>,
    replies: Seq<Reply>,
    outcome: Option<Result<i32, OsError>>,
)
    requires
        0 <= at < todo.len(),
        replies.len() > 0,
        good(todo, tolerated, at, replies[0]),
        sets_up(fd, todo, tolerated, keeps, at + 1, later, replies.drop_first(), outcome),
    ensures
        sets_up(fd, todo, tolerated, keeps, at, seq![todo[at]] + later, replies, outcome),
{
    let rest = replies.drop_first();
    let n = replies.len() as int;
    let calls = seq![todo[at]] + later;
    let close = Syscall::Close { fd };
    assert forall|m: int| #[trigger]
        all_good(todo, tolerated, at + 1, rest, m) && m <= rest.len() implies all_good(
        todo,
        tolerated,
        at,
        replies,
        m + 1,
    ) by {
        assert forall|i: int| 0 <= i < m + 1 implies good(
            todo,
            tolerated,
            at + i,
            #[trigger] replies[i],
        ) by {
            if i > 0 {
                assert(rest[i - 1] == replies[i]);
                assert(good(todo, tolerated, at + 1 + (i - 1), rest[i - 1]));
            }
        }
    }
    if at + n + 1 <= todo.len() && later == todo.subrange(at + 1, at + n + 1) {
        assert(calls =~= todo.subrange(at, at + n + 1));
    }
    if later == todo.skip(at + 1) {
        assert(calls =~= todo.skip(at));
    }
    if n > 1 {
        assert(rest[n - 2] == replies[n - 1]);
        if at + n <= todo.len() && later == todo.subrange(at + 1, at + n) {
            assert(calls =~= todo.subrange(at, at + n));
        }
        if at + n <= todo.len() && later == todo.subrange(at + 1, at + n).push(close) {
            assert(calls =~= todo.subrange(at, at + n).push(close));
        }
    }
    if n > 2 {
        assert(rest[n - 3] == replies[n - 2]);
        if at + n - 1 <= todo.len() && later == todo.subrange(at + 1, at + n - 1).push(close) {
            assert(calls =~= todo.subrange(at, at + n - 1).push(close));
        }
    }
}

/// The steps of the plan, made on `fd`, are the calls of `todo`.
spec fn plan_is(
    plan: PlanView,
    fd: i32,
    todo: Seq<Syscall>,
    tolerated: Option<i32>,
    keeps: bool,
) -> bool {
    &&& plan.steps.len() == todo.len()
    &&& forall|k: int|
        0 <= k < todo.len() ==> {
            &&& (#[trigger] plan.steps[k]).call.call_on(fd) == todo[k]
            &&& plan.steps[k].tolerated == if k == todo.len() - 1 {
                tolerated
            } else {
                None
            }
            &&& plan.steps[k].closes == !(keeps && k == todo.len() - 1)
        }
}

spec fn came_to(progress: crate::plan::RunProgress) -> Option<Result<i32, OsError>> {
    match progress {
        Progress::Pending { .. } => None,
        Progress::Complete(outcome) => Some(outcome),
    }
}

proof fn lemma_performs(
    plan: PlanView,
    todo: spec_fn(i32) -> Seq<Syscall>,
    tolerated: Option<i32>,
    keeps: bool,
    replies: Seq<Reply>,
)
    requires
        forall|fd: i32| #[trigger] plan_is(plan, fd, todo(fd), tolerated, keeps),
        replies.len() > 0 ==> progress::after(plan.start(), replies.drop_last()) is Pending,
    ensures
        performs(
            plan.open,
            todo,
            tolerated,
            keeps,
            progress::calls(plan.start(), replies),
            replies,
            came_to(progress::after(plan.start(), replies)),
        ),
{
    let calls = progress::calls(plan.start(), replies);
    if replies.len() > 0 {
        let fd = replies[0].ret;
        let rest = replies.drop_first();
        let next = RunView::Opening { plan }.next(replies[0]);
        assert(calls == seq![plan.open] + progress::calls(next, rest));
        assert(calls.drop_first() =~= progress::calls(next, rest));
        assert(progress::after(plan.start(), replies) == progress::after(next, rest));
        if rest.len() > 0 {
            assert(replies.drop_last().drop_first() =~= rest.drop_last());
            assert(progress::after(next, rest.drop_last()) is Pending);
        }
        if fd == -1 {
            if rest.len() > 0 {
                assert(progress::after(next, rest.drop_last()) is Complete);
            }
        } else {
            assert(plan_is(plan, fd, todo(fd), tolerated, keeps));
            lemma_sets_up(plan, fd, todo(fd), tolerated, keeps, 0, rest);
        }
    }
}

proof fn lemma_run_trace(
    plan: Plan,
    steps: Seq<Progress<Run, Result<AutoCloseFd, OsError>>>,
    replies: Seq<Reply>,
)
    requires
        carried_out(plan, steps, replies),
    ensures
        crate::plan::run_progress(steps.last()) == progress::after(plan@.start(), replies),
        progress::made(steps) == progress::calls(plan@.start(), replies),
        replies.len() > 0 ==> progress::after(plan@.start(), replies.drop_last()) is Pending,
{
    let views = steps.map_values(
        |step: Progress<Run, Result<AutoCloseFd, OsError>>| crate::plan::run_progress(step),
    );
    assert(views[0] == plan@.start());
    assert forall|i: int| 0 <= i < replies.len() implies (#[trigger] views[i]) is Pending && views[i
        + 1] == views[i]->state.next(replies[i]) by {
        assert(steps[i] is Pending);
    }
    progress::law_chain(views, replies);
    assert(progress::made(steps) =~= progress::made(views));
}

proof fn lemma_carried_out(
    plan: Plan,
    steps: Seq<Progress<Run, Result<AutoCloseFd, OsError>>>,
    replies: Seq<Reply>,
    todo: spec_fn(i32) -> Seq<Syscall>,
    tolerated: Option<i32>,
    keeps: bool,
)
    requires
        carried_out(plan, steps, replies),
        forall|fd: i32| #[trigger] plan_is(plan@, fd, todo(fd), tolerated, keeps),
    ensures
        performs(
            plan.open,
            todo,
            tolerated,
            keeps,
            progress::made(steps),
            replies,
            opened(steps.last()),
        ),
{
    lemma_run_trace(plan, steps, replies);
    lemma_performs(plan@, todo, tolerated, keeps, replies);
}

/// The type of a socket: a stream, which on Linux is non-blocking and closed on
/// `exec` from the start.
pub open spec fn stream_type(platform: Platform) -> i32 {
    match platform.os {
        Os::Linux { sock_cloexec, sock_nonblock } => platform.sock_stream | sock_cloexec
            | sock_nonblock,
        Os::MacOs { .. } => platform.sock_stream,
    }
}

/// The calls by which macOS makes `fd` closed on `exec`, silent about a peer that is
/// gone, and non-blocking.
pub open spec fn setup_calls(platform: Platform, fd: i32) -> Seq<Syscall> {
    match platform.os {
        Os::Linux { .. } => Seq::empty(),
        Os::MacOs { fioclex, so_nosigpipe, fionbio } => seq![
            Syscall::Ioctl { fd, request: fioclex, arg: None },
            Syscall::SetSockOpt(
                SetSockOpt {
                    fd,
                    level: platform.sol_socket,
                    name: so_nosigpipe,
                    value: 1,
                    len: 4,
                },
            ),
            Syscall::Ioctl { fd, request: fionbio, arg: Some(1) },
        ],
    }
}

/// The call that lets the address of `fd` be used again.
pub open spec fn reuse_call(platform: Platform, fd: i32) -> Syscall {
    Syscall::SetSockOpt(
        SetSockOpt {
            fd,
            level: platform.sol_socket,
            name: platform.so_reuseaddr,
            value: 1,
            len: 4,
        },
    )
}

/// A descriptor is only set up.
pub open spec fn only_setup(platform: Platform) -> spec_fn(i32) -> Seq<Syscall> {
    |fd: i32| setup_calls(platform, fd)
}

/// A descriptor is set up and connected.
pub open spec fn connects(
    platform: Platform,
    addr: SockAddr,
    addr_len: u32,
) -> spec_fn(i32) -> Seq<Syscall> {
    |fd: i32| setup_calls(platform, fd).push(Syscall::Connect { fd, addr, addr_len })
}

/// A descriptor is set up and bound, and its address may be used again.
pub open spec fn binds(platform: Platform, addr: SockAddr, addr_len: u32) -> spec_fn(
    i32,
) -> Seq<Syscall> {
    |fd: i32|
        setup_calls(platform, fd).push(Syscall::Bind { fd, addr, addr_len }).push(
            reuse_call(platform, fd),
        )
}

/// A descriptor is set up and bound, and listens.
pub open spec fn listens(platform: Platform, addr: SockAddr, addr_len: u32) -> spec_fn(
    i32,
) -> Seq<Syscall> {
    |fd: i32|
        setup_calls(platform, fd).push(Syscall::Bind { fd, addr, addr_len }).push(
            reuse_call(platform, fd),
        ).push(Syscall::Listen { fd, backlog: platform.somaxconn })
}

/// While all replies are good, the calls of `todo` follow one another.
proof fn lemma_call_at(
    opening: Syscall,
    todo: spec_fn(i32) -> Seq<Syscall>,
    tolerated: Option<i32>,
    keeps: bool,
    calls: Seq<Syscall>,
    replies: Seq<Reply>,
    outcome: Option<Result<i32, OsError>>,
    k: int,
)
    requires
        performs(opening, todo, tolerated, keeps, calls, replies, outcome),
        0 <= k < todo(replies[0].ret).len(),
        replies.len() > k,
        forall|i: int| 0 <= i <= k ==> (#[trigger] replies[i]).ret != -1,
    ensures
        calls.len() > k + 1,
        calls[k + 1] == todo(replies[0].ret)[k],
{
    let fd = replies[0].ret;
    let rest = replies.drop_first();
    assert forall|i: int| 0 <= i < k implies good(todo(fd), tolerated, 0 + i, #[trigger] rest[i]) by {
        assert(rest[i] == replies[i + 1]);
    }
    let n = rest.len() as int;
    let later = calls.drop_first();
    if 0 < n <= k {
        assert(good(todo(fd), tolerated, n - 1, rest[n - 1]));
    }
    if 1 < n <= k + 1 {
        assert(good(todo(fd), tolerated, n - 2, rest[n - 2]));
    }
    assert(later.len() > k);
    assert(later[k] == calls[k + 1]);
}

/// Opening a socket of the family `kind` asks for a stream socket of that very
/// family, and sets it up.
pub proof fn law_nonblocking_socket(
    kind: i32,
    platform: Platform,
    plan: Plan,
    steps: Seq<Progress<Run, Result<AutoCloseFd, OsError>>>,
    replies: Seq<Reply>,
)
    requires
        call_ensures(nonblocking_socket, (kind, &platform), plan),
        carried_out(plan, steps, replies),
    ensures
        performs(
            Syscall::Socket { domain: kind, ty: stream_type(platform), protocol: 0 },
            only_setup(platform),
            None,
            false,
            progress::made(steps),
            replies,
            opened(steps.last()),
        ),
{
    crate::syscall::law_int_option_len();
    assert forall|fd: i32| #[trigger]
        plan_is(plan@, fd, only_setup(platform)(fd), None, false) by {}
    lemma_carried_out(plan, steps, replies, only_setup(platform), None, false);
}

/// Connecting opens a stream socket of the family of the address, sets it up, and
/// connects it to that address. Every error closes the socket, but for the one by
/// which the system tells that the connection is still being made.
pub proof fn law_connect_socket(
    info: AddrInfo<'_>,
    platform: Platform,
    plan: Plan,
    steps: Seq<Progress<Run, Result<AutoCloseFd, OsError>>>,
    replies: Seq<Reply>,
)
    requires
        call_ensures(connect_socket, (&info, &platform), plan),
        carried_out(plan, steps, replies),
    ensures
        progress::made(steps)[0] == (Syscall::Socket {
            domain: info.kind,
            ty: stream_type(platform),
            protocol: 0,
        }),
        ({
            let s: int = if platform.os is MacOs {
        3
    } else {
        0
    };
            replies.len() > s && (forall|i: int| 0 <= i <= s ==> (#[trigger] replies[i]).ret != -1)
                ==> progress::made(steps)[s + 1] == (Syscall::Connect {
                fd: replies[0].ret,
                addr: *info.addr,
                addr_len: info.addr_len,
            })
        }),
        performs(
            Syscall::Socket { domain: info.kind, ty: stream_type(platform), protocol: 0 },
            connects(platform, *info.addr, info.addr_len),
            Some(platform.einprogress),
            false,
            progress::made(steps),
            replies,
            opened(steps.last()),
        ),
{
    crate::syscall::law_int_option_len();
    let todo = connects(platform, *info.addr, info.addr_len);
    assert forall|fd: i32| #[trigger]
        plan_is(plan@, fd, todo(fd), Some(platform.einprogress), false) by {}
    lemma_carried_out(plan, steps, replies, todo, Some(platform.einprogress), false);
    let s: int = if platform.os is MacOs {
        3
    } else {
        0
    };
    if replies.len() > s && (forall|i: int| 0 <= i <= s ==> (#[trigger] replies[i]).ret != -1) {
        lemma_call_at(
            plan.open,
            todo,
            Some(platform.einprogress),
            false,
            progress::made(steps),
            replies,
            opened(steps.last()),
            s,
        );
    }
}

/// Binding opens a stream socket of the family of the address, sets it up, binds it
/// to exactly the address and the length that were given, and then lets the address
/// be used again. Every error closes the socket.
pub proof fn law_bind_socket(
    info: AddrInfo<'_>,
    platform: Platform,
    plan: Plan,
    steps: Seq<Progress<Run, Result<AutoCloseFd, OsError>>>,
    replies: Seq<Reply>,
)
    requires
        call_ensures(bind_socket, (&info, &platform), plan),
        carried_out(plan, steps, replies),
    ensures
        progress::made(steps)[0] == (Syscall::Socket {
            domain: info.kind,
            ty: stream_type(platform),
            protocol: 0,
        }),
        ({
            let s: int = if platform.os is MacOs {
        3
    } else {
        0
    };
            replies.len() > s && (forall|i: int| 0 <= i <= s ==> (#[trigger] replies[i]).ret != -1)
                ==> progress::made(steps)[s + 1] == (Syscall::Bind {
                fd: replies[0].ret,
                addr: *info.addr,
                addr_len: info.addr_len,
            })
        }),
        ({
            let s: int = if platform.os is MacOs {
        3
    } else {
        0
    };
            replies.len() > s + 1 && (forall|i: int|
                0 <= i <= s + 1 ==> (#[trigger] replies[i]).ret != -1) ==> progress::made(steps)[s
                + 2] == Syscall::SetSockOpt(
                SetSockOpt {
                    fd: replies[0].ret,
                    level: platform.sol_socket,
                    name: platform.so_reuseaddr,
                    value: 1,
                    len: 4,
                },
            )
        }),
        performs(
            Syscall::Socket { domain: info.kind, ty: stream_type(platform), protocol: 0 },
            binds(platform, *info.addr, info.addr_len),
            None,
            false,
            progress::made(steps),
            replies,
            opened(steps.last()),
        ),
{
    crate::syscall::law_int_option_len();
    let todo = binds(platform, *info.addr, info.addr_len);
    assert forall|fd: i32| #[trigger] plan_is(plan@, fd, todo(fd), None, false) by {}
    lemma_carried_out(plan, steps, replies, todo, None, false);
    let s: int = if platform.os is MacOs {
        3
    } else {
        0
    };
    let made = progress::made(steps);
    if replies.len() > s && (forall|i: int| 0 <= i <= s ==> (#[trigger] replies[i]).ret != -1) {
        lemma_call_at(plan.open, todo, None, false, made, replies, opened(steps.last()), s);
    }
    if replies.len() > s + 1 && (forall|i: int|
        0 <= i <= s + 1 ==> (#[trigger] replies[i]).ret != -1) {
        lemma_call_at(plan.open, todo, None, false, made, replies, opened(steps.last()), s + 1);
    }
}

/// The call that takes a connection from the listening socket `fd`.
pub open spec fn accept_call(platform: Platform, fd: i32) -> Syscall {
    match platform.os {
        Os::Linux { sock_cloexec, sock_nonblock } => Syscall::Accept4 {
            fd,
            flags: sock_cloexec | sock_nonblock,
        },
        Os::MacOs { .. } => Syscall::Accept { fd },
    }
}

/// Taking a connection asks the listening socket for it, and sets the connection
/// up. An error in that closes the connection.
pub proof fn law_accept(
    fd: i32,
    platform: Platform,
    plan: Plan,
    steps: Seq<Progress<Run, Result<AutoCloseFd, OsError>>>,
    replies: Seq<Reply>,
)
    requires
        call_ensures(accept, (fd, &platform), plan),
        carried_out(plan, steps, replies),
    ensures
        performs(
            accept_call(platform, fd),
            only_setup(platform),
            None,
            false,
            progress::made(steps),
            replies,
            opened(steps.last()),
        ),
{
    crate::syscall::law_int_option_len();
    assert forall|own: i32| #[trigger]
        plan_is(plan@, own, only_setup(platform)(own), None, false) by {}
    lemma_carried_out(plan, steps, replies, only_setup(platform), None, false);
}

/// The call `call`, made on the descriptor `fd`, and on no other.
pub open spec fn is_made_on(call: FdCall, fd: i32, made: Syscall) -> bool {
    match (call, made) {
        (FdCall::Bind { addr, addr_len }, Syscall::Bind { fd: on, addr: to, addr_len: len }) => on
            == fd && to == addr && len == addr_len,
        (
            FdCall::Connect { addr, addr_len },
            Syscall::Connect { fd: on, addr: to, addr_len: len },
        ) => on == fd && to == addr && len == addr_len,
        (FdCall::Listen { backlog }, Syscall::Listen { fd: on, backlog: length }) => on == fd
            && length == backlog,
        (FdCall::SetSockOpt { level, name, value }, Syscall::SetSockOpt(option)) => {
            &&& option.fd == fd
            &&& option.level == level
            &&& option.name == name
            &&& option.value == value
            &&& option.len == 4
        },
        (FdCall::Ioctl { request, arg }, Syscall::Ioctl { fd: on, request: what, arg: with }) => on
            == fd && what == request && with == arg,
        _ => false,
    }
}

/// The reply lets a plan go on past `step`.
pub open spec fn lets_pass(step: Step, reply: Reply) -> bool {
    reply.ret != -1 || step.tolerated == Some(reply.errno)
}

/// The descriptor is open, and the first `n` steps of the plan have passed.
pub open spec fn passed(plan: Plan, replies: Seq<Reply>, n: int) -> bool {
    &&& 0 <= n <= plan.steps@.len()
    &&& n < replies.len()
    &&& replies[0].ret != -1
    &&& forall|i: int| 0 <= i < n ==> lets_pass(plan.steps@[i], #[trigger] replies[i + 1])
}

/// A call of a plan is made on the descriptor, as it is.
pub proof fn law_fd_call(call: FdCall, fd: i32, made: Syscall)
    requires
        call_ensures(FdCall::on, (call, fd), made),
    ensures
        is_made_on(call, fd, made),
{
    crate::syscall::law_int_option_len();
}

/// Any plan begins by opening its descriptor. If that fails, the error is the
/// outcome.
pub proof fn law_plan_opens(
    plan: Plan,
    steps: Seq<Progress<Run, Result<AutoCloseFd, OsError>>>,
    replies: Seq<Reply>,
)
    requires
        carried_out(plan, steps, replies),
    ensures
        steps[0] is Pending,
        steps[0]->call == plan.open,
        replies.len() > 0 && replies[0].ret == -1 ==> replies.len() == 1 && opened(steps.last())
            == Some(Err::<i32, OsError>(OsError { code: replies[0].errno })),
{
    lemma_run_trace(plan, steps, replies);
    if replies.len() > 0 && replies[0].ret == -1 {
        reveal_with_fuel(progress::after, 3);
        if replies.len() > 1 {
            assert(progress::after(plan@.start(), replies.drop_last()) is Complete);
        }
    }
}

/// Any plan makes its calls on the descriptor that was opened, in order, as long as
/// the replies let it. With the last one made, the descriptor is the outcome.
pub proof fn law_plan_goes_on(
    plan: Plan,
    steps: Seq<Progress<Run, Result<AutoCloseFd, OsError>>>,
    replies: Seq<Reply>,
    n: int,
)
    requires
        carried_out(plan, steps, replies),
        replies.len() == n + 1,
        passed(plan, replies, n),
    ensures
        n < plan.steps@.len() ==> steps.last() is Pending && is_made_on(
            plan.steps@[n].call,
            replies[0].ret,
            steps.last()->call,
        ),
        n == plan.steps@.len() ==> opened(steps.last()) == Some(
            Ok::<i32, OsError>(replies[0].ret),
        ),
{
    crate::syscall::law_int_option_len();
    lemma_run_trace(plan, steps, replies);
    let rest = replies.drop_first();
    assert forall|i: int| 0 <= i < rest.len() implies plan@.steps[0 + i].passes(
        #[trigger] rest[i],
    ) by {
        assert(rest[i] == replies[i + 1]);
        assert(lets_pass(plan.steps@[i], replies[i + 1]));
    }
    crate::plan::lemma_go_on(plan@, replies[0].ret, 0, rest);
}

proof fn lemma_failed_step(plan: PlanView, fd: i32, k: int, replies: Seq<Reply>)
    requires
        0 <= k < plan.steps.len(),
        replies.len() > 0,
        !plan.steps[k].passes(replies[0]),
    ensures
        ({
            let there = progress::after(plan.go_on(fd, k), replies);
            if plan.steps[k].closes && replies.len() == 1 {
                there is Pending && there->call == (Syscall::Close { fd })
            } else {
                came_to(there) == Some(Err::<i32, OsError>(OsError { code: replies[0].errno }))
            }
        }),
{
    reveal_with_fuel(progress::after, 3);
}

proof fn lemma_plan_fails(plan: PlanView, replies: Seq<Reply>, k: int)
    requires
        0 <= k < plan.steps.len(),
        replies.len() > k + 1,
        replies[0].ret != -1,
        forall|i: int| 0 <= i < k ==> plan.steps[i].passes(#[trigger] replies[i + 1]),
        !plan.steps[k].passes(replies[k + 1]),
    ensures
        ({
            let there = progress::after(plan.start(), replies);
            if plan.steps[k].closes && replies.len() == k + 2 {
                there is Pending && there->call == (Syscall::Close { fd: replies[0].ret })
            } else {
                came_to(there) == Some(Err::<i32, OsError>(OsError { code: replies[k + 1].errno }))
            }
        }),
{
    let fd = replies[0].ret;
    let before = replies.take(k + 1);
    let mid = before.drop_first();
    assert forall|i: int| 0 <= i < mid.len() implies plan.steps[0 + i].passes(#[trigger] mid[i]) by {
        assert(mid[i] == replies[i + 1]);
    }
    crate::plan::lemma_go_on(plan, fd, 0, mid);
    assert(progress::after(plan.start(), before) == plan.go_on(fd, k));
    let later = replies.skip(k + 1);
    assert(replies =~= before + later);
    progress::law_after_portions(plan.start(), before, later);
    assert(later[0] == replies[k + 1]);
    lemma_failed_step(plan, fd, k, later);
}

/// In any plan the first call that the reply does not let pass ends it with that
/// error. Where the step says so, the descriptor is closed first.
pub proof fn law_plan_fails(
    plan: Plan,
    steps: Seq<Progress<Run, Result<AutoCloseFd, OsError>>>,
    replies: Seq<Reply>,
    k: int,
)
    requires
        carried_out(plan, steps, replies),
        0 <= k < plan.steps@.len(),
        passed(plan, replies, k),
        replies.len() > k + 1,
        !lets_pass(plan.steps@[k], replies[k + 1]),
    ensures
        plan.steps@[k].closes ==> {
            &&& replies.len() <= k + 3
            &&& replies.len() == k + 2 ==> steps.last() is Pending && steps.last()->call == (
            Syscall::Close { fd: replies[0].ret })
            &&& replies.len() == k + 3 ==> opened(steps.last()) == Some(
                Err::<i32, OsError>(OsError { code: replies[k + 1].errno }),
            )
        },
        !plan.steps@[k].closes ==> replies.len() == k + 2 && opened(steps.last()) == Some(
            Err::<i32, OsError>(OsError { code: replies[k + 1].errno }),
        ),
{
    lemma_run_trace(plan, steps, replies);
    assert forall|i: int| 0 <= i < k implies plan@.steps[i].passes(#[trigger] replies[i + 1]) by {
        assert(lets_pass(plan.steps@[i], replies[i + 1]));
    }
    lemma_plan_fails(plan@, replies, k);
    if replies.len() > k + 2 {
        let most = replies.drop_last();
        assert forall|i: int| 0 <= i < k implies plan@.steps[i].passes(#[trigger] most[i + 1]) by {
            assert(most[i + 1] == replies[i + 1]);
        }
        assert(most[k + 1] == replies[k + 1] && most[0] == replies[0]);
        lemma_plan_fails(plan@, most, k);
    }
}

/// On macOS a fresh descriptor is closed on `exec`, raises no signal when its peer
/// is gone, and does not block. None of the three calls may fail.
pub proof fn law_make_socket_nonblocking(
    sol_socket: i32,
    fioclex: u64,
    so_nosigpipe: i32,
    fionbio: u64,
    steps: Vec<Step>,
)
    requires
        call_ensures(
            make_socket_nonblocking,
            (sol_socket, fioclex, so_nosigpipe, fionbio),
            steps,
        ),
    ensures
        steps@.len() == 3,
        steps@[0].call == (FdCall::Ioctl { request: fioclex, arg: None }),
        steps@[1].call == (FdCall::SetSockOpt { level: sol_socket, name: so_nosigpipe, value: 1 }),
        steps@[2].call == (FdCall::Ioctl { request: fionbio, arg: Some(1) }),
        forall|k: int|
            0 <= k < 3 ==> (#[trigger] steps@[k]).tolerated is None && steps@[k].closes,
{
}

/// A plan that waits for a reply can take any.
pub proof fn law_plan_takes_any_reply(
    plan: Plan,
    steps: Seq<Progress<Run, Result<AutoCloseFd, OsError>>>,
    replies: Seq<Reply>,
    reply: Reply,
)
    requires
        carried_out(plan, steps, replies),
        steps.last() is Pending,
    ensures
        call_requires(Run::resume, (steps.last()->state, &reply)),
{
    let n = replies.len() as int;
    if n > 0 {
        assert(steps[n - 1] is Pending);
    }
    assert(crate::plan::pending_wf(crate::plan::run_progress(steps[n])));
}

} // verus!
