//! What it takes to accept a connection.
use vstd::prelude::*;

use crate::accept::{Accept, AcceptPoll, Attempt, AttemptEnd};
use crate::error::{kind_of, Error, ErrorKind, OsError};
use crate::listener::TcpListener;
use crate::platform::{Os, Platform};
use crate::progress;
use crate::progress::{Machine, Progress};
use crate::socket::{ask_socket_error, check_socket_error};
use crate::stream::TcpStream;
use crate::syscall::{Reply, Syscall};

verus! {

/// The reply to the question for a pending error is taken like this: an error of
/// the call itself comes first, then the error that was pending. With neither, all
/// is well, and the number of an older error does not matter.
pub proof fn law_check_socket_error(reply: Reply, result: Result<(), OsError>)
    requires
        call_ensures(check_socket_error, (&reply,), result),
    ensures
        reply.ret != -1 && reply.value == 0 ==> result == Ok::<(), OsError>(()),
        reply.ret != -1 && reply.value != 0 ==> result == Err::<(), OsError>(
            OsError { code: reply.value },
        ),
        reply.ret == -1 ==> result == Err::<(), OsError>(OsError { code: reply.errno }),
{
}

/// The pending error is an option of the socket itself, an integer of four bytes.
pub proof fn law_ask_socket_error(fd: i32, platform: Platform, call: Syscall)
    requires
        call_ensures(ask_socket_error, (fd, &platform), call),
    ensures
        call == (Syscall::GetSockOpt {
            fd,
            level: platform.sol_socket,
            name: platform.so_error,
            len: 4,
        }),
{
    crate::syscall::law_int_option_len();
}

/// An open listener waits for a connection on its own descriptor. A closed one
/// does not wait.
pub proof fn law_listener_accept(
    listener: TcpListener,
    platform: Platform,
    result: Result<Accept, Error>,
)
    requires
        call_ensures(TcpListener::accept, (&listener, &platform), result),
    ensures
        match listener.connections_stream.fd {
            Some(fd) => result matches Ok(accept) && accept.fd == fd && accept.platform == platform,
            None => result matches Err(error) && error is AlreadyClosed,
        },
{
}

/// `steps` is how an attempt to take a connection is carried out by `replies`.
pub open spec fn attempted(
    accept: Accept,
    steps: Seq<Progress<Attempt, AttemptEnd>>,
    replies: Seq<Reply>,
) -> bool {
    &&& steps.len() == replies.len() + 1
    &&& call_ensures(Accept::poll, (&accept,), steps[0])
    &&& forall|i: int|
        0 <= i < replies.len() ==> (#[trigger] steps[i]) is Pending && call_ensures(
            Attempt::resume,
            (steps[i]->state, &replies[i]),
            steps[i + 1],
        )
}

/// What taking a connection has come to, in an attempt that found no error on the
/// listening socket.
pub open spec fn taken(step: Progress<Attempt, AttemptEnd>) -> Option<Result<i32, OsError>>
    recommends
        step matches Progress::Complete(end) ==> end !is SocketError,
{
    match step {
        Progress::Complete(AttemptEnd::Connected(fd)) => Some(Ok(fd@)),
        Progress::Complete(AttemptEnd::AcceptError(error)) => Some(Err(error)),
        _ => None,
    }
}

/// The replies of an attempt, and what it makes of them: first the pending error of
/// the listening socket is asked for. If that fails, or tells of an error, the
/// listening socket is closed, and the attempt ends with the error. In every other
/// case, whatever `errno` holds, a connection is taken from the listening socket.
pub proof fn law_attempt(
    accept: Accept,
    steps: Seq<Progress<Attempt, AttemptEnd>>,
    replies: Seq<Reply>,
)
    requires
        attempted(accept, steps, replies),
    ensures
        progress::made(steps)[0] == (Syscall::GetSockOpt {
            fd: accept.fd,
            level: accept.platform.sol_socket,
            name: accept.platform.so_error,
            len: 4,
        }),
        replies.len() == 0 ==> steps.last() is Pending,
        replies.len() > 0 && (replies[0].ret == -1 || replies[0].value != 0) ==> {
            &&& replies.len() <= 2
            &&& progress::made(steps).len() == 2
            &&& progress::made(steps)[1] == (Syscall::Close { fd: accept.fd })
            &&& replies.len() == 1 ==> steps.last() is Pending
            &&& replies.len() == 2 ==> steps.last() == Progress::<Attempt, AttemptEnd>::Complete(
                AttemptEnd::SocketError(
                    OsError {
                        code: if replies[0].ret == -1 {
                            replies[0].errno
                        } else {
                            replies[0].value
                        },
                    },
                ),
            )
        },
        replies.len() > 0 && replies[0].ret != -1 && replies[0].value == 0 ==> {
            &&& match accept.platform.os {
                Os::Linux { sock_cloexec, sock_nonblock } => progress::made(steps)[1] == (
                Syscall::Accept4 { fd: accept.fd, flags: sock_cloexec | sock_nonblock }),
                Os::MacOs { .. } => progress::made(steps)[1] == (Syscall::Accept { fd: accept.fd }),
            }
            &&& steps.last() matches Progress::Complete(end) ==> end !is SocketError
            &&& super::performs(
                super::accept_call(accept.platform, accept.fd),
                super::only_setup(accept.platform),
                None,
                false,
                progress::made(steps).drop_first(),
                replies.drop_first(),
                taken(steps.last()),
            )
        },
{
    crate::syscall::law_int_option_len();
    let views = steps.map_values(
        |step: Progress<Attempt, AttemptEnd>| crate::accept::attempt_progress(step),
    );
    let first = accept.first_call();
    assert(views[0] == first);
    assert forall|i: int| 0 <= i < replies.len() implies (#[trigger] views[i]) is Pending && views[i
        + 1] == views[i]->state.next(replies[i]) by {
        assert(steps[i] is Pending);
    }
    progress::law_chain(views, replies);
    let calls = progress::calls(first, replies);
    assert(progress::made(steps) =~= calls);
    assert(crate::accept::attempt_progress(steps.last()) == progress::after(first, replies));
    if replies.len() > 0 {
        let reply = replies[0];
        let rest = replies.drop_first();
        if reply.ret == -1 || reply.value != 0 {
            reveal_with_fuel(progress::after, 4);
            reveal_with_fuel(progress::calls, 4);
            if replies.len() > 2 {
                assert(progress::after(first, replies.drop_last()) is Complete);
            }
        } else {
            let plan = crate::socket::accept_plan(accept.fd, accept.platform);
            crate::accept::law_attempt_accepts(accept, replies);
            if rest.len() > 0 {
                crate::accept::law_attempt_accepts(accept, replies.drop_last());
                assert(replies.drop_last().drop_first() =~= rest.drop_last());
            }
            let todo = super::only_setup(accept.platform);
            assert forall|fd: i32| #[trigger] super::plan_is(plan, fd, todo(fd), None, false) by {}
            super::lemma_performs(plan, todo, None, false, rest);
            assert(calls.drop_first() =~= progress::calls(plan.start(), rest));
            assert(taken(steps.last()) == super::came_to(progress::after(plan.start(), rest)));
        }
    }
}

/// An attempt that waits for a reply can take any.
pub proof fn law_attempt_takes_any_reply(
    accept: Accept,
    steps: Seq<Progress<Attempt, AttemptEnd>>,
    replies: Seq<Reply>,
    reply: Reply,
)
    requires
        attempted(accept, steps, replies),
        steps.last() is Pending,
    ensures
        call_requires(Attempt::resume, (steps.last()->state, &reply)),
{
    let n = replies.len() as int;
    if n > 0 {
        assert(steps[n - 1] is Pending);
    }
    assert(crate::accept::pending_wf(crate::accept::attempt_progress(steps[n])));
}

/// What the one who polls is told at the end of an attempt.
pub open spec fn finished(
    accept: Accept,
    end: AttemptEnd,
    kind: ErrorKind,
    poll: AcceptPoll,
) -> bool {
    match end {
        AttemptEnd::Connected(fd) => poll == AcceptPoll::Ready(Ok(TcpStream { fd: Some(fd@) })),
        AttemptEnd::SocketError(error) => poll == AcceptPoll::Ready(Err(Error::Accept { error })),
        AttemptEnd::AcceptError(error) => if kind == ErrorKind::WouldBlock {
            poll == (AcceptPoll::Pending { fd: accept.fd })
        } else {
            poll == AcceptPoll::Ready(Err(Error::Accept { error }))
        },
    }
}

/// What an attempt means to the one who polls, given the kind of its error: a
/// connection is handed over, and an error is reported, unless it only tells that
/// taking a connection would block. Then the listening socket is waited for.
pub proof fn law_finish_with_kind(
    accept: Accept,
    end: AttemptEnd,
    kind: ErrorKind,
    poll: AcceptPoll,
)
    requires
        call_ensures(Accept::finish_with_kind, (&accept, end, kind), poll),
    ensures
        finished(accept, end, kind, poll),
{
}

/// The error number of an attempt decides by the kind that the system gives it.
pub proof fn law_finish(accept: Accept, end: AttemptEnd, poll: AcceptPoll)
    requires
        call_ensures(Accept::finish, (&accept, end), poll),
    ensures
        end matches AttemptEnd::AcceptError(error) ==> exists|kind: ErrorKind| #[trigger]
            call_ensures(kind_of, (error.code,), kind) && finished(accept, end, kind, poll),
        end !is AcceptError ==> forall|kind: ErrorKind| #[trigger]
            finished(accept, end, kind, poll),
{
    if let AttemptEnd::AcceptError(error) = end {
        let kind = choose|kind: ErrorKind|
            call_ensures(kind_of, (error.code,), kind) && poll@ == #[trigger] accept.poll_result(
                end@,
                kind,
            );
        assert(finished(accept, end, kind, poll));
    }
}

} // verus!
