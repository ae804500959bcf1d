//! Taking connections from a listener.
use vstd::prelude::*;

use crate::error::{kind_of, Error, ErrorKind, ErrorView, OsError};
use crate::listener::TcpListener;
use crate::plan::{Run, RunView};
use crate::platform::Platform;
use crate::progress;
use crate::progress::{Machine, Progress};
use crate::socket::{accept, ask_socket_error, check_socket_error};
use crate::stream::TcpStream;
use crate::syscall::{AutoCloseFd, Reply, Syscall};

verus! {

/// A connection that is being waited for. It is polled until it is ready.
#[derive(Clone, Copy, Debug)]
pub struct Accept {
    /// The listening socket.
    pub fd: i32,
    pub platform: Platform,
}

#[derive(Debug)]
enum Phase {
    /// The pending error of the listening socket is being read.
    Checking,
    /// The listening socket is being closed after this error.
    Closing { error: OsError },
    /// A connection is being taken.
    Accepting { run: Run },
}

/// One attempt to take a connection.
#[derive(Debug)]
pub struct Attempt {
    accept: Accept,
    phase: Phase,
}

/// What an attempt comes to.
#[derive(Debug)]
pub enum AttemptEnd {
    /// A connection was taken.
    Connected(AutoCloseFd),
    /// The listening socket is in error, and was closed.
    SocketError(OsError),
    /// No connection could be taken.
    AcceptError(OsError),
}

/// What polling for a connection comes to.
#[derive(Debug, PartialEq, Eq)]
pub enum AcceptPoll {
    Ready(Result<TcpStream, Error>),
    /// Nothing yet: poll again when the socket `fd` can be read.
    Pending { fd: i32 },
}

/// The mathematical content of an [`Attempt`].
pub enum AttemptView {
    Checking { fd: i32, platform: Platform },
    Closing { error: OsError },
    Accepting { run: RunView },
}

/// The mathematical content of an [`AttemptEnd`].
pub enum AttemptEndView {
    Connected(i32),
    SocketError(OsError),
    AcceptError(OsError),
}

/// The mathematical content of an [`AcceptPoll`].
pub enum AcceptPollView {
    Ready(Result<TcpStream, ErrorView>),
    Pending { fd: i32 },
}

pub type AttemptProgress = Progress<AttemptView, AttemptEndView>;

impl View for Attempt {
    type V = AttemptView;

    closed spec fn view(&self) -> AttemptView {
        match self.phase {
            Phase::Checking => AttemptView::Checking {
                fd: self.accept.fd,
                platform: self.accept.platform,
            },
            Phase::Closing { error } => AttemptView::Closing { error },
            Phase::Accepting { run } => AttemptView::Accepting { run: run@ },
        }
    }
}

impl View for AttemptEnd {
    type V = AttemptEndView;

    open spec fn view(&self) -> AttemptEndView {
        match *self {
            AttemptEnd::Connected(fd) => AttemptEndView::Connected(fd@),
            AttemptEnd::SocketError(error) => AttemptEndView::SocketError(error),
            AttemptEnd::AcceptError(error) => AttemptEndView::AcceptError(error),
        }
    }
}

impl View for AcceptPoll {
    type V = AcceptPollView;

    open spec fn view(&self) -> AcceptPollView {
        match *self {
            AcceptPoll::Ready(Ok(stream)) => AcceptPollView::Ready(Ok(stream)),
            AcceptPoll::Ready(Err(error)) => AcceptPollView::Ready(Err(error@)),
            AcceptPoll::Pending { fd } => AcceptPollView::Pending { fd },
        }
    }
}

impl AttemptView {
    pub open spec fn wf(self) -> bool {
        self matches AttemptView::Accepting { run } ==> run.wf()
    }
}

/// An attempt whose connection is taken by a run that stands at `progress`.
pub open spec fn accepting(progress: crate::plan::RunProgress) -> AttemptProgress {
    match progress {
        Progress::Pending { call, state } => Progress::Pending {
            call,
            state: AttemptView::Accepting { run: state },
        },
        Progress::Complete(Ok(fd)) => Progress::Complete(AttemptEndView::Connected(fd)),
        Progress::Complete(Err(error)) => Progress::Complete(AttemptEndView::AcceptError(error)),
    }
}

/// A socket in error is closed. From any other a connection is taken.
impl Machine for AttemptView {
    type Outcome = AttemptEndView;

    open spec fn next(self, reply: Reply) -> AttemptProgress {
        match self {
            AttemptView::Checking { fd, platform } => match crate::socket::socket_error(reply) {
                Some(error) => Progress::Pending {
                    call: Syscall::Close { fd },
                    state: AttemptView::Closing { error },
                },
                None => accepting(crate::socket::accept_plan(fd, platform).start()),
            },
            AttemptView::Closing { error } => Progress::Complete(
                AttemptEndView::SocketError(error),
            ),
            AttemptView::Accepting { run } => accepting(run.next(reply)),
        }
    }
}

/// The mathematical content of how far an attempt has come.
pub open spec fn attempt_progress(progress: Progress<Attempt, AttemptEnd>) -> AttemptProgress {
    match progress {
        Progress::Pending { call, state } => Progress::Pending { call, state: state@ },
        Progress::Complete(end) => Progress::Complete(end@),
    }
}

/// The attempt that is waited for, if any, is well formed.
pub open spec fn pending_wf(progress: AttemptProgress) -> bool {
    progress matches Progress::Pending { call, state } ==> state.wf()
}

impl TcpListener {
    /// Begins to wait for a connection.
    pub fn accept(&self, platform: &Platform) -> (result: Result<Accept, Error>)
        ensures
            match self.connections_stream.fd {
                Some(fd) => result matches Ok(accept) && accept == (Accept {
                    fd,
                    platform: *platform,
                }),
                None => result matches Err(error) && error@ == ErrorView::AlreadyClosed,
            },
    {
        match self.connections_stream.fd() {
            Ok(fd) => Ok(Accept { fd, platform: *platform }),
            Err(error) => Err(error),
        }
    }
}

impl Accept {
    /// Every attempt begins with a look at the listening socket.
    pub open spec fn first_call(self) -> AttemptProgress {
        Progress::Pending {
            call: crate::socket::pending_error_call(self.fd, self.platform),
            state: AttemptView::Checking { fd: self.fd, platform: self.platform },
        }
    }

    /// Begins an attempt to take a connection.
    pub fn poll(&self) -> (progress: Progress<Attempt, AttemptEnd>)
        ensures
            attempt_progress(progress) == self.first_call(),
            pending_wf(attempt_progress(progress)),
    {
        Progress::Pending {
            call: ask_socket_error(self.fd, &self.platform),
            state: Attempt { accept: *self, phase: Phase::Checking },
        }
    }

    /// What an attempt means to the one who polls, if `kind` is the kind of the
    /// error that kept a connection from being taken.
    pub open spec fn poll_result(self, end: AttemptEndView, kind: ErrorKind) -> AcceptPollView {
        match end {
            AttemptEndView::Connected(fd) => AcceptPollView::Ready(
                Ok(TcpStream { fd: Some(fd) }),
            ),
            AttemptEndView::SocketError(error) => AcceptPollView::Ready(
                Err(ErrorView::Accept { error }),
            ),
            AttemptEndView::AcceptError(error) => if kind is WouldBlock {
                AcceptPollView::Pending { fd: self.fd }
            } else {
                AcceptPollView::Ready(Err(ErrorView::Accept { error }))
            },
        }
    }

    /// Tells what an attempt means to the one who polls, given the kind of its
    /// error.
    pub fn finish_with_kind(&self, end: AttemptEnd, kind: ErrorKind) -> (poll: AcceptPoll)
        ensures
            poll@ == self.poll_result(end@, kind),
    {
        match end {
            AttemptEnd::Connected(fd) => AcceptPoll::Ready(Ok(TcpStream::new(fd))),
            AttemptEnd::SocketError(error) => AcceptPoll::Ready(Err(Error::Accept { error })),
            AttemptEnd::AcceptError(error) => if kind == ErrorKind::WouldBlock {
                AcceptPoll::Pending { fd: self.fd }
            } else {
                AcceptPoll::Ready(Err(Error::Accept { error }))
            },
        }
    }

    /// Tells what an attempt means to the one who polls. For an error that kept a
    /// connection from being taken, the kind that the system gives its number
    /// decides.
    pub fn finish(&self, end: AttemptEnd) -> (poll: AcceptPoll)
        ensures
            match end {
                AttemptEnd::AcceptError(error) => exists|kind: ErrorKind|
                    call_ensures(kind_of, (error.code,), kind) && poll@
                        == #[trigger] self.poll_result(end@, kind),
                _ => poll@ == self.poll_result(end@, ErrorKind::Other),
            },
    {
        let kind = match &end {
            AttemptEnd::AcceptError(error) => kind_of(error.code),
            _ => ErrorKind::Other,
        };
        self.finish_with_kind(end, kind)
    }
}

impl Attempt {
    fn accepting(
        accept: Accept,
        progress: Progress<Run, Result<AutoCloseFd, OsError>>,
    ) -> (result: Progress<Attempt, AttemptEnd>)
        requires
            crate::plan::pending_wf(crate::plan::run_progress(progress)),
        ensures
            attempt_progress(result) == accepting(crate::plan::run_progress(progress)),
            pending_wf(attempt_progress(result)),
    {
        match progress {
            Progress::Pending { call, state: run } => Progress::Pending {
                call,
                state: Attempt { accept, phase: Phase::Accepting { run } },
            },
            Progress::Complete(Ok(fd)) => Progress::Complete(AttemptEnd::Connected(fd)),
            Progress::Complete(Err(error)) => Progress::Complete(AttemptEnd::AcceptError(error)),
        }
    }

    /// Takes the reply to the call that the attempt waits for.
    pub fn resume(self, reply: &Reply) -> (progress: Progress<Attempt, AttemptEnd>)
        requires
            self@.wf(),
        ensures
            attempt_progress(progress) == self@.next(*reply),
            pending_wf(attempt_progress(progress)),
    {
        let Attempt { accept: waiting, phase } = self;
        match phase {
            Phase::Checking => match check_socket_error(reply) {
                Err(error) => Progress::Pending {
                    call: AutoCloseFd::new(waiting.fd).close(),
                    state: Attempt { accept: waiting, phase: Phase::Closing { error } },
                },
                Ok(()) => Attempt::accepting(
                    waiting,
                    accept(waiting.fd, &waiting.platform).start(),
                ),
            },
            Phase::Closing { error } => Progress::Complete(AttemptEnd::SocketError(error)),
            Phase::Accepting { run } => Attempt::accepting(waiting, run.resume(reply)),
        }
    }
}

/// An error that is pending on the listening socket ends the attempt: the socket
/// is closed, whatever that call replies, nothing else is called, and the error
/// is reported.
pub proof fn law_socket_error_closes(accept: Accept, reply: Reply, close_reply: Reply, error: OsError)
    requires
        crate::socket::socket_error(reply) == Some(error),
    ensures
        progress::after(accept.first_call(), seq![reply, close_reply]) == AttemptProgress::Complete(
            AttemptEndView::SocketError(error),
        ),
        progress::calls(accept.first_call(), seq![reply, close_reply]) == seq![
            crate::socket::pending_error_call(accept.fd, accept.platform),
            Syscall::Close { fd: accept.fd },
        ],
        forall|kind: ErrorKind| #[trigger]
            accept.poll_result(AttemptEndView::SocketError(error), kind) == AcceptPollView::Ready(
                Err(ErrorView::Accept { error }),
            ),
{
    let replies = seq![reply, close_reply];
    assert(replies.drop_first() =~= seq![close_reply]);
    assert(seq![close_reply].drop_first() =~= Seq::empty());
    reveal_with_fuel(progress::after, 3);
    reveal_with_fuel(progress::calls, 3);
    assert(progress::calls(accept.first_call(), replies) =~= seq![
        crate::socket::pending_error_call(accept.fd, accept.platform),
        Syscall::Close { fd: accept.fd },
    ]);
}

proof fn lemma_accepting(progress: crate::plan::RunProgress, replies: Seq<Reply>)
    ensures
        progress::after(accepting(progress), replies) == accepting(
            progress::after(progress, replies),
        ),
        progress::calls(accepting(progress), replies) == progress::calls(progress, replies),
    decreases replies.len(),
{
    if let Progress::Pending { call, state } = progress {
        if replies.len() > 0 {
            lemma_accepting(state.next(replies[0]), replies.drop_first());
        }
    }
}

/// With no error pending, an attempt is the taking of a connection: the same
/// calls follow the first, and the outcome is the same.
pub proof fn law_attempt_accepts(accept: Accept, replies: Seq<Reply>)
    requires
        replies.len() > 0,
        crate::socket::socket_error(replies[0]) is None,
    ensures
        ({
            let taking = crate::socket::accept_plan(accept.fd, accept.platform).start();
            let rest = replies.drop_first();
            &&& progress::after(accept.first_call(), replies) == accepting(
                progress::after(taking, rest),
            )
            &&& progress::calls(accept.first_call(), replies) == seq![
                crate::socket::pending_error_call(accept.fd, accept.platform),
            ] + progress::calls(taking, rest)
        }),
{
    lemma_accepting(
        crate::socket::accept_plan(accept.fd, accept.platform).start(),
        replies.drop_first(),
    );
}

/// Without a connection to take, and without an error but that taking one would
/// block, polling tells to wait for the listening socket, which stays open.
pub proof fn law_waits_when_blocked(accept: Accept, reply: Reply, blocked: Reply)
    requires
        crate::socket::socket_error(reply) is None,
        blocked.ret == -1,
    ensures
        progress::after(accept.first_call(), seq![reply, blocked]) == AttemptProgress::Complete(
            AttemptEndView::AcceptError(OsError { code: blocked.errno }),
        ),
        accept.poll_result(
            AttemptEndView::AcceptError(OsError { code: blocked.errno }),
            ErrorKind::WouldBlock,
        ) == (AcceptPollView::Pending { fd: accept.fd }),
        progress::calls(accept.first_call(), seq![reply, blocked]) == seq![
            crate::socket::pending_error_call(accept.fd, accept.platform),
            crate::socket::accept_plan(accept.fd, accept.platform).open,
        ],
{
    let plan = crate::socket::accept_plan(accept.fd, accept.platform);
    let replies = seq![reply, blocked];
    assert(replies.drop_first() =~= seq![blocked]);
    law_attempt_accepts(accept, replies);
    crate::plan::law_open_fails(plan, blocked);
    assert(progress::calls(accept.first_call(), replies) =~= seq![
        crate::socket::pending_error_call(accept.fd, accept.platform),
        plan.open,
    ]);
}

/// The replies carry one attempt to its end, and not past it.
pub open spec fn settles(accept: Accept, replies: Seq<Reply>) -> bool {
    &&& replies.len() > 0
    &&& progress::after(accept.first_call(), replies.drop_last()) is Pending
    &&& progress::after(accept.first_call(), replies) is Complete
}

/// What one poll comes to by `replies`, if `kind` is the kind of the error that
/// kept a connection from being taken.
pub open spec fn poll_by(accept: Accept, replies: Seq<Reply>, kind: ErrorKind) -> AcceptPollView
    recommends
        settles(accept, replies),
{
    accept.poll_result(progress::after(accept.first_call(), replies)->Complete_0, kind)
}

/// A connection was taken and set up: no error was pending on the listening
/// socket, and every further reply let the attempt go on.
pub open spec fn takes_connection(accept: Accept, replies: Seq<Reply>) -> bool {
    let plan = crate::socket::accept_plan(accept.fd, accept.platform);
    &&& crate::socket::socket_error(replies[0]) is None
    &&& plan.passes(replies.drop_first(), plan.steps.len() as int)
}

proof fn lemma_accepts_once(progress: crate::plan::RunProgress, replies: Seq<Reply>)
    requires
        progress matches Progress::Pending { call, state } ==> state !is Opening && call !is Accept
            && call !is Accept4,
    ensures
        forall|i: int|
            0 <= i < progress::calls(progress, replies).len() ==> (#[trigger] progress::calls(
                progress,
                replies,
            )[i]) !is Accept && progress::calls(progress, replies)[i] !is Accept4,
    decreases replies.len(),
{
    if let Progress::Pending { call, state } = progress {
        if replies.len() > 0 {
            let next = state.next(replies[0]);
            let rest = replies.drop_first();
            lemma_accepts_once(next, rest);
            let made = progress::calls(progress, replies);
            assert forall|i: int| 0 <= i < made.len() implies (#[trigger] made[i]) !is Accept
                && made[i] !is Accept4 by {
                if i > 0 {
                    assert(made[i] == progress::calls(next, rest)[i - 1]);
                }
            }
        }
    }
}

/// A poll reads the pending error of the listening socket before all else, and
/// asks for a connection at most once, right after that. It is a success exactly
/// when a connection was taken, and then gives that connection.
pub proof fn law_poll(accept: Accept, replies: Seq<Reply>, kind: ErrorKind)
    requires
        settles(accept, replies),
    ensures
        ({
            let made = progress::calls(accept.first_call(), replies);
            &&& made.len() > 0
            &&& made[0] == crate::socket::pending_error_call(accept.fd, accept.platform)
            &&& forall|i: int|
                1 < i < made.len() ==> (#[trigger] made[i]) !is Accept && made[i] !is Accept4
        }),
        poll_by(accept, replies, kind) matches AcceptPollView::Ready(Ok(_)) <==> takes_connection(
            accept,
            replies,
        ),
        takes_connection(accept, replies) ==> poll_by(accept, replies, kind)
            == AcceptPollView::Ready(Ok(TcpStream { fd: Some(replies[1].ret) })),
        poll_by(accept, replies, kind) matches AcceptPollView::Pending { fd } ==> fd == accept.fd,
{
    let first = accept.first_call();
    let rest = replies.drop_first();
    let made = progress::calls(first, replies);
    let plan = crate::socket::accept_plan(accept.fd, accept.platform);
    if let Some(error) = crate::socket::socket_error(replies[0]) {
        let closing = AttemptProgress::Pending {
            call: Syscall::Close { fd: accept.fd },
            state: AttemptView::Closing { error },
        };
        reveal_with_fuel(progress::after, 3);
        reveal_with_fuel(progress::calls, 3);
        assert(made == seq![crate::socket::pending_error_call(accept.fd, accept.platform)]
            + progress::calls(closing, rest));
        assert(rest.len() > 0);
        assert(progress::calls(closing, rest) =~= seq![Syscall::Close { fd: accept.fd }]);
    } else {
        law_attempt_accepts(accept, replies);
        assert(progress::after(plan.start(), rest) is Complete);
        crate::plan::law_run_outcome(
            plan,
            rest,
            progress::after(plan.start(), rest)->Complete_0,
        );
        let next = RunView::Opening { plan }.next(rest[0]);
        lemma_accepts_once(next, rest.drop_first());
        let later = progress::calls(next, rest.drop_first());
        assert(progress::calls(plan.start(), rest) == seq![plan.open] + later);
        assert forall|i: int| 1 < i < made.len() implies (#[trigger] made[i]) !is Accept
            && made[i] !is Accept4 by {
            assert(made[i] == later[i - 2]);
        }
    }
}

/// The replies of `rounds`, with the kinds of the errors, carry an accept over as
/// many polls: each but the last is not ready yet, and the last is.
pub open spec fn polled_until_ready(
    accept: Accept,
    rounds: Seq<Seq<Reply>>,
    kinds: Seq<ErrorKind>,
) -> bool {
    &&& rounds.len() > 0
    &&& rounds.len() == kinds.len()
    &&& forall|i: int| 0 <= i < rounds.len() ==> settles(accept, #[trigger] rounds[i])
    &&& forall|i: int|
        0 <= i < rounds.len() - 1 ==> poll_by(accept, #[trigger] rounds[i], kinds[i]) is Pending
    &&& poll_by(accept, rounds.last(), kinds.last()) is Ready
}

/// Over several polls: every poll but the last waits for the listening socket,
/// and takes no connection. Each poll looks for a pending error first, and asks
/// for a connection at most once. A connection is taken exactly when the accept
/// succeeds, by the last poll, and it is the one that is given.
pub proof fn law_accept_polls(accept: Accept, rounds: Seq<Seq<Reply>>, kinds: Seq<ErrorKind>)
    requires
        polled_until_ready(accept, rounds, kinds),
    ensures
        forall|i: int|
            0 <= i < rounds.len() - 1 ==> poll_by(accept, #[trigger] rounds[i], kinds[i]) == (
            AcceptPollView::Pending { fd: accept.fd }) && !takes_connection(accept, rounds[i]),
        forall|i: int|
            0 <= i < rounds.len() ==> {
                let made = progress::calls(accept.first_call(), #[trigger] rounds[i]);
                &&& made.len() > 0
                &&& made[0] == crate::socket::pending_error_call(accept.fd, accept.platform)
                &&& forall|j: int|
                    1 < j < made.len() ==> (#[trigger] made[j]) !is Accept && made[j] !is Accept4
            },
        match poll_by(accept, rounds.last(), kinds.last()) {
            AcceptPollView::Ready(Ok(stream)) => {
                &&& takes_connection(accept, rounds.last())
                &&& stream == (TcpStream { fd: Some(rounds.last()[1].ret) })
            },
            _ => forall|i: int|
                0 <= i < rounds.len() ==> !takes_connection(accept, #[trigger] rounds[i]),
        },
{
    assert forall|i: int| 0 <= i < rounds.len() implies {
        let made = progress::calls(accept.first_call(), #[trigger] rounds[i]);
        &&& made.len() > 0
        &&& made[0] == crate::socket::pending_error_call(accept.fd, accept.platform)
        &&& forall|j: int|
            1 < j < made.len() ==> (#[trigger] made[j]) !is Accept && made[j] !is Accept4
    } by {
        law_poll(accept, rounds[i], kinds[i]);
    }
    assert forall|i: int| 0 <= i < rounds.len() - 1 implies poll_by(
        accept,
        #[trigger] rounds[i],
        kinds[i],
    ) == (AcceptPollView::Pending { fd: accept.fd }) && !takes_connection(accept, rounds[i]) by {
        law_poll(accept, rounds[i], kinds[i]);
    }
    law_poll(accept, rounds.last(), kinds.last());
}

/// Whatever the system replies, an attempt closes the listening socket only after
/// a pending error, as its second and last call. Without one, the only descriptor
/// that it closes is that of the connection which it took.
pub proof fn law_attempt_closes(accept: Accept, replies: Seq<Reply>)
    ensures
        ({
            let made = progress::calls(accept.first_call(), replies);
            &&& replies.len() > 0 && crate::socket::socket_error(replies[0]) is Some ==> made
                == seq![
                crate::socket::pending_error_call(accept.fd, accept.platform),
                Syscall::Close { fd: accept.fd },
            ]
            &&& replies.len() == 0 || crate::socket::socket_error(replies[0]) is None ==> forall|
                i: int,
            |
                0 <= i < made.len() && (#[trigger] made[i]) is Close ==> {
                    &&& replies.len() > 1
                    &&& replies[1].ret != -1
                    &&& made[i] == (Syscall::Close { fd: replies[1].ret })
                }
        }),
{
    let made = progress::calls(accept.first_call(), replies);
    let asked = crate::socket::pending_error_call(accept.fd, accept.platform);
    if replies.len() > 0 {
        let rest = replies.drop_first();
        match crate::socket::socket_error(replies[0]) {
            Some(error) => {
                let closing = AttemptProgress::Pending {
                    call: Syscall::Close { fd: accept.fd },
                    state: AttemptView::Closing { error },
                };
                assert(made == seq![asked] + progress::calls(closing, rest));
                reveal_with_fuel(progress::calls, 3);
                assert(progress::calls(closing, rest) =~= seq![Syscall::Close { fd: accept.fd }]);
                assert(made =~= seq![asked, Syscall::Close { fd: accept.fd }]);
            },
            None => {
                law_attempt_accepts(accept, replies);
                let plan = crate::socket::accept_plan(accept.fd, accept.platform);
                assert forall|i: int| 0 <= i < made.len() && (#[trigger] made[i]) is Close implies {
                    &&& replies.len() > 1
                    &&& replies[1].ret != -1
                    &&& made[i] == (Syscall::Close { fd: replies[1].ret })
                } by {
                    assert(i > 0);
                    assert(made[i] == progress::calls(plan.start(), rest)[i - 1]);
                    crate::plan::law_closes_own(plan, rest, i - 1);
                }
            },
        }
    }
}

/// An attempt comes to an end: after one reply for the pending error, and as many
/// as the taking of a connection takes.
pub proof fn law_attempt_ends(accept: Accept, replies: Seq<Reply>)
    requires
        replies.len() >= crate::socket::nonblocking_steps(accept.platform).len() + 3,
    ensures
        progress::after(accept.first_call(), replies) is Complete,
{
    if crate::socket::socket_error(replies[0]) is None {
        law_attempt_accepts(accept, replies);
        crate::plan::law_run_ends(
            crate::socket::accept_plan(accept.fd, accept.platform),
            replies.drop_first(),
        );
    } else {
        reveal_with_fuel(progress::after, 4);
    }
}

} // verus!
