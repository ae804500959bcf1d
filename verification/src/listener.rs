//! A socket that listens for connections.
use vstd::prelude::*;

use crate::addr::{AddrInfo, SockAddr};
use crate::error::{Error, ErrorView, OsError};
use crate::plan::{FdCall, Plan, PlanView, Run, RunView, Step};
use crate::platform::Platform;
use crate::progress;
use crate::progress::{Machine, Progress};
use crate::resolve::{resolve_addr, AddrEntry, LookupError};
use crate::socket::bind_socket;
use crate::stream::TcpStream;
use crate::syscall::Reply;
use crate::text::format_host_port;

verus! {

/// A socket that listens for connections.
#[derive(Debug, PartialEq, Eq)]
pub struct TcpListener {
    pub connections_stream: TcpStream,
}

/// Opening a socket, binding it to `addr`, and listening on it. When only
/// listening fails, the socket is left as it is.
pub open spec fn listen_plan(addr: SockAddr, platform: Platform) -> PlanView {
    let bind = crate::socket::bind_plan(
        addr.family(platform),
        addr,
        addr.size(platform),
        platform,
    );
    PlanView {
        open: bind.open,
        steps: bind.steps.push(
            Step {
                call: FdCall::Listen { backlog: platform.somaxconn },
                tolerated: None,
                closes: false,
            },
        ),
    }
}

/// The listener on the descriptor `fd`.
pub open spec fn listener_on(fd: i32) -> TcpListener {
    TcpListener { connections_stream: TcpStream { fd: Some(fd) } }
}

/// A listener that is being bound: one address after the other is tried.
#[derive(Debug)]
pub struct Bind {
    host: String,
    port: u16,
    addrs: Vec<SockAddr>,
    platform: Platform,
    at: usize,
    run: Run,
}

/// The mathematical content of a [`Bind`].
pub struct BindView {
    pub host: Seq<char>,
    pub port: u16,
    /// The addresses to try.
    pub addrs: Seq<SockAddr>,
    pub platform: Platform,
    /// Which address is being tried.
    pub at: int,
    pub run: RunView,
}

pub type BindProgress = Progress<BindView, Result<TcpListener, ErrorView>>;

impl View for Bind {
    type V = BindView;

    closed spec fn view(&self) -> BindView {
        BindView {
            host: self.host@,
            port: self.port,
            addrs: self.addrs@,
            platform: self.platform,
            at: self.at as int,
            run: self.run@,
        }
    }
}

/// Binding to `host` and `port`, about to try the address `at`.
pub open spec fn try_addr(
    host: Seq<char>,
    port: u16,
    addrs: Seq<SockAddr>,
    platform: Platform,
    at: int,
) -> BindProgress {
    let plan = listen_plan(addrs[at], platform);
    Progress::Pending {
        call: plan.open,
        state: BindView { host, port, addrs, platform, at, run: RunView::Opening { plan } },
    }
}

/// Binding to the addresses that `host` and `port` resolve to. Without any there
/// is nothing to bind to.
pub open spec fn bind_start(
    host: Seq<char>,
    port: u16,
    resolved: Result<Seq<SockAddr>, ErrorView>,
    platform: Platform,
) -> BindProgress {
    match resolved {
        Err(error) => Progress::Complete(Err(error)),
        Ok(addrs) => if addrs.len() == 0 {
            Progress::Complete(
                Err(ErrorView::ResolveAddress(crate::text::host_port(host, port))),
            )
        } else {
            try_addr(host, port, addrs, platform, 0)
        },
    }
}

impl BindView {
    pub open spec fn wf(self) -> bool {
        &&& 0 <= self.at < self.addrs.len()
        &&& self.run.wf()
    }
}

impl Machine for BindView {
    type Outcome = Result<TcpListener, ErrorView>;

    /// The first address that works wins. When none does, the last error counts.
    open spec fn next(self, reply: Reply) -> BindProgress {
        match self.run.next(reply) {
            Progress::Pending { call, state } => Progress::Pending {
                call,
                state: BindView { run: state, ..self },
            },
            Progress::Complete(Ok(fd)) => Progress::Complete(Ok(listener_on(fd))),
            Progress::Complete(Err(error)) => if self.at + 1 < self.addrs.len() {
                try_addr(self.host, self.port, self.addrs, self.platform, self.at + 1)
            } else {
                Progress::Complete(
                    Err(
                        ErrorView::Bind {
                            error,
                            address: crate::text::host_port(self.host, self.port),
                        },
                    ),
                )
            },
        }
    }
}

/// The mathematical content of how far a bind has come.
pub open spec fn bind_progress(progress: Progress<Bind, Result<TcpListener, Error>>) -> BindProgress {
    match progress {
        Progress::Pending { call, state } => Progress::Pending { call, state: state@ },
        Progress::Complete(Ok(listener)) => Progress::Complete(Ok(listener)),
        Progress::Complete(Err(error)) => Progress::Complete(Err(error@)),
    }
}

/// The bind that is waited for, if any, is well formed.
pub open spec fn pending_wf(progress: BindProgress) -> bool {
    progress matches Progress::Pending { call, state } ==> state.wf()
}

impl TcpListener {
    /// Begins to bind a listener to `host` and `port`, given what came of the
    /// lookup of `host`.
    pub fn bind(
        host: &str,
        port: u16,
        lookup: &Result<Vec<AddrEntry>, LookupError>,
        platform: &Platform,
    ) -> (progress: Progress<Bind, Result<TcpListener, Error>>)
        requires
            crate::resolve::well_read(crate::resolve::lookup_view(*lookup), *platform),
        ensures
            bind_progress(progress) == bind_start(
                host@,
                port,
                crate::resolve::resolution(
                    host@,
                    port,
                    crate::resolve::lookup_view(*lookup),
                    *platform,
                ),
                *platform,
            ),
            pending_wf(bind_progress(progress)),
    {
        let addrs: Vec<SockAddr> = match resolve_addr(host, port, lookup, platform) {
            Ok(addrs) => addrs,
            Err(error) => {
                return Progress::Complete(Err(error));
            },
        };
        if addrs.len() == 0 {
            return Progress::Complete(Err(Error::ResolveAddress(format_host_port(host, port))));
        }
        Bind::try_addr(host.to_owned(), port, addrs, *platform, 0)
    }

    /// Plans to open a socket, to bind it, and to listen on it.
    fn bind_single(addr_info: &AddrInfo<'_>, platform: &Platform) -> (plan: Plan)
        requires
            addr_info.describes(*addr_info.addr, *platform),
        ensures
            plan@ == listen_plan(*addr_info.addr, *platform),
    {
        let mut plan = bind_socket(addr_info, platform);
        plan.steps.push(
            Step {
                call: FdCall::Listen { backlog: platform.somaxconn },
                tolerated: None,
                closes: false,
            },
        );
        plan
    }
}

impl Bind {
    fn try_addr(
        host: String,
        port: u16,
        addrs: Vec<SockAddr>,
        platform: Platform,
        at: usize,
    ) -> (progress: Progress<Bind, Result<TcpListener, Error>>)
        requires
            at < addrs@.len(),
        ensures
            bind_progress(progress) == try_addr(host@, port, addrs@, platform, at as int),
            pending_wf(bind_progress(progress)),
    {
        let plan = TcpListener::bind_single(&AddrInfo::from(&addrs[at], &platform), &platform);
        match plan.start() {
            Progress::Pending { call, state: run } => Progress::Pending {
                call,
                state: Bind { host, port, addrs, platform, at, run },
            },
            Progress::Complete(_) => vstd::pervasive::unreached(),
        }
    }

    /// Takes the reply to the call that the bind waits for.
    pub fn resume(self, reply: &Reply) -> (progress: Progress<Bind, Result<TcpListener, Error>>)
        requires
            self@.wf(),
        ensures
            bind_progress(progress) == self@.next(*reply),
            pending_wf(bind_progress(progress)),
    {
        let Bind { host, port, addrs, platform, at, run } = self;
        match run.resume(reply) {
            Progress::Pending { call, state: run } => Progress::Pending {
                call,
                state: Bind { host, port, addrs, platform, at, run },
            },
            Progress::Complete(Ok(fd)) => Progress::Complete(
                Ok(TcpListener { connections_stream: TcpStream::new(fd) }),
            ),
            Progress::Complete(Err(error)) => {
                assert(at < addrs.len());
                if at + 1 < addrs.len() {
                    Bind::try_addr(host, port, addrs, platform, at + 1)
                } else {
                    Progress::Complete(
                        Err(Error::Bind { error, address: format_host_port(host.as_str(), port) }),
                    )
                }
            },
        }
    }
}

/// The replies carry the attempt at `addr` to its end, and not past it.
pub open spec fn settles(addr: SockAddr, platform: Platform, replies: Seq<Reply>) -> bool {
    let start = listen_plan(addr, platform).start();
    &&& replies.len() > 0
    &&& progress::after(start, replies.drop_last()) is Pending
    &&& progress::after(start, replies) is Complete
}

/// What the attempt at `addr` comes to by `replies`: a descriptor or an error.
pub open spec fn attempt(addr: SockAddr, platform: Platform, replies: Seq<Reply>) -> Result<
    i32,
    OsError,
>
    recommends
        settles(addr, platform, replies),
{
    progress::after(listen_plan(addr, platform).start(), replies)->Complete_0
}

/// Binding and listening loses no descriptor, whatever the system replies, except
/// when everything succeeds but listening.
pub proof fn law_listen_accounted(addr: SockAddr, platform: Platform, replies: Seq<Reply>)
    requires
        replies.len() > 0,
        !listen_plan(addr, platform).first_failure(
            0,
            replies.drop_first(),
            listen_plan(addr, platform).steps.len() - 1,
        ),
    ensures
        crate::plan::accounted(listen_plan(addr, platform), replies),
{
    crate::plan::law_descriptor_accounted(listen_plan(addr, platform), replies);
}

proof fn lemma_bind_follows_run(
    bind: BindView,
    call: crate::syscall::Syscall,
    replies: Seq<Reply>,
)
    ensures
        ({
            let run = progress::after(Progress::Pending { call, state: bind.run }, replies);
            run matches Progress::Pending { call: waits, state } ==> progress::after(
                Progress::Pending { call, state: bind },
                replies,
            ) == BindProgress::Pending { call: waits, state: BindView { run: state, ..bind } }
        }),
        progress::after(Progress::Pending { call, state: bind.run }, replies) is Pending
            ==> progress::calls(Progress::Pending { call, state: bind }, replies)
            == progress::calls(Progress::Pending { call, state: bind.run }, replies),
    decreases replies.len(),
{
    if replies.len() > 0 {
        match bind.run.next(replies[0]) {
            Progress::Pending { call: waits, state } => {
                lemma_bind_follows_run(
                    BindView { run: state, ..bind },
                    waits,
                    replies.drop_first(),
                );
            },
            Progress::Complete(_) => {
                reveal_with_fuel(progress::after, 3);
            },
        }
    } else {
        assert(BindView { run: bind.run, ..bind } == bind);
    }
}

/// One attempt decides: its descriptor makes the listener, its error lets the
/// next address be tried, and after the last address it is the error of the bind.
/// Nothing is called but what the attempt calls.
pub proof fn law_bind_attempt(
    host: Seq<char>,
    port: u16,
    addrs: Seq<SockAddr>,
    platform: Platform,
    at: int,
    replies: Seq<Reply>,
)
    requires
        0 <= at < addrs.len(),
        settles(addrs[at], platform, replies),
    ensures
        progress::after(try_addr(host, port, addrs, platform, at), replies) == match attempt(
            addrs[at],
            platform,
            replies,
        ) {
            Ok(fd) => BindProgress::Complete(Ok(listener_on(fd))),
            Err(error) => if at + 1 < addrs.len() {
                try_addr(host, port, addrs, platform, at + 1)
            } else {
                BindProgress::Complete(
                    Err(ErrorView::Bind { error, address: crate::text::host_port(host, port) }),
                )
            },
        },
        progress::calls(try_addr(host, port, addrs, platform, at), replies.drop_last())
            == progress::calls(listen_plan(addrs[at], platform).start(), replies.drop_last()),
{
    let plan = listen_plan(addrs[at], platform);
    let run = RunView::Opening { plan };
    let bind = BindView { host, port, addrs, platform, at, run };
    let before = replies.drop_last();
    let last = seq![replies.last()];
    assert(replies =~= before + last);
    lemma_bind_follows_run(bind, plan.open, before);
    progress::law_after_portions(plan.start(), before, last);
    progress::law_after_portions(try_addr(host, port, addrs, platform, at), before, last);
    assert(last.drop_first() =~= Seq::empty());
    reveal_with_fuel(progress::after, 2);
}

proof fn lemma_bind_rounds(
    host: Seq<char>,
    port: u16,
    addrs: Seq<SockAddr>,
    platform: Platform,
    at: int,
    rounds: Seq<Seq<Reply>>,
)
    requires
        0 <= at,
        at + rounds.len() < addrs.len(),
        forall|i: int|
            0 <= i < rounds.len() ==> settles(addrs[at + i], platform, #[trigger] rounds[i])
                && attempt(addrs[at + i], platform, rounds[i]) is Err,
    ensures
        progress::after(try_addr(host, port, addrs, platform, at), rounds.flatten()) == try_addr(
            host,
            port,
            addrs,
            platform,
            at + rounds.len(),
        ),
    decreases rounds.len(),
{
    if rounds.len() > 0 {
        let rest = rounds.drop_first();
        assert(settles(addrs[at + 0], platform, rounds[0]));
        law_bind_attempt(host, port, addrs, platform, at, rounds[0]);
        assert forall|i: int| 0 <= i < rest.len() implies settles(
            addrs[at + 1 + i],
            platform,
            #[trigger] rest[i],
        ) && attempt(addrs[at + 1 + i], platform, rest[i]) is Err by {
            assert(rest[i] == rounds[i + 1]);
            assert(addrs[at + (i + 1)] == addrs[at + 1 + i]);
        }
        lemma_bind_rounds(host, port, addrs, platform, at + 1, rest);
        progress::law_after_portions(
            try_addr(host, port, addrs, platform, at),
            rounds[0],
            rest.flatten(),
        );
        assert(rounds.flatten() == rounds[0] + rest.flatten());
    }
}

proof fn lemma_bind_last_round(
    host: Seq<char>,
    port: u16,
    addrs: Seq<SockAddr>,
    platform: Platform,
    rounds: Seq<Seq<Reply>>,
)
    requires
        0 < rounds.len() <= addrs.len(),
        forall|i: int|
            0 <= i < rounds.len() ==> settles(addrs[i], platform, #[trigger] rounds[i]),
        forall|i: int|
            0 <= i < rounds.len() - 1 ==> attempt(addrs[i], platform, #[trigger] rounds[i]) is Err,
    ensures
        progress::after(
            bind_start(host, port, Ok(addrs), platform),
            rounds.flatten(),
        ) == progress::after(
            try_addr(host, port, addrs, platform, rounds.len() - 1),
            rounds.last(),
        ),
{
    let before = rounds.drop_last();
    assert forall|i: int| 0 <= i < before.len() implies settles(
        addrs[0 + i],
        platform,
        #[trigger] before[i],
    ) && attempt(addrs[0 + i], platform, before[i]) is Err by {
        assert(before[i] == rounds[i]);
    }
    lemma_bind_rounds(host, port, addrs, platform, 0, before);
    assert(rounds =~= before.push(rounds.last()));
    before.lemma_flatten_push(rounds.last());
    progress::law_after_portions(
        try_addr(host, port, addrs, platform, 0),
        before.flatten(),
        rounds.last(),
    );
}

/// The listener lives on the first address that works: addresses are tried in
/// order, and an attempt that fails lets the next one be tried.
pub proof fn law_bind_first_success(
    host: Seq<char>,
    port: u16,
    addrs: Seq<SockAddr>,
    platform: Platform,
    rounds: Seq<Seq<Reply>>,
    fd: i32,
)
    requires
        0 < rounds.len() <= addrs.len(),
        forall|i: int|
            0 <= i < rounds.len() ==> settles(addrs[i], platform, #[trigger] rounds[i]),
        forall|i: int|
            0 <= i < rounds.len() - 1 ==> attempt(addrs[i], platform, #[trigger] rounds[i]) is Err,
        attempt(addrs[rounds.len() - 1], platform, rounds.last()) == Ok::<i32, OsError>(fd),
    ensures
        progress::after(bind_start(host, port, Ok(addrs), platform), rounds.flatten())
            == BindProgress::Complete(Ok(listener_on(fd))),
{
    lemma_bind_last_round(host, port, addrs, platform, rounds);
    law_bind_attempt(host, port, addrs, platform, rounds.len() - 1, rounds.last());
}

/// If no address works, the bind fails with the error of the last one, and names
/// host and port.
pub proof fn law_bind_last_error(
    host: Seq<char>,
    port: u16,
    addrs: Seq<SockAddr>,
    platform: Platform,
    rounds: Seq<Seq<Reply>>,
    error: OsError,
)
    requires
        0 < rounds.len() == addrs.len(),
        forall|i: int|
            0 <= i < rounds.len() ==> settles(addrs[i], platform, #[trigger] rounds[i]),
        forall|i: int|
            0 <= i < rounds.len() - 1 ==> attempt(addrs[i], platform, #[trigger] rounds[i]) is Err,
        attempt(addrs.last(), platform, rounds.last()) == Err::<i32, OsError>(error),
    ensures
        progress::after(bind_start(host, port, Ok(addrs), platform), rounds.flatten())
            == BindProgress::Complete(
            Err(ErrorView::Bind { error, address: crate::text::host_port(host, port) }),
        ),
{
    lemma_bind_last_round(host, port, addrs, platform, rounds);
    law_bind_attempt(host, port, addrs, platform, rounds.len() - 1, rounds.last());
}

/// The replies of `rounds` carry the attempts at the first addresses to their
/// ends, one after the other, and all of them fail.
pub open spec fn all_failed(
    addrs: Seq<SockAddr>,
    platform: Platform,
    rounds: Seq<Seq<Reply>>,
) -> bool {
    &&& rounds.len() <= addrs.len()
    &&& forall|i: int|
        0 <= i < rounds.len() ==> settles(addrs[i], platform, #[trigger] rounds[i]) && attempt(
            addrs[i],
            platform,
            rounds[i],
        ) is Err
}

/// A bind that still waits has failed at every address before the one that it
/// tries, and has taken the rest of the replies for that one. These portions of
/// the replies are the result.
proof fn lemma_bind_history(
    host: Seq<char>,
    port: u16,
    addrs: Seq<SockAddr>,
    platform: Platform,
    replies: Seq<Reply>,
) -> (portions: (Seq<Seq<Reply>>, Seq<Reply>))
    requires
        progress::after(bind_start(host, port, Ok(addrs), platform), replies) is Pending,
    ensures
        ({
            let (rounds, rest) = portions;
            let at = rounds.len() as int;
            &&& replies == rounds.flatten() + rest
            &&& at < addrs.len()
            &&& all_failed(addrs, platform, rounds)
            &&& progress::after(listen_plan(addrs[at], platform).start(), rest) matches
                Progress::Pending { call, state: run }
            &&& progress::after(bind_start(host, port, Ok(addrs), platform), replies)
                == BindProgress::Pending {
                call,
                state: BindView { host, port, addrs, platform, at, run },
            }
        }),
    decreases replies.len(),
{
    let start = bind_start(host, port, Ok(addrs), platform);
    if replies.len() == 0 {
        let rounds = Seq::<Seq<Reply>>::empty();
        assert(replies =~= rounds.flatten() + Seq::empty());
        (rounds, Seq::empty())
    } else {
        let before = replies.drop_last();
        let last = seq![replies.last()];
        assert(replies =~= before + last);
        progress::law_after_portions(start, before, last);
        assert(last.drop_first() =~= Seq::empty());
        reveal_with_fuel(progress::after, 2);
        let (rounds, rest) = lemma_bind_history(host, port, addrs, platform, before);
        let at = rounds.len() as int;
        let plan = listen_plan(addrs[at], platform);
        let longer = rest.push(replies.last());
        assert(longer =~= rest + last);
        assert(longer.drop_last() =~= rest);
        progress::law_after_portions(plan.start(), rest, last);
        if progress::after(plan.start(), longer) is Pending {
            assert(replies =~= rounds.flatten() + longer);
            (rounds, longer)
        } else {
            let more = rounds.push(longer);
            rounds.lemma_flatten_push(longer);
            assert(replies =~= more.flatten() + Seq::empty());
            assert(settles(addrs[at], platform, longer));
            assert forall|i: int| 0 <= i < more.len() implies settles(
                addrs[i],
                platform,
                #[trigger] more[i],
            ) && attempt(addrs[i], platform, more[i]) is Err by {
                if i < at {
                    assert(more[i] == rounds[i]);
                }
            }
            (more, Seq::empty())
        }
    }
}

/// An address is tried only when every address before it has been tried and has
/// failed.
pub proof fn law_bind_in_order(
    host: Seq<char>,
    port: u16,
    addrs: Seq<SockAddr>,
    platform: Platform,
    replies: Seq<Reply>,
    at: int,
)
    requires
        progress::after(bind_start(host, port, Ok(addrs), platform), replies) matches
            Progress::Pending { call, state } && state.at == at,
    ensures
        exists|rounds: Seq<Seq<Reply>>, rest: Seq<Reply>|
            #![trigger rounds.flatten() + rest]
            replies == rounds.flatten() + rest && rounds.len() == at && all_failed(
                addrs,
                platform,
                rounds,
            ),
{
    let (rounds, rest) = lemma_bind_history(host, port, addrs, platform, replies);
    assert(replies == rounds.flatten() + rest);
}

/// The attempts of `rounds` failed, and the attempt at the next address, by the
/// replies `last`, decides: if it succeeded, it made the listener; if it failed,
/// there was no address left, and its error is reported.
pub open spec fn decided_by(
    host: Seq<char>,
    port: u16,
    addrs: Seq<SockAddr>,
    platform: Platform,
    rounds: Seq<Seq<Reply>>,
    last: Seq<Reply>,
    result: Result<TcpListener, ErrorView>,
) -> bool {
    &&& rounds.len() < addrs.len()
    &&& all_failed(addrs, platform, rounds)
    &&& settles(addrs[rounds.len() as int], platform, last)
    &&& match attempt(addrs[rounds.len() as int], platform, last) {
        Ok(fd) => result == Ok::<_, ErrorView>(listener_on(fd)),
        Err(error) => rounds.len() + 1 == addrs.len() && result == Err::<TcpListener, _>(
            ErrorView::Bind { error, address: crate::text::host_port(host, port) },
        ),
    }
}

/// What a bind that is over came to: the attempts at the first addresses failed,
/// and the last attempt that was made decides. If it succeeded, it made the
/// listener. If it failed, there was no address left, and its error is reported.
/// Replies past the end are not taken.
pub proof fn law_bind_outcome(
    host: Seq<char>,
    port: u16,
    addrs: Seq<SockAddr>,
    platform: Platform,
    replies: Seq<Reply>,
    result: Result<TcpListener, ErrorView>,
)
    requires
        addrs.len() > 0,
        progress::after(bind_start(host, port, Ok(addrs), platform), replies)
            == BindProgress::Complete(result),
    ensures
        exists|rounds: Seq<Seq<Reply>>, last: Seq<Reply>, rest: Seq<Reply>|
            #![trigger rounds.flatten() + last + rest]
            {
                &&& replies == rounds.flatten() + last + rest
                &&& decided_by(host, port, addrs, platform, rounds, last, result)
            },
    decreases replies.len(),
{
    let start = bind_start(host, port, Ok(addrs), platform);
    let before = replies.drop_last();
    let final_reply = seq![replies.last()];
    assert(replies =~= before + final_reply);
    progress::law_after_portions(start, before, final_reply);
    if progress::after(start, before) is Complete {
        law_bind_outcome(host, port, addrs, platform, before, result);
        let (rounds, last, rest) = choose|
            rounds: Seq<Seq<Reply>>,
            last: Seq<Reply>,
            rest: Seq<Reply>,
        |
            #![trigger rounds.flatten() + last + rest]
            {
                &&& before == rounds.flatten() + last + rest
                &&& decided_by(host, port, addrs, platform, rounds, last, result)
            };
        assert(replies =~= rounds.flatten() + last + rest.push(replies.last()));
    } else {
        let (rounds, rest) = lemma_bind_history(host, port, addrs, platform, before);
        let plan = listen_plan(addrs[rounds.len() as int], platform);
        let last = rest.push(replies.last());
        assert(last =~= rest + final_reply);
        assert(last.drop_last() =~= rest);
        progress::law_after_portions(plan.start(), rest, final_reply);
        assert(final_reply.drop_first() =~= Seq::empty());
        reveal_with_fuel(progress::after, 2);
        assert(replies =~= rounds.flatten() + last + Seq::empty());
    }
}

/// No IPv6 address is tried while an IPv4 address can be bound: when a bind tries
/// an IPv6 address, every IPv4 address that the lookup found has been tried, and
/// the attempt has failed.
pub proof fn law_bind_prefers_v4(
    host: Seq<char>,
    port: u16,
    entries: Seq<AddrEntry>,
    addrs: Seq<SockAddr>,
    platform: Platform,
    replies: Seq<Reply>,
)
    requires
        crate::resolve::well_read(crate::resolve::LookupView::Found(entries), platform),
        crate::resolve::resolution(
            host,
            port,
            crate::resolve::LookupView::Found(entries),
            platform,
        ) == Ok::<_, ErrorView>(addrs),
        progress::after(bind_start(host, port, Ok(addrs), platform), replies) matches
            Progress::Pending { call, state } && state.addrs[state.at] is V6,
    ensures
        exists|rounds: Seq<Seq<Reply>>, rest: Seq<Reply>|
            #![trigger rounds.flatten() + rest]
            {
                &&& replies == rounds.flatten() + rest
                &&& all_failed(addrs, platform, rounds)
                &&& forall|k: int|
                    0 <= k < entries.len() && (#[trigger] entries[k]).family == platform.af_inet
                        ==> exists|j: int|
                        0 <= j < rounds.len() && #[trigger] addrs[j] == entries[k].at_port(port)
            },
{
    let (rounds, rest) = lemma_bind_history(host, port, addrs, platform, replies);
    let at = rounds.len() as int;
    assert(addrs[at] is V6);
    crate::resolve::law_resolved_addresses(host, port, entries, addrs, platform);
    let found = crate::resolve::at_port(entries, port);
    assert forall|k: int|
        0 <= k < entries.len() && (#[trigger] entries[k]).family == platform.af_inet implies exists|
        j: int,
    |
        0 <= j < rounds.len() && #[trigger] addrs[j] == entries[k].at_port(port) by {
        assert(entries[k].wf(platform));
        assert(found[k] == entries[k].at_port(port));
        found.to_multiset_ensures();
        addrs.to_multiset_ensures();
        assert(found.contains(found[k]));
        assert(addrs.to_multiset().count(found[k]) > 0);
        let j = choose|j: int| 0 <= j < addrs.len() && addrs[j] == found[k];
        assert(addrs[j] is V4);
        if j >= at {
            assert(j != at);
            assert(addrs[at] is V4);
        }
    }
    assert(replies == rounds.flatten() + rest);
}

/// How many replies one attempt takes at most.
pub open spec fn replies_per_addr(platform: Platform) -> int {
    crate::socket::nonblocking_steps(platform).len() as int + 5
}

impl BindView {
    /// The run belongs to an attempt at the address that is being tried.
    pub open spec fn tries_addr(self) -> bool {
        match self.run {
            RunView::Opening { plan } => plan == listen_plan(self.addrs[self.at], self.platform),
            RunView::Stepping { plan, .. } => plan == listen_plan(
                self.addrs[self.at],
                self.platform,
            ),
            RunView::Closing { .. } => true,
        }
    }
}

proof fn lemma_bind_ends(progress: BindProgress, replies: Seq<Reply>)
    requires
        progress matches Progress::Pending { call, state } ==> {
            &&& state.wf()
            &&& state.tries_addr()
            &&& replies.len() >= state.run.replies_left() + (state.addrs.len() - state.at - 1)
                * replies_per_addr(state.platform)
        },
    ensures
        progress::after(progress, replies) is Complete,
    decreases replies.len(),
{
    if let Progress::Pending { call, state } = progress {
        let left = state.addrs.len() - state.at - 1;
        let each = replies_per_addr(state.platform);
        assert(left >= 0 && each >= 0 ==> left * each >= 0) by (nonlinear_arith);
        assert(left * each == (left - 1) * each + each) by (nonlinear_arith);
        lemma_bind_ends(state.next(replies[0]), replies.drop_first());
    }
}

/// A bind comes to an end: after a bounded number of replies for each address.
pub proof fn law_bind_ends(
    host: Seq<char>,
    port: u16,
    resolved: Result<Seq<SockAddr>, ErrorView>,
    platform: Platform,
    replies: Seq<Reply>,
)
    requires
        resolved matches Ok(addrs) ==> replies.len() >= addrs.len() * replies_per_addr(platform),
    ensures
        progress::after(bind_start(host, port, resolved, platform), replies) is Complete,
{
    if let Ok(addrs) = resolved {
        let n = addrs.len() as int;
        let each = replies_per_addr(platform);
        assert(n * each == (n - 1) * each + each) by (nonlinear_arith);
    }
    lemma_bind_ends(bind_start(host, port, resolved, platform), replies);
}

/// The calls of the attempts at the first addresses, each taken by itself.
pub open spec fn attempt_calls(
    addrs: Seq<SockAddr>,
    platform: Platform,
    portions: Seq<Seq<Reply>>,
) -> Seq<Seq<crate::syscall::Syscall>> {
    Seq::new(
        portions.len(),
        |i: int| progress::calls(listen_plan(addrs[i], platform).start(), portions[i]),
    )
}

/// In the attempt at `addr`, everything succeeds but listening.
pub open spec fn only_listen_fails(
    addr: SockAddr,
    platform: Platform,
    replies: Seq<Reply>,
) -> bool {
    &&& replies.len() > 0
    &&& listen_plan(addr, platform).first_failure(
        0,
        replies.drop_first(),
        listen_plan(addr, platform).steps.len() - 1,
    )
}

proof fn lemma_attempt_calls(
    host: Seq<char>,
    port: u16,
    addrs: Seq<SockAddr>,
    platform: Platform,
    at: int,
    replies: Seq<Reply>,
    later: Seq<Reply>,
)
    requires
        0 <= at < addrs.len(),
        settles(addrs[at], platform, replies),
    ensures
        progress::calls(try_addr(host, port, addrs, platform, at), replies + later)
            == progress::calls(listen_plan(addrs[at], platform).start(), replies)
            + progress::calls(
            progress::after(try_addr(host, port, addrs, platform, at), replies),
            later,
        ),
{
    let plan = listen_plan(addrs[at], platform);
    let bind = BindView {
        host,
        port,
        addrs,
        platform,
        at,
        run: RunView::Opening { plan },
    };
    let start = try_addr(host, port, addrs, platform, at);
    let before = replies.drop_last();
    let last = seq![replies.last()];
    assert(replies =~= before + last);
    assert(replies + later =~= before + (last + later));
    lemma_bind_follows_run(bind, plan.open, before);
    progress::law_after_portions(start, before, last);
    progress::law_after_portions(plan.start(), before, last);
    progress::law_calls_portions(start, before, last + later);
    progress::law_calls_portions(plan.start(), before, last);
    assert((last + later).drop_first() =~= later);
    assert(last.drop_first() =~= Seq::empty());
    reveal_with_fuel(progress::after, 2);
    reveal_with_fuel(progress::calls, 2);
    assert(progress::calls(start, replies + later) =~= progress::calls(plan.start(), replies)
        + progress::calls(progress::after(start, replies), later));
}

proof fn lemma_bind_calls(
    host: Seq<char>,
    port: u16,
    addrs: Seq<SockAddr>,
    platform: Platform,
    at: int,
    rounds: Seq<Seq<Reply>>,
    later: Seq<Reply>,
)
    requires
        0 <= at,
        at < addrs.len(),
        at + rounds.len() <= addrs.len(),
        forall|i: int|
            0 <= i < rounds.len() ==> settles(addrs[at + i], platform, #[trigger] rounds[i]),
        forall|i: int|
            0 <= i < rounds.len() - 1 ==> attempt(
                addrs[at + i],
                platform,
                #[trigger] rounds[i],
            ) is Err,
    ensures
        progress::calls(try_addr(host, port, addrs, platform, at), rounds.flatten() + later)
            == attempt_calls(addrs.skip(at), platform, rounds).flatten() + progress::calls(
            progress::after(try_addr(host, port, addrs, platform, at), rounds.flatten()),
            later,
        ),
    decreases rounds.len(),
{
    let start = try_addr(host, port, addrs, platform, at);
    let each = attempt_calls(addrs.skip(at), platform, rounds);
    if rounds.len() == 0 {
        assert(rounds.flatten() =~= Seq::empty());
        assert(rounds.flatten() + later =~= later);
        assert(each.flatten() =~= Seq::empty());
        assert(progress::calls(start, rounds.flatten() + later) =~= each.flatten()
            + progress::calls(progress::after(start, rounds.flatten()), later));
    } else {
        let rest = rounds.drop_first();
        assert(settles(addrs[at + 0], platform, rounds[0]));
        lemma_attempt_calls(host, port, addrs, platform, at, rounds[0], rest.flatten() + later);
        assert(rounds.flatten() == rounds[0] + rest.flatten());
        assert(rounds.flatten() + later =~= rounds[0] + (rest.flatten() + later));
        progress::law_after_portions(start, rounds[0], rest.flatten());
        assert(each.first() == progress::calls(
            listen_plan(addrs[at], platform).start(),
            rounds[0],
        ));
        assert(each.flatten() == each.first() + each.drop_first().flatten());
        if rounds.len() == 1 {
            assert(rest.flatten() =~= Seq::empty());
            assert(rest.flatten() + later =~= later);
            assert(each.drop_first().flatten() =~= Seq::empty());
            assert(each.flatten() =~= each.first());
            assert(rounds.flatten() =~= rounds[0]);
        } else {
            law_bind_attempt(host, port, addrs, platform, at, rounds[0]);
            assert(attempt(addrs[at + 0], platform, rounds[0]) is Err);
            assert forall|i: int| 0 <= i < rest.len() implies settles(
                addrs[at + 1 + i],
                platform,
                #[trigger] rest[i],
            ) by {
                assert(rest[i] == rounds[i + 1]);
                assert(settles(addrs[at + (i + 1)], platform, rounds[i + 1]));
            }
            assert forall|i: int| 0 <= i < rest.len() - 1 implies attempt(
                addrs[at + 1 + i],
                platform,
                #[trigger] rest[i],
            ) is Err by {
                assert(rest[i] == rounds[i + 1]);
                assert(attempt(addrs[at + (i + 1)], platform, rounds[i + 1]) is Err);
            }
            lemma_bind_calls(host, port, addrs, platform, at + 1, rest, later);
            assert(each.drop_first() =~= attempt_calls(addrs.skip(at + 1), platform, rest));
            assert(progress::calls(start, rounds.flatten() + later) =~= each.flatten()
                + progress::calls(progress::after(start, rounds.flatten()), later));
        }
    }
}

/// A bind that tries the first addresses, and is decided by the last of these
/// attempts, calls what the attempts call, in order and once each. No attempt loses
/// a descriptor, except one in which only listening fails.
pub proof fn law_bind_calls_of_rounds(
    host: Seq<char>,
    port: u16,
    addrs: Seq<SockAddr>,
    platform: Platform,
    rounds: Seq<Seq<Reply>>,
)
    requires
        0 < rounds.len() <= addrs.len(),
        all_failed(addrs, platform, rounds.drop_last()),
        settles(addrs[rounds.len() - 1], platform, rounds.last()),
        attempt(addrs[rounds.len() - 1], platform, rounds.last()) is Ok || rounds.len()
            == addrs.len(),
    ensures
        progress::calls(bind_start(host, port, Ok(addrs), platform), rounds.flatten())
            == attempt_calls(addrs, platform, rounds).flatten(),
        forall|i: int|
            0 <= i < rounds.len() && !only_listen_fails(
                addrs[i],
                platform,
                #[trigger] rounds[i],
            ) ==> crate::plan::accounted(listen_plan(addrs[i], platform), rounds[i]),
{
    lemma_decided_calls(host, port, addrs, platform, rounds, Seq::empty());
    assert(rounds.flatten() + Seq::empty() =~= rounds.flatten());
    assert forall|i: int|
        0 <= i < rounds.len() && !only_listen_fails(
            addrs[i],
            platform,
            #[trigger] rounds[i],
        ) implies crate::plan::accounted(listen_plan(addrs[i], platform), rounds[i]) by {
        if i < rounds.len() - 1 {
            assert(rounds.drop_last()[i] == rounds[i]);
        }
        law_listen_accounted(addrs[i], platform, rounds[i]);
    }
}

/// Over a whole bind, whatever the system replies: the calls are those of the
/// attempts at the first addresses, in order and once each, and every attempt but
/// the last has failed. No attempt loses a descriptor, except one in which only
/// listening fails.
pub proof fn law_bind_calls(
    host: Seq<char>,
    port: u16,
    addrs: Seq<SockAddr>,
    platform: Platform,
    replies: Seq<Reply>,
)
    requires
        addrs.len() > 0,
    ensures
        exists|portions: Seq<Seq<Reply>>, rest: Seq<Reply>|
            #![trigger portions.flatten() + rest]
            {
                &&& replies == portions.flatten() + rest
                &&& 0 < portions.len() <= addrs.len()
                &&& all_failed(addrs, platform, portions.drop_last())
                &&& progress::calls(bind_start(host, port, Ok(addrs), platform), replies)
                    == attempt_calls(addrs, platform, portions).flatten()
                &&& forall|i: int|
                    0 <= i < portions.len() && !only_listen_fails(
                        addrs[i],
                        platform,
                        #[trigger] portions[i],
                    ) ==> crate::plan::accounted(listen_plan(addrs[i], platform), portions[i])
            },
{
    let start = bind_start(host, port, Ok(addrs), platform);
    let (portions, rest) = match progress::after(start, replies) {
        Progress::Pending { call, state } => {
            let (rounds, current) = lemma_bind_history(host, port, addrs, platform, replies);
            lemma_pending_calls(host, port, addrs, platform, rounds, current);
            rounds.lemma_flatten_push(current);
            assert(replies =~= rounds.push(current).flatten() + Seq::empty());
            assert(rounds.push(current).drop_last() =~= rounds);
            (rounds.push(current), Seq::empty())
        },
        Progress::Complete(result) => {
            let (rounds, rest) = lemma_complete_calls(host, port, addrs, platform, replies, result);
            (rounds, rest)
        },
    };
    assert forall|i: int|
        0 <= i < portions.len() && !only_listen_fails(
            addrs[i],
            platform,
            #[trigger] portions[i],
        ) implies crate::plan::accounted(listen_plan(addrs[i], platform), portions[i]) by {
        if portions[i].len() > 0 {
            law_listen_accounted(addrs[i], platform, portions[i]);
        }
    }
    assert(replies == portions.flatten() + rest);
}

proof fn lemma_pending_calls(
    host: Seq<char>,
    port: u16,
    addrs: Seq<SockAddr>,
    platform: Platform,
    rounds: Seq<Seq<Reply>>,
    current: Seq<Reply>,
)
    requires
        rounds.len() < addrs.len(),
        all_failed(addrs, platform, rounds),
        progress::after(
            listen_plan(addrs[rounds.len() as int], platform).start(),
            current,
        ) is Pending,
    ensures
        progress::calls(
            bind_start(host, port, Ok(addrs), platform),
            rounds.flatten() + current,
        ) == attempt_calls(addrs, platform, rounds.push(current)).flatten(),
{
    let at = rounds.len() as int;
    let plan = listen_plan(addrs[at], platform);
    assert forall|i: int| 0 <= i < rounds.len() implies settles(
        addrs[0 + i],
        platform,
        #[trigger] rounds[i],
    ) && attempt(addrs[0 + i], platform, rounds[i]) is Err by {}
    lemma_bind_calls(host, port, addrs, platform, 0, rounds, current);
    lemma_bind_rounds(host, port, addrs, platform, 0, rounds);
    lemma_bind_follows_run(
        BindView { host, port, addrs, platform, at, run: RunView::Opening { plan } },
        plan.open,
        current,
    );
    assert(addrs.skip(0) =~= addrs);
    let each = attempt_calls(addrs, platform, rounds);
    let last = progress::calls(plan.start(), current);
    assert(attempt_calls(addrs, platform, rounds.push(current)) =~= each.push(last));
    each.lemma_flatten_push(last);
}

proof fn lemma_decided_calls(
    host: Seq<char>,
    port: u16,
    addrs: Seq<SockAddr>,
    platform: Platform,
    rounds: Seq<Seq<Reply>>,
    rest: Seq<Reply>,
)
    requires
        0 < rounds.len() <= addrs.len(),
        all_failed(addrs, platform, rounds.drop_last()),
        settles(addrs[rounds.len() - 1], platform, rounds.last()),
        attempt(addrs[rounds.len() - 1], platform, rounds.last()) is Ok || rounds.len()
            == addrs.len(),
    ensures
        progress::calls(bind_start(host, port, Ok(addrs), platform), rounds.flatten() + rest)
            == attempt_calls(addrs, platform, rounds).flatten(),
{
    let failed = rounds.drop_last();
    assert forall|i: int| 0 <= i < rounds.len() implies settles(
        addrs[i],
        platform,
        #[trigger] rounds[i],
    ) by {
        if i < failed.len() {
            assert(rounds[i] == failed[i]);
        }
    }
    assert forall|i: int| 0 <= i < rounds.len() - 1 implies attempt(
        addrs[i],
        platform,
        #[trigger] rounds[i],
    ) is Err by {
        assert(rounds[i] == failed[i]);
    }
    lemma_bind_calls(host, port, addrs, platform, 0, rounds, rest);
    lemma_bind_last_round(host, port, addrs, platform, rounds);
    law_bind_attempt(host, port, addrs, platform, rounds.len() - 1, rounds.last());
    assert(addrs.skip(0) =~= addrs);
    let each = attempt_calls(addrs, platform, rounds);
    assert(each.flatten() + Seq::empty() =~= each.flatten());
}

proof fn lemma_complete_calls(
    host: Seq<char>,
    port: u16,
    addrs: Seq<SockAddr>,
    platform: Platform,
    replies: Seq<Reply>,
    result: Result<TcpListener, ErrorView>,
) -> (portions: (Seq<Seq<Reply>>, Seq<Reply>))
    requires
        addrs.len() > 0,
        progress::after(bind_start(host, port, Ok(addrs), platform), replies)
            == BindProgress::Complete(result),
    ensures
        replies == portions.0.flatten() + portions.1,
        0 < portions.0.len() <= addrs.len(),
        all_failed(addrs, platform, portions.0.drop_last()),
        progress::calls(bind_start(host, port, Ok(addrs), platform), replies) == attempt_calls(
            addrs,
            platform,
            portions.0,
        ).flatten(),
{
    law_bind_outcome(host, port, addrs, platform, replies, result);
    let (failed, last, rest) = choose|
        rounds: Seq<Seq<Reply>>,
        last: Seq<Reply>,
        rest: Seq<Reply>,
    |
        #![trigger rounds.flatten() + last + rest]
        {
            &&& replies == rounds.flatten() + last + rest
            &&& decided_by(host, port, addrs, platform, rounds, last, result)
        };
    let rounds = failed.push(last);
    failed.lemma_flatten_push(last);
    assert(replies =~= rounds.flatten() + rest);
    assert(rounds.drop_last() =~= failed);
    lemma_decided_calls(host, port, addrs, platform, rounds, rest);
    (rounds, rest)
}

/// Without an address to bind to, the bind is over at once, and calls nothing: an
/// error of the resolution is the outcome, and an empty list is reported as an
/// address that does not resolve, with host and port.
pub proof fn law_bind_without_address(
    host: Seq<char>,
    port: u16,
    resolved: Result<Seq<SockAddr>, ErrorView>,
    platform: Platform,
    replies: Seq<Reply>,
)
    requires
        resolved matches Ok(addrs) ==> addrs.len() == 0,
    ensures
        progress::after(bind_start(host, port, resolved, platform), replies)
            == BindProgress::Complete(
            Err(
                match resolved {
                    Err(error) => error,
                    Ok(_) => ErrorView::ResolveAddress(crate::text::host_port(host, port)),
                },
            ),
        ),
        progress::calls(bind_start(host, port, resolved, platform), replies).len() == 0,
{
}

/// The replies of a bind that takes none in vain, in one portion for each address
/// that is tried. Every attempt but the last has failed, and the last one decides.
pub(crate) proof fn lemma_bind_portions(
    host: Seq<char>,
    port: u16,
    addrs: Seq<SockAddr>,
    platform: Platform,
    replies: Seq<Reply>,
) -> (portions: Seq<Seq<Reply>>)
    requires
        addrs.len() > 0,
        replies.len() > 0 ==> progress::after(
            bind_start(host, port, Ok(addrs), platform),
            replies.drop_last(),
        ) is Pending,
    ensures
        replies == portions.flatten(),
        0 < portions.len() <= addrs.len(),
        all_failed(addrs, platform, portions.drop_last()),
        progress::calls(bind_start(host, port, Ok(addrs), platform), replies) == attempt_calls(
            addrs,
            platform,
            portions,
        ).flatten(),
        ({
            let last = portions.last();
            let start = listen_plan(addrs[portions.len() - 1], platform).start();
            &&& last.len() > 0 ==> progress::after(start, last.drop_last()) is Pending
            &&& match progress::after(start, last) {
                Progress::Pending { .. } => progress::after(
                    bind_start(host, port, Ok(addrs), platform),
                    replies,
                ) is Pending,
                Progress::Complete(Ok(fd)) => progress::after(
                    bind_start(host, port, Ok(addrs), platform),
                    replies,
                ) == BindProgress::Complete(Ok(listener_on(fd))),
                Progress::Complete(Err(error)) => portions.len() == addrs.len()
                    && progress::after(bind_start(host, port, Ok(addrs), platform), replies)
                    == BindProgress::Complete(
                    Err(ErrorView::Bind { error, address: crate::text::host_port(host, port) }),
                ),
            }
        }),
{
    let start = bind_start(host, port, Ok(addrs), platform);
    if progress::after(start, replies) is Pending {
        let (rounds, current) = lemma_bind_history(host, port, addrs, platform, replies);
        let plan = listen_plan(addrs[rounds.len() as int], platform);
        let portions = rounds.push(current);
        lemma_pending_calls(host, port, addrs, platform, rounds, current);
        rounds.lemma_flatten_push(current);
        assert(portions.drop_last() =~= rounds);
        if current.len() > 0 {
            let final_reply = seq![current.last()];
            assert(current =~= current.drop_last() + final_reply);
            progress::law_after_portions(plan.start(), current.drop_last(), final_reply);
        }
        portions
    } else {
        let before = replies.drop_last();
        let final_reply = seq![replies.last()];
        assert(replies =~= before + final_reply);
        progress::law_after_portions(start, before, final_reply);
        let (rounds, rest) = lemma_bind_history(host, port, addrs, platform, before);
        let at = rounds.len() as int;
        let plan = listen_plan(addrs[at], platform);
        let last = rest.push(replies.last());
        let portions = rounds.push(last);
        assert(last =~= rest + final_reply);
        assert(last.drop_last() =~= rest);
        progress::law_after_portions(plan.start(), rest, final_reply);
        assert(final_reply.drop_first() =~= Seq::empty());
        reveal_with_fuel(progress::after, 2);
        rounds.lemma_flatten_push(last);
        assert(replies =~= portions.flatten());
        assert(portions.drop_last() =~= rounds);
        lemma_decided_calls(host, port, addrs, platform, portions, Seq::empty());
        assert(portions.flatten() + Seq::empty() =~= portions.flatten());
        portions
    }
}

} // verus!
