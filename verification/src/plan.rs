//! Opening a descriptor and setting it up, call by call.
//!
//! A plan opens a descriptor and then makes a fixed series of calls on it. A run
//! carries a plan out: it names one call, waits for the reply, and goes on.
use vstd::prelude::*;

use crate::addr::SockAddr;
use crate::error::OsError;
use crate::progress;
use crate::progress::{Machine, Progress};
use crate::syscall::{cvt, done, setsockopt, AutoCloseFd, Reply, SetSockOpt, Syscall};

verus! {

/// A call on the descriptor that a plan opens.
#[derive(Clone, Copy, Debug)]
pub enum FdCall {
    Bind { addr: SockAddr, addr_len: u32 },
    Connect { addr: SockAddr, addr_len: u32 },
    Listen { backlog: i32 },
    SetSockOpt { level: i32, name: i32, value: i32 },
    Ioctl { request: u64, arg: Option<i32> },
}

/// One call of a plan, and how its reply is taken.
#[derive(Clone, Copy, Debug)]
pub struct Step {
    pub call: FdCall,
    /// An error that counts as success.
    pub tolerated: Option<i32>,
    /// Whether a failure closes the descriptor.
    pub closes: bool,
}

/// A descriptor to open, and the calls that set it up.
#[derive(Debug)]
pub struct Plan {
    pub open: Syscall,
    pub steps: Vec<Step>,
}

/// The mathematical content of a [`Plan`].
#[verifier::ext_equal]
pub struct PlanView {
    pub open: Syscall,
    pub steps: Seq<Step>,
}

impl View for Plan {
    type V = PlanView;

    open spec fn view(&self) -> PlanView {
        PlanView { open: self.open, steps: self.steps@ }
    }
}

#[derive(Debug)]
enum Phase {
    /// The descriptor is being opened.
    Opening,
    /// The call of the step number `at` is being made.
    Stepping { fd: AutoCloseFd, at: usize },
    /// The descriptor is being closed after this error.
    Closing { error: OsError },
}

/// A plan that is being carried out.
#[derive(Debug)]
pub struct Run {
    plan: Plan,
    phase: Phase,
}

/// The mathematical content of a [`Run`].
pub enum RunView {
    Opening { plan: PlanView },
    Stepping { plan: PlanView, fd: i32, at: int },
    Closing { error: OsError },
}

/// What a run comes to: the descriptor, or the error that ended it.
pub type RunProgress = Progress<RunView, Result<i32, OsError>>;

impl View for Run {
    type V = RunView;

    closed spec fn view(&self) -> RunView {
        match self.phase {
            Phase::Opening => RunView::Opening { plan: self.plan@ },
            Phase::Stepping { fd, at } => RunView::Stepping {
                plan: self.plan@,
                fd: fd@,
                at: at as int,
            },
            Phase::Closing { error } => RunView::Closing { error },
        }
    }
}

impl FdCall {
    /// The call, made on the descriptor `fd`.
    pub open spec fn call_on(self, fd: i32) -> Syscall {
        match self {
            FdCall::Bind { addr, addr_len } => Syscall::Bind { fd, addr, addr_len },
            FdCall::Connect { addr, addr_len } => Syscall::Connect { fd, addr, addr_len },
            FdCall::Listen { backlog } => Syscall::Listen { fd, backlog },
            FdCall::SetSockOpt { level, name, value } => Syscall::SetSockOpt(
                SetSockOpt { fd, level, name, value, len: crate::syscall::len_of::<i32>() },
            ),
            FdCall::Ioctl { request, arg } => Syscall::Ioctl { fd, request, arg },
        }
    }

    pub fn on(self, fd: i32) -> (call: Syscall)
        ensures
            call == self.call_on(fd),
    {
        match self {
            FdCall::Bind { addr, addr_len } => Syscall::Bind { fd, addr, addr_len },
            FdCall::Connect { addr, addr_len } => Syscall::Connect { fd, addr, addr_len },
            FdCall::Listen { backlog } => Syscall::Listen { fd, backlog },
            FdCall::SetSockOpt { level, name, value } => Syscall::SetSockOpt(
                setsockopt(fd, level, name, value),
            ),
            FdCall::Ioctl { request, arg } => Syscall::Ioctl { fd, request, arg },
        }
    }
}

impl Step {
    /// The reply lets the plan go on: it is no error, or the tolerated one.
    pub open spec fn passes(self, reply: Reply) -> bool {
        reply.ret != -1 || self.tolerated == Some(reply.errno)
    }

    fn check(&self, reply: &Reply) -> (result: Result<(), OsError>)
        ensures
            result == if self.passes(*reply) {
                Ok(())
            } else {
                Err(OsError { code: reply.errno })
            },
    {
        match done(reply) {
            Ok(()) => Ok(()),
            Err(error) => match self.tolerated {
                Some(code) if code == error.code => Ok(()),
                _ => Err(error),
            },
        }
    }
}

impl PlanView {
    /// The first call opens the descriptor.
    pub open spec fn start(self) -> RunProgress {
        Progress::Pending { call: self.open, state: RunView::Opening { plan: self } }
    }

    /// With `fd` open and the steps before `at` made, the step `at` is next; after
    /// the last step the plan is done.
    pub open spec fn go_on(self, fd: i32, at: int) -> RunProgress {
        if at < self.steps.len() {
            Progress::Pending {
                call: self.steps[at].call.call_on(fd),
                state: RunView::Stepping { plan: self, fd, at },
            }
        } else {
            Progress::Complete(Ok(fd))
        }
    }
}

impl RunView {
    pub open spec fn wf(self) -> bool {
        self matches RunView::Stepping { plan, fd, at } ==> 0 <= at < plan.steps.len()
    }
}

impl Machine for RunView {
    type Outcome = Result<i32, OsError>;

    open spec fn next(self, reply: Reply) -> RunProgress {
        let error = OsError { code: reply.errno };
        match self {
            RunView::Opening { plan } => if reply.ret == -1 {
                Progress::Complete(Err(error))
            } else {
                plan.go_on(reply.ret, 0)
            },
            RunView::Stepping { plan, fd, at } => if plan.steps[at].passes(reply) {
                plan.go_on(fd, at + 1)
            } else if plan.steps[at].closes {
                Progress::Pending { call: Syscall::Close { fd }, state: RunView::Closing { error } }
            } else {
                Progress::Complete(Err(error))
            },
            RunView::Closing { error } => Progress::Complete(Err(error)),
        }
    }
}

/// The mathematical content of how far a run has come.
pub open spec fn run_progress(
    progress: Progress<Run, Result<AutoCloseFd, OsError>>,
) -> RunProgress {
    match progress {
        Progress::Pending { call, state } => Progress::Pending { call, state: state@ },
        Progress::Complete(Ok(fd)) => Progress::Complete(Ok(fd@)),
        Progress::Complete(Err(error)) => Progress::Complete(Err(error)),
    }
}

/// The run that is waited for, if any, is well formed.
pub open spec fn pending_wf(progress: RunProgress) -> bool {
    progress matches Progress::Pending { call, state } ==> state.wf()
}

impl Plan {
    /// Begins to carry the plan out.
    pub fn start(self) -> (progress: Progress<Run, Result<AutoCloseFd, OsError>>)
        ensures
            run_progress(progress) == self@.start(),
            pending_wf(run_progress(progress)),
    {
        Progress::Pending { call: self.open, state: Run { plan: self, phase: Phase::Opening } }
    }

    fn go_on(self, fd: AutoCloseFd, at: usize) -> (progress: Progress<
        Run,
        Result<AutoCloseFd, OsError>,
    >)
        ensures
            run_progress(progress) == self@.go_on(fd@, at as int),
            pending_wf(run_progress(progress)),
    {
        if at < self.steps.len() {
            Progress::Pending {
                call: self.steps[at].call.on(fd.as_raw_fd()),
                state: Run { plan: self, phase: Phase::Stepping { fd, at } },
            }
        } else {
            Progress::Complete(Ok(fd))
        }
    }
}

impl Run {
    /// Takes the reply to the call that the run waits for.
    pub fn resume(self, reply: &Reply) -> (progress: Progress<Run, Result<AutoCloseFd, OsError>>)
        requires
            self@.wf(),
        ensures
            run_progress(progress) == self@.next(*reply),
            pending_wf(run_progress(progress)),
    {
        let Run { plan, phase } = self;
        match phase {
            Phase::Opening => match cvt(reply.ret, reply.errno) {
                Ok(fd) => plan.go_on(AutoCloseFd::new(fd), 0),
                Err(error) => Progress::Complete(Err(error)),
            },
            Phase::Stepping { fd, at } => {
                assert(at < plan.steps.len());
                let step: Step = plan.steps[at];
                match step.check(reply) {
                    Ok(()) => plan.go_on(fd, at + 1),
                    Err(error) => if step.closes {
                        Progress::Pending {
                            call: fd.close(),
                            state: Run { plan, phase: Phase::Closing { error } },
                        }
                    } else {
                        let _ = fd.into_raw_fd();
                        Progress::Complete(Err(error))
                    },
                }
            },
            Phase::Closing { error } => Progress::Complete(Err(error)),
        }
    }
}

impl PlanView {
    /// The calls of the first `n` steps, made on `fd`.
    pub open spec fn step_calls(self, fd: i32, n: int) -> Seq<Syscall> {
        self.steps.take(n).map_values(|step: Step| step.call.call_on(fd))
    }

    /// The first reply is a descriptor, and the replies after it let the first
    /// `n` steps pass.
    pub open spec fn passes(self, replies: Seq<Reply>, n: int) -> bool {
        &&& replies.len() > n
        &&& replies[0].ret != -1
        &&& forall|i: int| 0 <= i < n ==> self.steps[i].passes(#[trigger] replies[i + 1])
    }
}

/// If the descriptor cannot be opened, that error is the outcome, and nothing
/// else is called.
pub proof fn law_open_fails(plan: PlanView, reply: Reply)
    requires
        reply.ret == -1,
    ensures
        progress::after(plan.start(), seq![reply]) == RunProgress::Complete(
            Err(OsError { code: reply.errno }),
        ),
        progress::calls(plan.start(), seq![reply]) == seq![plan.open],
{
    reveal_with_fuel(progress::after, 3);
    reveal_with_fuel(progress::calls, 3);
    assert(seq![reply].drop_first() =~= Seq::empty());
    assert(seq![plan.open] + Seq::empty() =~= seq![plan.open]);
}

pub(crate) proof fn lemma_go_on(plan: PlanView, fd: i32, at: int, replies: Seq<Reply>)
    requires
        0 <= at,
        at + replies.len() <= plan.steps.len(),
        forall|i: int| 0 <= i < replies.len() ==> plan.steps[at + i].passes(#[trigger] replies[i]),
    ensures
        progress::after(plan.go_on(fd, at), replies) == plan.go_on(fd, at + replies.len()),
        progress::calls(plan.go_on(fd, at), replies) == plan.step_calls(
            fd,
            at + replies.len(),
        ).skip(at) + progress::calls(plan.go_on(fd, at + replies.len()), Seq::empty()),
    decreases replies.len(),
{
    let n = at + replies.len();
    if replies.len() == 0 {
        assert(plan.step_calls(fd, n).skip(at) =~= Seq::empty());
        assert(replies =~= Seq::empty());
        assert(progress::calls(plan.go_on(fd, at), replies) =~= plan.step_calls(fd, n).skip(at) + progress::calls(
            plan.go_on(fd, n),
            Seq::empty(),
        ));
    } else {
        let rest = replies.drop_first();
        assert forall|i: int| 0 <= i < rest.len() implies plan.steps[at + 1 + i].passes(
            #[trigger] rest[i],
        ) by {
            assert(rest[i] == replies[i + 1]);
            assert(plan.steps[at + (i + 1)].passes(replies[i + 1]));
        }
        lemma_go_on(plan, fd, at + 1, rest);
        assert(plan.steps[at + 0].passes(replies[0]));
        assert(plan.step_calls(fd, n).skip(at) =~= seq![plan.steps[at].call.call_on(fd)]
            + plan.step_calls(fd, n).skip(at + 1));
        assert(progress::calls(plan.go_on(fd, at), replies) =~= plan.step_calls(fd, n).skip(at) + progress::calls(
            plan.go_on(fd, n),
            Seq::empty(),
        ));
    }
}

/// If every call succeeds, the outcome is the descriptor that was opened, and
/// the calls are those of the plan, in its order.
pub proof fn law_run_succeeds(plan: PlanView, replies: Seq<Reply>)
    requires
        replies.len() == plan.steps.len() + 1,
        plan.passes(replies, plan.steps.len() as int),
    ensures
        progress::after(plan.start(), replies) == RunProgress::Complete(Ok(replies[0].ret)),
        progress::calls(plan.start(), replies) == seq![plan.open] + plan.step_calls(
            replies[0].ret,
            plan.steps.len() as int,
        ),
{
    let fd = replies[0].ret;
    let n = plan.steps.len() as int;
    let rest = replies.drop_first();
    assert forall|i: int| 0 <= i < rest.len() implies plan.steps[0 + i].passes(
        #[trigger] rest[i],
    ) by {
        assert(rest[i] == replies[i + 1]);
    }
    lemma_go_on(plan, fd, 0, rest);
    assert(plan.step_calls(fd, n).skip(0) + Seq::empty() =~= plan.step_calls(fd, n));
}

/// If the step `k` is the first to fail, its error is the outcome, and no later
/// step is made. A step that closes has the descriptor closed first, whatever
/// that call replies.
pub proof fn law_step_fails(plan: PlanView, replies: Seq<Reply>, k: int, close_reply: Reply)
    requires
        0 <= k < plan.steps.len(),
        replies.len() == k + 2,
        plan.passes(replies, k),
        !plan.steps[k].passes(replies[k + 1]),
    ensures
        plan.steps[k].closes ==> {
            &&& progress::after(plan.start(), replies) is Pending
            &&& progress::after(plan.start(), replies.push(close_reply)) == RunProgress::Complete(
                Err(OsError { code: replies[k + 1].errno }),
            )
            &&& progress::calls(plan.start(), replies) == seq![plan.open] + plan.step_calls(
                replies[0].ret,
                k + 1,
            ) + seq![Syscall::Close { fd: replies[0].ret }]
        },
        !plan.steps[k].closes ==> {
            &&& progress::after(plan.start(), replies) == RunProgress::Complete(
                Err(OsError { code: replies[k + 1].errno }),
            )
            &&& progress::calls(plan.start(), replies) == seq![plan.open] + plan.step_calls(
                replies[0].ret,
                k + 1,
            )
        },
{
    let fd = replies[0].ret;
    let failed = seq![replies[k + 1]];
    let passed = replies.drop_last();
    let mid = passed.drop_first();
    assert(replies =~= passed + failed);
    assert forall|i: int| 0 <= i < mid.len() implies plan.steps[0 + i].passes(
        #[trigger] mid[i],
    ) by {
        assert(mid[i] == replies[i + 1]);
    }
    lemma_go_on(plan, fd, 0, mid);
    let here = plan.go_on(fd, k);
    assert(progress::after(plan.start(), passed) == here);
    progress::law_after_portions(plan.start(), passed, failed);
    progress::law_after_portions(plan.start(), replies, seq![close_reply]);
    progress::law_calls_portions(plan.start(), passed, failed);
    assert(replies.push(close_reply) =~= replies + seq![close_reply]);
    reveal_with_fuel(progress::after, 3);
    reveal_with_fuel(progress::calls, 3);
    let next_call = plan.steps[k].call.call_on(fd);
    assert(progress::calls(plan.start(), passed) =~= seq![plan.open] + plan.step_calls(fd, k) + seq![
        next_call,
    ]);
    assert(progress::calls(plan.start(), passed).drop_last() =~= seq![plan.open] + plan.step_calls(fd, k));
    assert(plan.step_calls(fd, k + 1) =~= plan.step_calls(fd, k).push(next_call));
    assert(failed.drop_first() =~= Seq::empty());
    if plan.steps[k].closes {
        assert(progress::calls(plan.start(), replies) =~= seq![plan.open] + plan.step_calls(fd, k + 1)
            + seq![Syscall::Close { fd }]);
    } else {
        assert(progress::calls(plan.start(), replies) =~= seq![plan.open] + plan.step_calls(fd, k + 1));
    }
}

impl RunView {
    /// How many replies the run takes at most.
    pub open spec fn replies_left(self) -> int {
        match self {
            RunView::Opening { plan } => plan.steps.len() as int + 2,
            RunView::Stepping { plan, fd, at } => plan.steps.len() - at + 1,
            RunView::Closing { error } => 1,
        }
    }
}

proof fn lemma_run_ends(progress: RunProgress, replies: Seq<Reply>)
    requires
        pending_wf(progress),
        progress matches Progress::Pending { call, state } ==> replies.len()
            >= state.replies_left(),
    ensures
        progress::after(progress, replies) is Complete,
    decreases replies.len(),
{
    if let Progress::Pending { call, state } = progress {
        lemma_run_ends(state.next(replies[0]), replies.drop_first());
    }
}

/// A run is over after one reply for the descriptor, one for each step, and one
/// for the descriptor's being closed.
pub proof fn law_run_ends(plan: PlanView, replies: Seq<Reply>)
    requires
        replies.len() >= plan.steps.len() + 2,
    ensures
        progress::after(plan.start(), replies) is Complete,
{
    lemma_run_ends(plan.start(), replies);
}

impl PlanView {
    /// With the replies beginning at the step `at`, the step `k` is the first to
    /// fail.
    pub open spec fn first_failure(self, at: int, replies: Seq<Reply>, k: int) -> bool {
        &&& at <= k < self.steps.len()
        &&& k - at < replies.len()
        &&& forall|i: int| at <= i < k ==> self.steps[i].passes(#[trigger] replies[i - at])
        &&& !self.steps[k].passes(replies[k - at])
    }
}

proof fn lemma_outcome(plan: PlanView, fd: i32, at: int, replies: Seq<Reply>)
    requires
        0 <= at <= plan.steps.len(),
    ensures
        match progress::after(plan.go_on(fd, at), replies) {
            Progress::Complete(Ok(opened)) => {
                &&& opened == fd
                &&& replies.len() >= plan.steps.len() - at
                &&& forall|i: int|
                    at <= i < plan.steps.len() ==> plan.steps[i].passes(#[trigger] replies[i - at])
            },
            Progress::Complete(Err(error)) => exists|k: int| #[trigger]
                plan.first_failure(at, replies, k) && error.code == replies[k - at].errno,
            _ => true,
        },
    decreases replies.len(),
{
    if at < plan.steps.len() && replies.len() > 0 {
        let rest = replies.drop_first();
        if plan.steps[at].passes(replies[0]) {
            lemma_outcome(plan, fd, at + 1, rest);
            match progress::after(plan.go_on(fd, at), replies) {
                Progress::Complete(Ok(_)) => {
                    assert forall|i: int| at <= i < plan.steps.len() implies plan.steps[i].passes(
                        #[trigger] replies[i - at],
                    ) by {
                        if i > at {
                            assert(rest[i - (at + 1)] == replies[i - at]);
                        }
                    }
                },
                Progress::Complete(Err(error)) => {
                    let k = choose|k: int| #[trigger]
                        plan.first_failure(at + 1, rest, k) && error.code == rest[k - (at
                            + 1)].errno;
                    assert forall|i: int| at <= i < k implies plan.steps[i].passes(
                        #[trigger] replies[i - at],
                    ) by {
                        if i > at {
                            assert(rest[i - (at + 1)] == replies[i - at]);
                        }
                    }
                    assert(plan.first_failure(at, replies, k));
                },
                _ => {},
            }
        } else {
            assert(plan.first_failure(at, replies, at));
            reveal_with_fuel(progress::after, 3);
        }
    }
}

/// A run that is over gives back its descriptor exactly when every reply let it
/// go on. Otherwise the opening failed, or some step was the first to fail, and
/// the outcome is that error.
pub proof fn law_run_outcome(
    plan: PlanView,
    replies: Seq<Reply>,
    outcome: Result<i32, OsError>,
)
    requires
        progress::after(plan.start(), replies) == RunProgress::Complete(outcome),
    ensures
        outcome is Ok <==> plan.passes(replies, plan.steps.len() as int),
        outcome matches Ok(fd) ==> fd == replies[0].ret,
        outcome matches Err(error) ==> {
            ||| replies[0].ret == -1 && error.code == replies[0].errno
            ||| replies[0].ret != -1 && exists|k: int| #[trigger]
                plan.first_failure(0, replies.drop_first(), k) && error.code == replies[k
                    + 1].errno
        },
{
    let rest = replies.drop_first();
    let next = RunView::Opening { plan }.next(replies[0]);
    assert(progress::after(plan.start(), replies) == progress::after(next, rest));
    if replies[0].ret != -1 {
        lemma_outcome(plan, replies[0].ret, 0, rest);
        match outcome {
            Ok(_) => {
                assert forall|i: int| 0 <= i < plan.steps.len() implies plan.steps[i].passes(
                    #[trigger] replies[i + 1],
                ) by {
                    assert(rest[i - 0] == replies[i + 1]);
                }
            },
            Err(error) => {
                let k = choose|k: int| #[trigger]
                    plan.first_failure(0, rest, k) && error.code == rest[k - 0].errno;
                assert(rest[k] == replies[k + 1]);
            },
        }
    }
}

proof fn lemma_descriptor_accounted(plan: PlanView, fd: i32, at: int, replies: Seq<Reply>)
    requires
        0 <= at <= plan.steps.len(),
        forall|k: int| #[trigger] plan.first_failure(at, replies, k) ==> plan.steps[k].closes,
    ensures
        ({
            let made = progress::calls(plan.go_on(fd, at), replies);
            match progress::after(plan.go_on(fd, at), replies) {
                Progress::Complete(Ok(opened)) => {
                    &&& opened == fd
                    &&& forall|i: int| 0 <= i < made.len() ==> (#[trigger] made[i]) !is Close
                },
                Progress::Complete(Err(_)) => {
                    &&& made.len() > 0
                    &&& made.last() == (Syscall::Close { fd })
                    &&& forall|i: int| 0 <= i < made.len() - 1 ==> (#[trigger] made[i]) !is Close
                },
                _ => true,
            }
        }),
    decreases replies.len(),
{
    if at < plan.steps.len() && replies.len() > 0 {
        let rest = replies.drop_first();
        let here = plan.go_on(fd, at);
        let call = plan.steps[at].call.call_on(fd);
        let next = RunView::Stepping { plan, fd, at }.next(replies[0]);
        assert(progress::calls(here, replies) == seq![call] + progress::calls(next, rest));
        if plan.steps[at].passes(replies[0]) {
            assert forall|k: int| #[trigger] plan.first_failure(
                at + 1,
                rest,
                k,
            ) implies plan.steps[k].closes by {
                assert forall|i: int| at <= i < k implies plan.steps[i].passes(
                    #[trigger] replies[i - at],
                ) by {
                    if i > at {
                        assert(rest[i - (at + 1)] == replies[i - at]);
                    }
                }
                assert(plan.first_failure(at, replies, k));
            }
            lemma_descriptor_accounted(plan, fd, at + 1, rest);
            let later = progress::calls(next, rest);
            let made = progress::calls(here, replies);
            assert forall|i: int| 1 <= i < made.len() implies made[i] == later[i - 1] by {}
        } else {
            assert(plan.first_failure(at, replies, at));
            reveal_with_fuel(progress::after, 3);
            reveal_with_fuel(progress::calls, 3);
        }
    }
}

/// What `replies` lead a run to loses no descriptor: it gives back the one that
/// it opened and has closed nothing, or it fails and, unless the opening itself
/// failed, has closed that descriptor, once and as its last call.
pub open spec fn accounted(plan: PlanView, replies: Seq<Reply>) -> bool {
    let made = progress::calls(plan.start(), replies);
    match progress::after(plan.start(), replies) {
        Progress::Complete(Ok(opened)) => {
            &&& opened == replies[0].ret
            &&& opened != -1
            &&& forall|i: int| 0 <= i < made.len() ==> (#[trigger] made[i]) !is Close
        },
        Progress::Complete(Err(_)) => {
            ||| replies[0].ret == -1 && made == seq![plan.open]
            ||| {
                &&& replies[0].ret != -1
                &&& made.last() == (Syscall::Close { fd: replies[0].ret })
                &&& forall|i: int| 0 <= i < made.len() - 1 ==> (#[trigger] made[i]) !is Close
            }
        },
        _ => true,
    }
}

/// A run loses no descriptor, unless a step that does not close is the first to
/// fail.
pub proof fn law_descriptor_accounted(plan: PlanView, replies: Seq<Reply>)
    requires
        forall|k: int| #[trigger]
            plan.first_failure(0, replies.drop_first(), k) ==> plan.steps[k].closes,
        plan.open !is Close,
        replies.len() > 0,
    ensures
        accounted(plan, replies),
{
    let rest = replies.drop_first();
    let next = RunView::Opening { plan }.next(replies[0]);
    let made = progress::calls(plan.start(), replies);
    assert(made == seq![plan.open] + progress::calls(next, rest));
    assert(progress::after(plan.start(), replies) == progress::after(next, rest));
    if replies[0].ret == -1 {
        assert(made =~= seq![plan.open]);
    } else {
        lemma_descriptor_accounted(plan, replies[0].ret, 0, rest);
        let later = progress::calls(next, rest);
        assert forall|i: int| 1 <= i < made.len() implies made[i] == later[i - 1] by {}
    }
}

proof fn lemma_closes_own(plan: PlanView, fd: i32, at: int, replies: Seq<Reply>)
    requires
        0 <= at <= plan.steps.len(),
    ensures
        ({
            let made = progress::calls(plan.go_on(fd, at), replies);
            forall|i: int|
                0 <= i < made.len() && (#[trigger] made[i]) is Close ==> made[i] == (
                Syscall::Close { fd })
        }),
    decreases replies.len(),
{
    if at < plan.steps.len() && replies.len() > 0 {
        let rest = replies.drop_first();
        let made = progress::calls(plan.go_on(fd, at), replies);
        let next = RunView::Stepping { plan, fd, at }.next(replies[0]);
        let later = progress::calls(next, rest);
        assert(made == seq![plan.steps[at].call.call_on(fd)] + later);
        if plan.steps[at].passes(replies[0]) {
            lemma_closes_own(plan, fd, at + 1, rest);
        } else {
            reveal_with_fuel(progress::calls, 3);
        }
        assert forall|i: int| 1 <= i < made.len() implies made[i] == later[i - 1] by {}
    }
}

/// A run closes no descriptor but the one that it opened.
pub proof fn law_closes_own(plan: PlanView, replies: Seq<Reply>, i: int)
    requires
        plan.open !is Close,
        0 <= i < progress::calls(plan.start(), replies).len(),
        progress::calls(plan.start(), replies)[i] is Close,
    ensures
        replies.len() > 0,
        replies[0].ret != -1,
        progress::calls(plan.start(), replies)[i] == (Syscall::Close { fd: replies[0].ret }),
{
    let made = progress::calls(plan.start(), replies);
    if replies.len() > 0 {
        let rest = replies.drop_first();
        let next = RunView::Opening { plan }.next(replies[0]);
        assert(made == seq![plan.open] + progress::calls(next, rest));
        if replies[0].ret != -1 {
            lemma_closes_own(plan, replies[0].ret, 0, rest);
            assert(made[i] == progress::calls(next, rest)[i - 1]);
        }
    }
}

} // verus!
