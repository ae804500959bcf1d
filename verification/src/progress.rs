//! Operations that are carried out call by call.
use vstd::prelude::*;

use crate::syscall::{Reply, Syscall};

verus! {

/// How far an operation has come: it waits for the reply to a call, or it is
/// done.
#[derive(Debug)]
pub enum Progress<S, T> {
    Pending { call: Syscall, state: S },
    Complete(T),
}

/// The state of an operation that waits for the reply to a call.
pub trait Machine: Sized {
    /// What the operation comes to in the end.
    type Outcome;

    /// What follows from the reply.
    spec fn next(self, reply: Reply) -> Progress<Self, Self::Outcome>;
}

/// How far an operation that stands at `progress` comes by `replies`. Replies
/// past the end are not taken.
pub open spec fn after<M: Machine>(
    progress: Progress<M, M::Outcome>,
    replies: Seq<Reply>,
) -> Progress<M, M::Outcome>
    decreases replies.len(),
{
    match progress {
        Progress::Pending { call, state } if replies.len() > 0 => after(
            state.next(replies[0]),
            replies.drop_first(),
        ),
        _ => progress,
    }
}

/// The calls that an operation that stands at `progress` asks for while it takes
/// `replies`, with the one that it still waits for at the end.
pub open spec fn calls<M: Machine>(
    progress: Progress<M, M::Outcome>,
    replies: Seq<Reply>,
) -> Seq<Syscall>
    decreases replies.len(),
{
    match progress {
        Progress::Pending { call, state } => if replies.len() > 0 {
            seq![call] + calls(state.next(replies[0]), replies.drop_first())
        } else {
            seq![call]
        },
        Progress::Complete(_) => Seq::empty(),
    }
}

/// Taking replies in two portions comes to the same as taking them in one.
pub proof fn law_after_portions<M: Machine>(
    progress: Progress<M, M::Outcome>,
    first: Seq<Reply>,
    second: Seq<Reply>,
)
    ensures
        after(progress, first + second) == after(after(progress, first), second),
    decreases first.len(),
{
    if first.len() == 0 {
        assert(first + second =~= second);
    } else if let Progress::Pending { call, state } = progress {
        assert((first + second).drop_first() =~= first.drop_first() + second);
        law_after_portions(state.next(first[0]), first.drop_first(), second);
    }
}

/// While the operation is not done, the calls of two portions of replies are
/// those of the first, then those of the second. The call that is waited for in
/// between belongs to both.
pub proof fn law_calls_portions<M: Machine>(
    progress: Progress<M, M::Outcome>,
    first: Seq<Reply>,
    second: Seq<Reply>,
)
    requires
        after(progress, first) is Pending,
    ensures
        calls(progress, first + second) == calls(progress, first).drop_last() + calls(
            after(progress, first),
            second,
        ),
        calls(progress, first).len() > 0,
    decreases first.len(),
{
    if first.len() == 0 {
        assert(first + second =~= second);
        assert(calls(progress, first).drop_last() =~= Seq::empty());
        assert(calls(progress, first + second) =~= calls(progress, first).drop_last() + calls(
            after(progress, first),
            second,
        ));
    } else if let Progress::Pending { call, state } = progress {
        let rest = first.drop_first();
        assert((first + second).drop_first() =~= rest + second);
        law_calls_portions(state.next(first[0]), rest, second);
        assert(calls(progress, first + second) =~= calls(progress, first).drop_last() + calls(
            after(progress, first),
            second,
        ));
    }
}

/// The calls that an operation asked for on its way through `steps`.
pub open spec fn made<S, T>(steps: Seq<Progress<S, T>>) -> Seq<Syscall> {
    let waits = if steps.last() is Complete {
        steps.drop_last()
    } else {
        steps
    };
    waits.map_values(|step: Progress<S, T>| step->call)
}

/// Each of `steps` but the last waits for a reply, and the next one follows from
/// that reply.
pub open spec fn chain<M: Machine>(
    steps: Seq<Progress<M, M::Outcome>>,
    replies: Seq<Reply>,
) -> bool {
    &&& steps.len() == replies.len() + 1
    &&& forall|i: int|
        0 <= i < replies.len() ==> (#[trigger] steps[i]) is Pending && steps[i + 1]
            == steps[i]->state.next(replies[i])
}

/// A chain of steps ends where its replies lead, makes the calls that they lead
/// to, and takes no reply in vain.
pub proof fn law_chain<M: Machine>(
    steps: Seq<Progress<M, M::Outcome>>,
    replies: Seq<Reply>,
)
    requires
        chain(steps, replies),
    ensures
        steps.last() == after(steps[0], replies),
        made(steps) == calls(steps[0], replies),
        replies.len() > 0 ==> after(steps[0], replies.drop_last()) is Pending,
    decreases replies.len(),
{
    if replies.len() == 0 {
        assert(made(steps) =~= calls(steps[0], replies));
    } else {
        let later = steps.drop_first();
        let rest = replies.drop_first();
        assert(steps[0] is Pending);
        assert forall|i: int| 0 <= i < rest.len() implies (#[trigger] later[i]) is Pending
            && later[i + 1] == later[i]->state.next(rest[i]) by {
            assert(later[i] == steps[i + 1]);
        }
        law_chain(later, rest);
        assert(made(steps) =~= seq![steps[0]->call] + made(later));
        if replies.len() > 1 {
            assert(rest.drop_last() =~= replies.drop_last().drop_first());
        } else {
            assert(replies.drop_last() =~= Seq::empty());
        }
    }
}

} // verus!
