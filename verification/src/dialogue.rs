//! Dialogues: what an operation asks for, one request after the other, and what it is told.

use crate::protocol::{BranchErrorModel, Flow, ReplyModel, RequestModel, StopModel};
use vstd::prelude::*;

verus! {

/// A step of a dialogue.
pub enum Step {
    /// A request, and the reply to it.
    Ask(RequestModel, ReplyModel),
    /// The replies that a part of the operation takes, whatever it asks for.
    Part(Seq<ReplyModel>),
}

/// Some replies behind one more.
pub open spec fn told(reply: ReplyModel, rest: Seq<ReplyModel>) -> Seq<ReplyModel> {
    seq![reply] + rest
}

pub broadcast proof fn lemma_told(reply: ReplyModel, rest: Seq<ReplyModel>)
    ensures
        (#[trigger] told(reply, rest)).len() == rest.len() + 1,
        told(reply, rest)[0] == reply,
        told(reply, rest).drop_first() == rest,
{
    assert(told(reply, rest).drop_first() =~= rest);
}

/// Some replies behind those of some steps.
pub open spec fn after(steps: Seq<Step>, rest: Seq<ReplyModel>) -> Seq<ReplyModel>
    decreases steps.len(),
{
    if steps.len() == 0 {
        rest
    } else {
        match steps[0] {
            Step::Ask(_, reply) => told(reply, after(steps.drop_first(), rest)),
            Step::Part(replies) => replies + after(steps.drop_first(), rest),
        }
    }
}

/// Whether an operation that stops does so to ask for something.
pub open spec fn asks<T>(flow: Flow<T>, request: RequestModel) -> bool {
    flow == Flow::<T>::Stop(StopModel::Ask(request))
}

/// Whether an operation goes through some steps: at each of them, told what has been said so far, it
/// asks for what the step says.
pub open spec fn goes_through<T>(
    operation: spec_fn(Seq<ReplyModel>) -> Flow<T>,
    steps: Seq<Step>,
) -> bool
    decreases steps.len(),
{
    steps.len() == 0 || match steps[0] {
        Step::Ask(request, reply) => asks(operation(seq![]), request) && goes_through(
            |s: Seq<ReplyModel>| operation(told(reply, s)),
            steps.drop_first(),
        ),
        Step::Part(replies) => goes_through(
            |s: Seq<ReplyModel>| operation(replies + s),
            steps.drop_first(),
        ),
    }
}

/// Whether an operation goes through some steps and comes to a result then.
pub open spec fn comes_to<T>(
    operation: spec_fn(Seq<ReplyModel>) -> Flow<T>,
    steps: Seq<Step>,
    result: T,
) -> bool {
    &&& goes_through(operation, steps)
    &&& forall|rest: Seq<ReplyModel>| #[trigger]
        operation(after(steps, rest)) == Flow::Done(result, rest)
}

/// Whether an operation goes through some steps and fails then.
pub open spec fn fails_with<T>(
    operation: spec_fn(Seq<ReplyModel>) -> Flow<T>,
    steps: Seq<Step>,
    error: BranchErrorModel,
) -> bool {
    &&& goes_through(operation, steps)
    &&& forall|rest: Seq<ReplyModel>| #[trigger]
        operation(after(steps, rest)) == Flow::<T>::Stop(StopModel::Fail(error))
}

/// An operation that goes on as another does behind its first steps goes through the steps of both,
/// and comes out as the other does.
pub proof fn lemma_goes_on<T>(
    operation: spec_fn(Seq<ReplyModel>) -> Flow<T>,
    next: spec_fn(Seq<ReplyModel>) -> Flow<T>,
    begun: Seq<Step>,
    steps: Seq<Step>,
)
    requires
        goes_through(operation, begun),
        forall|s: Seq<ReplyModel>| #[trigger] operation(after(begun, s)) == next(s),
        goes_through(next, steps),
    ensures
        goes_through(operation, begun + steps),
        forall|s: Seq<ReplyModel>| #[trigger]
            operation(after(begun + steps, s)) == next(after(steps, s)),
    decreases begun.len(),
{
    if begun.len() == 0 {
        assert(begun + steps =~= steps);
        assert forall|s: Seq<ReplyModel>| operation(s) == #[trigger] next(s) by {
            assert(operation(after(begun, s)) == next(s));
        }
        assert(operation =~= next);
    } else {
        let left = begun.drop_first();
        assert((begun + steps).drop_first() =~= left + steps);
        let op = match begun[0] {
            Step::Ask(_, reply) => |s: Seq<ReplyModel>| operation(told(reply, s)),
            Step::Part(replies) => |s: Seq<ReplyModel>| operation(replies + s),
        };
        assert forall|s: Seq<ReplyModel>| #[trigger] op(after(left, s)) == next(s) by {
            assert(operation(after(begun, s)) == next(s));
        }
        lemma_goes_on(op, next, left, steps);
        assert forall|s: Seq<ReplyModel>| #[trigger]
            operation(after(begun + steps, s)) == next(after(steps, s)) by {
            assert(op(after(left + steps, s)) == next(after(steps, s)));
        }
    }
}

/// An operation that begins with another goes through its steps.
pub proof fn lemma_goes_through_first<T, U>(
    first: spec_fn(Seq<ReplyModel>) -> Flow<T>,
    whole: spec_fn(Seq<ReplyModel>) -> Flow<U>,
    steps: Seq<Step>,
)
    requires
        goes_through(first, steps),
        forall|s: Seq<ReplyModel>| #[trigger]
            first(s) matches Flow::Stop(stop) ==> whole(s) == Flow::<U>::Stop(stop),
    ensures
        goes_through(whole, steps),
    decreases steps.len(),
{
    if steps.len() > 0 {
        match steps[0] {
            Step::Ask(request, reply) => {
                assert(first(seq![]) is Stop);
                lemma_goes_through_first(
                    |s: Seq<ReplyModel>| first(told(reply, s)),
                    |s: Seq<ReplyModel>| whole(told(reply, s)),
                    steps.drop_first(),
                );
            },
            Step::Part(replies) => {
                lemma_goes_through_first(
                    |s: Seq<ReplyModel>| first(replies + s),
                    |s: Seq<ReplyModel>| whole(replies + s),
                    steps.drop_first(),
                );
            },
        }
    }
}

} // verus!
