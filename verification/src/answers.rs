//! What becomes of the replies to requests.

use crate::branch::{BranchModel, TargetModel};
use crate::dialogue::{after, asks, comes_to, fails_with, goes_through, lemma_told, told, Step};
use crate::objects::Oid;
use crate::protocol::{
    ask_unit, ask_flag, ask_oid, ask_maybe_oid, ask_id, ask_millis, ask_target, ask_maybe_target,
    ask_branch, ask_branches, ask_commit, ask_commits, ask_oids, ask_index, ask_conflicts,
    ask_paths, ask_diffs, ask_times, ask_stat, ask_link, ask_bytes, ask_remote,
    ask_remote_branches, fail, BranchErrorModel, FailureKind, FailureModel, Flow, ReplyModel,
    RequestModel,
};
use crate::session::{get_default_target_flow, list_applied_vbranches_flow};
use vstd::prelude::*;

verus! {

/// Whether asking for something comes out as it has to: it waits for a reply, takes one of the right
/// kind for what it is, fails where the outside failed, and refuses any other reply.
pub open spec fn is_answered<T>(
    asking: spec_fn(Seq<ReplyModel>) -> Flow<T>,
    request: RequestModel,
    reply: ReplyModel,
    value: Option<T>,
) -> bool {
    &&& asks(asking(seq![]), request)
    &&& forall|rest: Seq<ReplyModel>| #[trigger]
        asking(told(reply, rest)) == match (reply, value) {
            (ReplyModel::Failed(failure), _) => fail::<T>(BranchErrorModel::Outside(failure)),
            (_, Some(value)) => Flow::Done(value, rest),
            (_, None) => fail::<T>(BranchErrorModel::UnexpectedReply),
        }
}

/// Of each request the reply of the right kind is taken for what it is; a failure outside is a
/// failure of the operation, and any other reply is refused.
pub proof fn simple_replies_are_taken_for_what_they_are(request: RequestModel, reply: ReplyModel)
    ensures
        is_answered(
            |s: Seq<ReplyModel>| ask_unit(s, request),
            request,
            reply,
            match reply {
                ReplyModel::Unit => Some(()),
                _ => None,
            },
        ),
        is_answered(
            |s: Seq<ReplyModel>| ask_flag(s, request),
            request,
            reply,
            match reply {
                ReplyModel::Flag(v) => Some(v),
                _ => None,
            },
        ),
        is_answered(
            |s: Seq<ReplyModel>| ask_oid(s, request),
            request,
            reply,
            match reply {
                ReplyModel::Oid(v) => Some(v),
                _ => None,
            },
        ),
        is_answered(
            |s: Seq<ReplyModel>| ask_maybe_oid(s, request),
            request,
            reply,
            match reply {
                ReplyModel::MaybeOid(v) => Some(v),
                _ => None,
            },
        ),
        is_answered(
            |s: Seq<ReplyModel>| ask_id(s, request),
            request,
            reply,
            match reply {
                ReplyModel::Id(v) => Some(v),
                _ => None,
            },
        ),
        is_answered(
            |s: Seq<ReplyModel>| ask_millis(s, request),
            request,
            reply,
            match reply {
                ReplyModel::Millis(v) => Some(v),
                _ => None,
            },
        ),
        is_answered(
            |s: Seq<ReplyModel>| ask_target(s, request),
            request,
            reply,
            match reply {
                ReplyModel::Target(v) => Some(v),
                _ => None,
            },
        ),
        is_answered(
            |s: Seq<ReplyModel>| ask_maybe_target(s, request),
            request,
            reply,
            match reply {
                ReplyModel::MaybeTarget(v) => Some(v),
                _ => None,
            },
        ),
{
    broadcast use lemma_told;
}

/// Of each request the reply of the right kind is taken for what it is; a failure outside is a
/// failure of the operation, and any other reply is refused.
pub proof fn replies_about_commits_and_branches_are_taken_for_what_they_are(
    request: RequestModel,
    reply: ReplyModel,
)
    ensures
        is_answered(
            |s: Seq<ReplyModel>| ask_branch(s, request),
            request,
            reply,
            match reply {
                ReplyModel::Branch(v) => Some(v),
                _ => None,
            },
        ),
        is_answered(
            |s: Seq<ReplyModel>| ask_branches(s, request),
            request,
            reply,
            match reply {
                ReplyModel::Branches(v) => Some(v),
                _ => None,
            },
        ),
        is_answered(
            |s: Seq<ReplyModel>| ask_commit(s, request),
            request,
            reply,
            match reply {
                ReplyModel::Commit(v) => Some(v),
                _ => None,
            },
        ),
        is_answered(
            |s: Seq<ReplyModel>| ask_commits(s, request),
            request,
            reply,
            match reply {
                ReplyModel::Commits(v) => Some(v),
                _ => None,
            },
        ),
        is_answered(
            |s: Seq<ReplyModel>| ask_oids(s, request),
            request,
            reply,
            match reply {
                ReplyModel::Oids(v) => Some(v),
                _ => None,
            },
        ),
        is_answered(
            |s: Seq<ReplyModel>| ask_index(s, request),
            request,
            reply,
            match reply {
                ReplyModel::Index(v) => Some(v),
                _ => None,
            },
        ),
        is_answered(
            |s: Seq<ReplyModel>| ask_conflicts(s, request),
            request,
            reply,
            match reply {
                ReplyModel::Conflicts(v) => Some(v),
                _ => None,
            },
        ),
        is_answered(
            |s: Seq<ReplyModel>| ask_paths(s, request),
            request,
            reply,
            match reply {
                ReplyModel::Paths(v) => Some(v),
                _ => None,
            },
        ),
{
    broadcast use lemma_told;
}

/// Of each request the reply of the right kind is taken for what it is; a failure outside is a
/// failure of the operation, and any other reply is refused.
pub proof fn replies_about_files_are_taken_for_what_they_are(request: RequestModel, reply: ReplyModel)
    ensures
        is_answered(
            |s: Seq<ReplyModel>| ask_diffs(s, request),
            request,
            reply,
            match reply {
                ReplyModel::Diffs(v) => Some(v),
                _ => None,
            },
        ),
        is_answered(
            |s: Seq<ReplyModel>| ask_times(s, request),
            request,
            reply,
            match reply {
                ReplyModel::Times(v) => Some(v),
                _ => None,
            },
        ),
        is_answered(
            |s: Seq<ReplyModel>| ask_stat(s, request),
            request,
            reply,
            match reply {
                ReplyModel::Stat(v) => Some(v),
                _ => None,
            },
        ),
        is_answered(
            |s: Seq<ReplyModel>| ask_link(s, request),
            request,
            reply,
            match reply {
                ReplyModel::Link(v) => Some(v),
                _ => None,
            },
        ),
        is_answered(
            |s: Seq<ReplyModel>| ask_bytes(s, request),
            request,
            reply,
            match reply {
                ReplyModel::Bytes(v) => Some(v),
                _ => None,
            },
        ),
        is_answered(
            |s: Seq<ReplyModel>| ask_remote(s, request),
            request,
            reply,
            match reply {
                ReplyModel::Remote(v) => Some(v),
                _ => None,
            },
        ),
        is_answered(
            |s: Seq<ReplyModel>| ask_remote_branches(s, request),
            request,
            reply,
            match reply {
                ReplyModel::RemoteBranches(v) => Some(v),
                _ => None,
            },
        ),
{
    broadcast use lemma_told;
}

/// There is a target where one is set, and none where none is found. Any other failure is one of the
/// operation.
pub proof fn the_target_is_the_one_that_is_set(target: TargetModel, failure: FailureModel)
    ensures
        comes_to(
            |s: Seq<ReplyModel>| get_default_target_flow(s),
            seq![Step::Ask(RequestModel::ReadDefaultTarget, ReplyModel::Target(target))],
            Some(target),
        ),
        failure.kind == FailureKind::NotFound ==> comes_to(
            |s: Seq<ReplyModel>| get_default_target_flow(s),
            seq![Step::Ask(RequestModel::ReadDefaultTarget, ReplyModel::Failed(failure))],
            None,
        ),
        failure.kind != FailureKind::NotFound ==> fails_with(
            |s: Seq<ReplyModel>| get_default_target_flow(s),
            seq![Step::Ask(RequestModel::ReadDefaultTarget, ReplyModel::Failed(failure))],
            BranchErrorModel::Outside(failure),
        ),
{
    broadcast use lemma_told;

    reveal_with_fuel(after, 2);
    reveal_with_fuel(goes_through, 2);
}

/// The applied branches are those of the stored ones that are applied, in their order.
pub proof fn the_applied_branches_are_listed(branches: Seq<BranchModel>)
    ensures
        comes_to(
            |s: Seq<ReplyModel>| list_applied_vbranches_flow(s),
            seq![
                Step::Ask(RequestModel::OpenSession, ReplyModel::Unit),
                Step::Ask(RequestModel::ListBranches, ReplyModel::Branches(branches)),
            ],
            branches.filter(|b: BranchModel| b.applied),
        ),
{
    broadcast use lemma_told;

    reveal_with_fuel(after, 3);
    reveal_with_fuel(goes_through, 3);
}

} // verus!
