//! What is refused for want of a target or of a status.

use crate::branch::{BranchModel, CommitModel, TargetModel};
use crate::commit::{amend_flow, cherry_pick_flow, reset_branch_flow};
use crate::committing::lemma_no_status;
use crate::dialogue::{after, fails_with, goes_through, lemma_told, Step};
use crate::merge::{is_remote_branch_mergeable_flow, is_virtual_branch_mergeable_flow};
use crate::objects::{BranchId, Oid};
use crate::ownership::FileOwnershipModel;
use crate::protocol::{
    BranchErrorModel, FailureKind, FailureModel, Flow, ReplyModel, RequestModel,
};
use crate::push::push_flow;
use crate::session::applied_only;
use crate::status::{get_applied_status_flow, BranchStatusModel};
use vstd::prelude::*;

verus! {

/// Without a target no branch is reset, none is compared with the working directory, and none is
/// pushed for the first time: nothing is changed, and that there is no target is the error.
pub proof fn a_target_is_needed(
    id: BranchId,
    oid: Oid,
    name: Seq<char>,
    force: bool,
    branch: BranchModel,
    failure: FailureModel,
)
    requires
        failure.kind == FailureKind::NotFound,
        !branch.applied,
        branch.upstream is None,
    ensures
        fails_with(
            |s: Seq<ReplyModel>| reset_branch_flow(s, id, oid),
            seq![
                Step::Ask(RequestModel::OpenSession, ReplyModel::Unit),
                Step::Ask(RequestModel::ReadDefaultTarget, ReplyModel::Failed(failure)),
            ],
            BranchErrorModel::NoDefaultTarget,
        ),
        fails_with(
            |s: Seq<ReplyModel>| is_remote_branch_mergeable_flow(s, name),
            seq![
                Step::Ask(RequestModel::OpenSession, ReplyModel::Unit),
                Step::Ask(RequestModel::ReadDefaultTarget, ReplyModel::Failed(failure)),
            ],
            BranchErrorModel::NoDefaultTarget,
        ),
        fails_with(
            |s: Seq<ReplyModel>| is_virtual_branch_mergeable_flow(s, id),
            seq![
                Step::Ask(RequestModel::OpenSession, ReplyModel::Unit),
                Step::Ask(RequestModel::ReadBranch(id), ReplyModel::Branch(branch)),
                Step::Ask(RequestModel::ReadDefaultTarget, ReplyModel::Failed(failure)),
            ],
            BranchErrorModel::NoDefaultTarget,
        ),
        fails_with(
            |s: Seq<ReplyModel>| push_flow(s, id, force),
            seq![
                Step::Ask(RequestModel::OpenSession, ReplyModel::Unit),
                Step::Ask(RequestModel::ReadBranch(id), ReplyModel::Branch(branch)),
                Step::Ask(RequestModel::ReadDefaultTarget, ReplyModel::Failed(failure)),
            ],
            BranchErrorModel::NoDefaultTarget,
        ),
{
    broadcast use lemma_told;

    reveal_with_fuel(after, 4);
    reveal_with_fuel(goes_through, 4);
}

/// Without a target nothing is picked onto an applied branch, and no applied branch is amended.
pub proof fn a_target_is_needed_to_pick_and_to_amend(
    id: BranchId,
    oid: Oid,
    ownership: Seq<FileOwnershipModel>,
    signed: bool,
    branch: BranchModel,
    picked: CommitModel,
    head: CommitModel,
    failure: FailureModel,
)
    requires
        failure.kind == FailureKind::NotFound,
        branch.applied,
        branch.id == id,
    ensures
        fails_with(
            |s: Seq<ReplyModel>| cherry_pick_flow(s, id, oid),
            seq![
                Step::Ask(RequestModel::IsConflicting(None), ReplyModel::Flag(false)),
                Step::Ask(RequestModel::OpenSession, ReplyModel::Unit),
                Step::Ask(RequestModel::ReadBranch(id), ReplyModel::Branch(branch)),
                Step::Ask(RequestModel::FindCommit(oid), ReplyModel::Commit(picked)),
                Step::Ask(RequestModel::FindCommit(branch.head), ReplyModel::Commit(head)),
                Step::Ask(RequestModel::ReadDefaultTarget, ReplyModel::Failed(failure)),
            ],
            BranchErrorModel::NoDefaultTarget,
        ),
        fails_with(
            |s: Seq<ReplyModel>| amend_flow(s, id, ownership, signed),
            seq![
                Step::Ask(RequestModel::IsConflicting(None), ReplyModel::Flag(false)),
                Step::Ask(RequestModel::OpenSession, ReplyModel::Unit),
                Step::Ask(RequestModel::ListBranches, ReplyModel::Branches(seq![branch])),
                Step::Ask(RequestModel::ReadDefaultTarget, ReplyModel::Failed(failure)),
            ],
            BranchErrorModel::NoDefaultTarget,
        ),
{
    broadcast use lemma_told;

    let branches = seq![branch];
    let applied = applied_only(branches);
    assert(branches[0].id == id);
    branches.lemma_filter_contains(|b: BranchModel| b.applied, 0);
    let j = choose|j: int| 0 <= j < applied.len() && applied[j] == branch;
    assert(applied[j].id == id);
    reveal_with_fuel(after, 8);
    reveal_with_fuel(goes_through, 8);
}

/// Nothing is picked onto a branch that has no status among the applied ones: nothing is made, and
/// nothing is changed.
pub proof fn nothing_is_picked_onto_a_branch_without_a_status(
    id: BranchId,
    oid: Oid,
    branch: BranchModel,
    picked: CommitModel,
    head: CommitModel,
    target: TargetModel,
    branches: Seq<BranchModel>,
    listed: Seq<ReplyModel>,
    statuses: Seq<BranchStatusModel>,
)
    requires
        branch.applied,
        forall|j: int| 0 <= j < statuses.len() ==> (#[trigger] statuses[j]).branch.id != id,
        forall|more: Seq<ReplyModel>| #[trigger]
            get_applied_status_flow(listed + more, target, applied_only(branches)) == Flow::Done(
                statuses,
                more,
            ),
    ensures
        fails_with(
            |s: Seq<ReplyModel>| cherry_pick_flow(s, id, oid),
            seq![
                Step::Ask(RequestModel::IsConflicting(None), ReplyModel::Flag(false)),
                Step::Ask(RequestModel::OpenSession, ReplyModel::Unit),
                Step::Ask(RequestModel::ReadBranch(id), ReplyModel::Branch(branch)),
                Step::Ask(RequestModel::FindCommit(oid), ReplyModel::Commit(picked)),
                Step::Ask(RequestModel::FindCommit(branch.head), ReplyModel::Commit(head)),
                Step::Ask(RequestModel::ReadDefaultTarget, ReplyModel::Target(target)),
                Step::Ask(RequestModel::ListBranches, ReplyModel::Branches(branches)),
                Step::Part(listed),
            ],
            BranchErrorModel::BranchNotFound(id),
        ),
{
    broadcast use lemma_told;

    lemma_no_status(statuses, id);
    reveal_with_fuel(after, 10);
    reveal_with_fuel(goes_through, 10);
}

} // verus!
