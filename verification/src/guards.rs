//! What operations refuse, and when they do nothing.

use crate::apply::{
    apply_branch_flow, flush_applied_vbranches_flow, unapply_branch_flow, unapply_ownership_flow,
};
use crate::branch::{BranchModel, TargetModel};
use crate::commit::{amend_flow, cherry_pick_flow, reset_branch_flow};
use crate::listing::list_virtual_branches_flow;
use crate::merge::merge_virtual_branch_upstream_flow;
use crate::objects::{BranchId, Oid};
use crate::ownership::FileOwnershipModel;
use crate::presentation::VirtualBranchModel;
use crate::protocol::{
    fail, BranchErrorModel, FailureKind, Flow, ReplyModel, RequestModel, StopModel,
};
use crate::status::{get_status_by_branch_flow, BranchStatusModel};
use vstd::prelude::*;

verus! {

/// Whether there are conflicts is the first thing that is asked.
pub proof fn conflicts_are_asked_about_first(
    id: BranchId,
    oid: Oid,
    ownership: Seq<FileOwnershipModel>,
    signed: bool,
)
    ensures
        apply_branch_flow(seq![], id, signed) == Flow::<()>::Stop(
            StopModel::Ask(RequestModel::IsResolving),
        ),
        unapply_branch_flow(seq![], id) == Flow::<()>::Stop(
            StopModel::Ask(RequestModel::IsResolving),
        ),
        unapply_ownership_flow(seq![], ownership) == Flow::<()>::Stop(
            StopModel::Ask(RequestModel::IsResolving),
        ),
        merge_virtual_branch_upstream_flow(seq![], id, signed) == Flow::<()>::Stop(
            StopModel::Ask(RequestModel::IsConflicting(None)),
        ),
        amend_flow(seq![], id, ownership, signed) == Flow::<Oid>::Stop(
            StopModel::Ask(RequestModel::IsConflicting(None)),
        ),
        cherry_pick_flow(seq![], id, oid) == Flow::<Option<Oid>>::Stop(
            StopModel::Ask(RequestModel::IsConflicting(None)),
        ),
{
}

/// While there are conflicts, operations that would touch the working directory are refused, and
/// nothing more is asked of the outside.
pub proof fn refused_while_there_are_conflicts(
    s: Seq<ReplyModel>,
    id: BranchId,
    oid: Oid,
    ownership: Seq<FileOwnershipModel>,
    signed: bool,
)
    requires
        s.len() > 0,
        s[0] == ReplyModel::Flag(true),
    ensures
        apply_branch_flow(s, id, signed) == fail::<()>(BranchErrorModel::ApplyWhileConflicted),
        unapply_branch_flow(s, id) == fail::<()>(BranchErrorModel::UnapplyWhileConflicted),
        unapply_ownership_flow(s, ownership) == fail::<()>(
            BranchErrorModel::UnapplyWhileConflicted,
        ),
        merge_virtual_branch_upstream_flow(s, id, signed) == fail::<()>(
            BranchErrorModel::MergeWhileConflicted,
        ),
        amend_flow(s, id, ownership, signed) == fail::<Oid>(BranchErrorModel::AmendWhileConflicted),
        cherry_pick_flow(s, id, oid) == fail::<Option<Oid>>(
            BranchErrorModel::CherryPickWhileConflicted,
        ),
{
}

/// Whether a reply says that no target is set.
pub open spec fn says_no_target(reply: ReplyModel) -> bool {
    reply matches ReplyModel::Failed(failure) && failure.kind == FailureKind::NotFound
}

/// Without a target there is nothing to apply and nothing to unapply.
pub proof fn nothing_is_applied_without_a_target(
    s: Seq<ReplyModel>,
    id: BranchId,
    ownership: Seq<FileOwnershipModel>,
    signed: bool,
)
    requires
        s.len() > 2,
        s[0] == ReplyModel::Flag(false),
        s[1] == ReplyModel::Unit,
        says_no_target(s[2]),
    ensures
        apply_branch_flow(s, id, signed) == Flow::Done((), s.skip(3)),
        unapply_ownership_flow(s, ownership) == Flow::Done((), s.skip(3)),
{
    assert(s.skip(1).skip(1).skip(1) =~= s.skip(3));
}

/// Without a target nothing is kept of what the branches hold: no branch is stored.
pub proof fn nothing_is_flushed_without_a_target(s: Seq<ReplyModel>, branches: Seq<BranchModel>)
    requires
        s.len() > 3,
        s[0] == ReplyModel::Unit,
        s[1] == ReplyModel::Branches(branches),
        s[2] == ReplyModel::Unit,
        says_no_target(s[3]),
    ensures
        flush_applied_vbranches_flow(s) == Flow::Done((), s.skip(4)),
{
    assert(s.drop_first().drop_first().drop_first().drop_first() =~= s.skip(4));
}

/// Without a target no branch is listed, and none has a status.
pub proof fn nothing_is_listed_without_a_target(s: Seq<ReplyModel>)
    requires
        s.len() > 1,
        s[0] == ReplyModel::Unit,
        says_no_target(s[1]),
    ensures
        list_virtual_branches_flow(s) == Flow::Done(Seq::<VirtualBranchModel>::empty(), s.skip(2)),
        get_status_by_branch_flow(s) == Flow::Done(Seq::<BranchStatusModel>::empty(), s.skip(2)),
{
    assert(s.skip(1).skip(1) =~= s.skip(2));
}

/// Nothing is unapplied, and nothing picked onto a branch, where the branch is not applied.
pub proof fn refused_where_the_branch_is_not_applied(
    s: Seq<ReplyModel>,
    branch: BranchModel,
    id: BranchId,
    oid: Oid,
)
    requires
        s.len() > 2,
        s[0] == ReplyModel::Flag(false),
        s[1] == ReplyModel::Unit,
        s[2] == ReplyModel::Branch(branch),
        !branch.applied,
    ensures
        unapply_branch_flow(s, id) == fail::<()>(BranchErrorModel::NotApplied),
        cherry_pick_flow(s, id, oid) == fail::<Option<Oid>>(BranchErrorModel::CherryPickUnapplied),
{
}

/// Where a branch is at a commit already, resetting it to that commit changes nothing.
pub proof fn a_reset_to_the_head_changes_nothing(
    s: Seq<ReplyModel>,
    target: TargetModel,
    branch: BranchModel,
    id: BranchId,
)
    requires
        s.len() > 2,
        s[0] == ReplyModel::Unit,
        s[1] == ReplyModel::Target(target),
        s[2] == ReplyModel::Branch(branch),
    ensures
        reset_branch_flow(s, id, branch.head) == Flow::Done((), s.skip(3)),
{
    assert(s.skip(1).skip(1).skip(1) =~= s.skip(3));
}

} // verus!
