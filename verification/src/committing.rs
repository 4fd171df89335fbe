//! What is asked for, step by step, when commits are made.

use crate::apply::status_of;
use crate::branch::{BranchModel, CommitModel, TargetModel};
use crate::commit::{commit_files_flow, commit_flow, to_commit};
use crate::dialogue::{after, comes_to, fails_with, goes_through, lemma_goes_on, lemma_told, Step};
use crate::diff::FileDiffModel;
use crate::objects::{BranchId, Oid};
use crate::ownership::FileOwnershipModel;
use crate::protocol::{BranchErrorModel, Flow, ReplyModel, RequestModel, Signatures};
use crate::status::{get_status_by_branch_flow, BranchStatusModel};
use crate::tree::write_tree_onto_commit_flow;
use crate::uncommitted::calculate_non_commited_diffs_flow;
use vstd::prelude::*;

verus! {

/// Whether a status is the first one of a branch.
pub open spec fn is_status_of(statuses: Seq<BranchStatusModel>, id: BranchId, k: int) -> bool {
    &&& 0 <= k < statuses.len()
    &&& statuses[k].branch.id == id
    &&& forall|j: int| 0 <= j < k ==> (#[trigger] statuses[j]).branch.id != id
}

pub proof fn lemma_status_of(statuses: Seq<BranchStatusModel>, id: BranchId, k: int)
    requires
        is_status_of(statuses, id, k),
    ensures
        status_of(statuses, id) == k,
    decreases statuses.len(),
{
    if k > 0 {
        assert(statuses[0].branch.id != id);
        let rest = statuses.drop_first();
        assert forall|j: int| 0 <= j < k - 1 implies (#[trigger] rest[j]).branch.id != id by {
            assert(statuses[j + 1].branch.id != id);
        }
        lemma_status_of(rest, id, k - 1);
    }
}

pub proof fn lemma_no_status(statuses: Seq<BranchStatusModel>, id: BranchId)
    requires
        forall|j: int| 0 <= j < statuses.len() ==> (#[trigger] statuses[j]).branch.id != id,
    ensures
        status_of(statuses, id) == statuses.len(),
    decreases statuses.len(),
{
    if statuses.len() > 0 {
        assert(statuses[0].branch.id != id);
        let rest = statuses.drop_first();
        assert forall|j: int| 0 <= j < rest.len() implies (#[trigger] rest[j]).branch.id != id by {
            assert(statuses[j + 1].branch.id != id);
        }
        lemma_no_status(rest, id);
    }
}

/// The steps that make a commit on top of a head and store the branch with it.
pub open spec fn commit_steps(
    branch: BranchModel,
    parent: CommitModel,
    tree: Oid,
    message: Seq<char>,
    signed: bool,
    commit: Oid,
) -> Seq<Step> {
    seq![
        Step::Ask(RequestModel::FindCommit(branch.head), ReplyModel::Commit(parent)),
        Step::Ask(RequestModel::FindTree(tree), ReplyModel::Unit),
        Step::Ask(RequestModel::MergeParent, ReplyModel::MaybeOid(None)),
        Step::Ask(
            RequestModel::CreateCommit {
                signatures: Signatures::User,
                message,
                tree,
                parents: seq![branch.head],
                signed,
            },
            ReplyModel::Oid(commit),
        ),
        Step::Ask(
            RequestModel::WriteBranch(BranchModel { tree, head: commit, ..branch }),
            ReplyModel::Unit,
        ),
        Step::Ask(RequestModel::UpdateIntegration, ReplyModel::Unit),
    ]
}

/// The steps that make a commit while a merge is under way.
pub open spec fn merge_commit_steps(
    branch: BranchModel,
    parent: CommitModel,
    tree: Oid,
    message: Seq<char>,
    signed: bool,
    merged: Oid,
    merged_commit: CommitModel,
    commit: Oid,
) -> Seq<Step> {
    seq![
        Step::Ask(RequestModel::FindCommit(branch.head), ReplyModel::Commit(parent)),
        Step::Ask(RequestModel::FindTree(tree), ReplyModel::Unit),
        Step::Ask(RequestModel::MergeParent, ReplyModel::MaybeOid(Some(merged))),
        Step::Ask(RequestModel::FindCommit(merged), ReplyModel::Commit(merged_commit)),
        Step::Ask(
            RequestModel::CreateCommit {
                signatures: Signatures::User,
                message,
                tree,
                parents: seq![branch.head, merged],
                signed,
            },
            ReplyModel::Oid(commit),
        ),
        Step::Ask(RequestModel::ClearConflicts, ReplyModel::Unit),
        Step::Ask(
            RequestModel::WriteBranch(BranchModel { tree, head: commit, ..branch }),
            ReplyModel::Unit,
        ),
        Step::Ask(RequestModel::UpdateIntegration, ReplyModel::Unit),
    ]
}

/// The steps with which a commit begins: the target is read, the status is found, and in it what
/// the branch has not committed yet.
pub open spec fn commit_begins(
    target: TargetModel,
    statuses: Seq<ReplyModel>,
    found: Seq<ReplyModel>,
    conflicting: bool,
) -> Seq<Step> {
    seq![
        Step::Ask(RequestModel::StoredDefaultTarget, ReplyModel::MaybeTarget(Some(target))),
        Step::Part(statuses),
        Step::Part(found),
        Step::Ask(RequestModel::IsConflicting(None), ReplyModel::Flag(conflicting)),
    ]
}

proof fn lemma_commit_begins(
    id: BranchId,
    message: Seq<char>,
    ownership: Option<Seq<FileOwnershipModel>>,
    signed: bool,
    target: TargetModel,
    listed: Seq<ReplyModel>,
    statuses: Seq<BranchStatusModel>,
    k: int,
    found: Seq<ReplyModel>,
    files: Seq<FileDiffModel>,
    conflicting: bool,
)
    requires
        is_status_of(statuses, id, k),
        forall|more: Seq<ReplyModel>| #[trigger]
            get_status_by_branch_flow(listed + more) == Flow::Done(statuses, more),
        forall|more: Seq<ReplyModel>| #[trigger]
            calculate_non_commited_diffs_flow(
                found + more,
                statuses[k].branch,
                target,
                statuses[k].files,
            ) == Flow::Done(files, more),
    ensures
        goes_through(
            |s: Seq<ReplyModel>| commit_flow(s, id, message, ownership, signed),
            commit_begins(target, listed, found, conflicting),
        ),
        forall|s: Seq<ReplyModel>| #[trigger]
            commit_flow(
                after(commit_begins(target, listed, found, conflicting), s),
                id,
                message,
                ownership,
                signed,
            ) == if conflicting {
                Flow::Done(None, s)
            } else {
                commit_files_flow(
                    s,
                    statuses[k].branch,
                    to_commit(files, ownership),
                    message,
                    signed,
                ).and_then(|commit: Oid, s: Seq<ReplyModel>| Flow::Done(Some(commit), s))
            },
{
    broadcast use lemma_told;

    lemma_status_of(statuses, id, k);
    reveal_with_fuel(after, 5);
    reveal_with_fuel(goes_through, 5);
}

proof fn lemma_commit_steps(
    branch: BranchModel,
    files: Seq<FileDiffModel>,
    message: Seq<char>,
    signed: bool,
    written: Seq<ReplyModel>,
    tree: Oid,
    parent: CommitModel,
    commit: Oid,
)
    requires
        forall|more: Seq<ReplyModel>| #[trigger]
            write_tree_onto_commit_flow(written + more, branch.head, files) == Flow::Done(
                tree,
                more,
            ),
    ensures
        comes_to(
            |s: Seq<ReplyModel>|
                commit_files_flow(s, branch, files, message, signed).and_then(
                    |commit: Oid, s: Seq<ReplyModel>| Flow::Done(Some(commit), s),
                ),
            seq![Step::Part(written)] + commit_steps(branch, parent, tree, message, signed, commit),
            Some(commit),
        ),
{
    broadcast use lemma_told;

    reveal_with_fuel(after, 8);
    reveal_with_fuel(goes_through, 8);
}

proof fn lemma_merge_commit_steps(
    branch: BranchModel,
    files: Seq<FileDiffModel>,
    message: Seq<char>,
    signed: bool,
    written: Seq<ReplyModel>,
    tree: Oid,
    parent: CommitModel,
    merged: Oid,
    merged_commit: CommitModel,
    commit: Oid,
)
    requires
        forall|more: Seq<ReplyModel>| #[trigger]
            write_tree_onto_commit_flow(written + more, branch.head, files) == Flow::Done(
                tree,
                more,
            ),
    ensures
        comes_to(
            |s: Seq<ReplyModel>|
                commit_files_flow(s, branch, files, message, signed).and_then(
                    |commit: Oid, s: Seq<ReplyModel>| Flow::Done(Some(commit), s),
                ),
            seq![Step::Part(written)] + merge_commit_steps(
                branch,
                parent,
                tree,
                message,
                signed,
                merged,
                merged_commit,
                commit,
            ),
            Some(commit),
        ),
{
    broadcast use lemma_told;

    reveal_with_fuel(after, 10);
    reveal_with_fuel(goes_through, 10);
}

/// A commit has the message that is asked for, the head of the branch as its parent, and the tree
/// that the hunks which are asked for make of the head. The branch is stored with both, and the
/// commit is the result.
pub proof fn a_commit_follows_the_head(
    id: BranchId,
    message: Seq<char>,
    ownership: Option<Seq<FileOwnershipModel>>,
    signed: bool,
    target: TargetModel,
    listed: Seq<ReplyModel>,
    statuses: Seq<BranchStatusModel>,
    k: int,
    found: Seq<ReplyModel>,
    files: Seq<FileDiffModel>,
    written: Seq<ReplyModel>,
    tree: Oid,
    parent: CommitModel,
    commit: Oid,
)
    requires
        is_status_of(statuses, id, k),
        forall|more: Seq<ReplyModel>| #[trigger]
            get_status_by_branch_flow(listed + more) == Flow::Done(statuses, more),
        forall|more: Seq<ReplyModel>| #[trigger]
            calculate_non_commited_diffs_flow(
                found + more,
                statuses[k].branch,
                target,
                statuses[k].files,
            ) == Flow::Done(files, more),
        forall|more: Seq<ReplyModel>| #[trigger]
            write_tree_onto_commit_flow(
                written + more,
                statuses[k].branch.head,
                to_commit(files, ownership),
            ) == Flow::Done(tree, more),
    ensures
        comes_to(
            |s: Seq<ReplyModel>| commit_flow(s, id, message, ownership, signed),
            commit_begins(target, listed, found, false) + (seq![Step::Part(written)]
                + commit_steps(statuses[k].branch, parent, tree, message, signed, commit)),
            Some(commit),
        ),
{
    let wanted = to_commit(files, ownership);
    let branch = statuses[k].branch;
    lemma_commit_begins(
        id, message, ownership, signed, target, listed, statuses, k, found, files, false,
    );
    lemma_commit_steps(branch, wanted, message, signed, written, tree, parent, commit);
    lemma_goes_on(
        |s: Seq<ReplyModel>| commit_flow(s, id, message, ownership, signed),
        |s: Seq<ReplyModel>|
            commit_files_flow(s, branch, wanted, message, signed).and_then(
                |commit: Oid, s: Seq<ReplyModel>| Flow::Done(Some(commit), s),
            ),
        commit_begins(target, listed, found, false),
        seq![Step::Part(written)] + commit_steps(branch, parent, tree, message, signed, commit),
    );
}

/// While a merge is under way, the commit that is merged becomes the second parent, and then the
/// conflicts are over.
pub proof fn a_commit_ends_a_merge(
    id: BranchId,
    message: Seq<char>,
    ownership: Option<Seq<FileOwnershipModel>>,
    signed: bool,
    target: TargetModel,
    listed: Seq<ReplyModel>,
    statuses: Seq<BranchStatusModel>,
    k: int,
    found: Seq<ReplyModel>,
    files: Seq<FileDiffModel>,
    written: Seq<ReplyModel>,
    tree: Oid,
    parent: CommitModel,
    merged: Oid,
    merged_commit: CommitModel,
    commit: Oid,
)
    requires
        is_status_of(statuses, id, k),
        forall|more: Seq<ReplyModel>| #[trigger]
            get_status_by_branch_flow(listed + more) == Flow::Done(statuses, more),
        forall|more: Seq<ReplyModel>| #[trigger]
            calculate_non_commited_diffs_flow(
                found + more,
                statuses[k].branch,
                target,
                statuses[k].files,
            ) == Flow::Done(files, more),
        forall|more: Seq<ReplyModel>| #[trigger]
            write_tree_onto_commit_flow(
                written + more,
                statuses[k].branch.head,
                to_commit(files, ownership),
            ) == Flow::Done(tree, more),
    ensures
        comes_to(
            |s: Seq<ReplyModel>| commit_flow(s, id, message, ownership, signed),
            commit_begins(target, listed, found, false) + (seq![Step::Part(written)]
                + merge_commit_steps(
                statuses[k].branch,
                parent,
                tree,
                message,
                signed,
                merged,
                merged_commit,
                commit,
            )),
            Some(commit),
        ),
{
    let wanted = to_commit(files, ownership);
    let branch = statuses[k].branch;
    lemma_commit_begins(
        id, message, ownership, signed, target, listed, statuses, k, found, files, false,
    );
    lemma_merge_commit_steps(
        branch, wanted, message, signed, written, tree, parent, merged, merged_commit, commit,
    );
    lemma_goes_on(
        |s: Seq<ReplyModel>| commit_flow(s, id, message, ownership, signed),
        |s: Seq<ReplyModel>|
            commit_files_flow(s, branch, wanted, message, signed).and_then(
                |commit: Oid, s: Seq<ReplyModel>| Flow::Done(Some(commit), s),
            ),
        commit_begins(target, listed, found, false),
        seq![Step::Part(written)] + merge_commit_steps(
            branch,
            parent,
            tree,
            message,
            signed,
            merged,
            merged_commit,
            commit,
        ),
    );
}

/// While there are conflicts nothing is committed, and nothing is stored.
pub proof fn nothing_is_committed_while_there_are_conflicts(
    id: BranchId,
    message: Seq<char>,
    ownership: Option<Seq<FileOwnershipModel>>,
    signed: bool,
    target: TargetModel,
    listed: Seq<ReplyModel>,
    statuses: Seq<BranchStatusModel>,
    k: int,
    found: Seq<ReplyModel>,
    files: Seq<FileDiffModel>,
)
    requires
        is_status_of(statuses, id, k),
        forall|more: Seq<ReplyModel>| #[trigger]
            get_status_by_branch_flow(listed + more) == Flow::Done(statuses, more),
        forall|more: Seq<ReplyModel>| #[trigger]
            calculate_non_commited_diffs_flow(
                found + more,
                statuses[k].branch,
                target,
                statuses[k].files,
            ) == Flow::Done(files, more),
    ensures
        comes_to(
            |s: Seq<ReplyModel>| commit_flow(s, id, message, ownership, signed),
            commit_begins(target, listed, found, true),
            None,
        ),
{
    lemma_commit_begins(
        id, message, ownership, signed, target, listed, statuses, k, found, files, true,
    );
}

/// Nothing is committed without a target, or to a branch without a status.
pub proof fn nothing_is_committed_to_an_unknown_branch(
    id: BranchId,
    message: Seq<char>,
    ownership: Option<Seq<FileOwnershipModel>>,
    signed: bool,
    target: TargetModel,
    listed: Seq<ReplyModel>,
    statuses: Seq<BranchStatusModel>,
)
    requires
        forall|j: int| 0 <= j < statuses.len() ==> (#[trigger] statuses[j]).branch.id != id,
        forall|more: Seq<ReplyModel>| #[trigger]
            get_status_by_branch_flow(listed + more) == Flow::Done(statuses, more),
    ensures
        fails_with(
            |s: Seq<ReplyModel>| commit_flow(s, id, message, ownership, signed),
            seq![Step::Ask(RequestModel::StoredDefaultTarget, ReplyModel::MaybeTarget(None))],
            BranchErrorModel::NoDefaultTarget,
        ),
        fails_with(
            |s: Seq<ReplyModel>| commit_flow(s, id, message, ownership, signed),
            seq![
                Step::Ask(RequestModel::StoredDefaultTarget, ReplyModel::MaybeTarget(Some(target))),
                Step::Part(listed),
            ],
            BranchErrorModel::BranchNotFound(id),
        ),
{
    broadcast use lemma_told;

    lemma_no_status(statuses, id);
    reveal_with_fuel(after, 4);
    reveal_with_fuel(goes_through, 4);
}

} // verus!
