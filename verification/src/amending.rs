//! What is asked for, step by step, when a branch is amended or reset.

use crate::branch::{BranchModel, CommitModel, TargetModel};
use crate::commit::{amend_flow, amend_status_flow, reset_branch_flow, to_amend};
use crate::committing::{is_status_of, lemma_status_of};
use crate::dialogue::{after, comes_to, fails_with, goes_through, lemma_goes_on, lemma_told, Step};
use crate::diff::FileDiffModel;
use crate::objects::{BranchId, Oid};
use crate::ownership::{covers, FileOwnershipModel};
use crate::protocol::{BranchErrorModel, Flow, ReplyModel, RequestModel, Signatures};
use crate::session::applied_only;
use crate::status::{get_applied_status_flow, BranchStatusModel};
use crate::tree::write_tree_onto_commit_flow;
use crate::uncommitted::calculate_non_commited_diffs_flow;
use vstd::prelude::*;

verus! {

/// The steps with which amending begins, up to the status of the applied branches.
pub open spec fn amend_begins(
    target: TargetModel,
    branches: Seq<BranchModel>,
    statuses: Seq<ReplyModel>,
) -> Seq<Step> {
    seq![
        Step::Ask(RequestModel::IsConflicting(None), ReplyModel::Flag(false)),
        Step::Ask(RequestModel::OpenSession, ReplyModel::Unit),
        Step::Ask(RequestModel::ListBranches, ReplyModel::Branches(branches)),
        Step::Ask(RequestModel::ReadDefaultTarget, ReplyModel::Target(target)),
        Step::Part(statuses),
    ]
}

/// The steps that amend the head of a branch: the new commit has the author, the message and the
/// parents of the head, and takes its place.
pub open spec fn amend_steps(
    target: TargetModel,
    branch: BranchModel,
    commits: Seq<Oid>,
    found: Seq<ReplyModel>,
    head: CommitModel,
    message: Seq<char>,
    written: Seq<ReplyModel>,
    tree: Oid,
    signed: bool,
    commit: Oid,
) -> Seq<Step> {
    seq![
        Step::Ask(
            RequestModel::LogIds { from: branch.head, until: target.sha },
            ReplyModel::Oids(commits),
        ),
        Step::Part(found),
        Step::Ask(RequestModel::FindCommit(branch.head), ReplyModel::Commit(head)),
        Step::Part(written),
        Step::Ask(RequestModel::FindTree(tree), ReplyModel::Unit),
        Step::Ask(
            RequestModel::CreateCommit {
                signatures: Signatures::Of(head.id),
                message,
                tree,
                parents: head.parents,
                signed,
            },
            ReplyModel::Oid(commit),
        ),
        Step::Ask(
            RequestModel::WriteBranch(BranchModel { head: commit, ..branch }),
            ReplyModel::Unit,
        ),
        Step::Ask(RequestModel::UpdateIntegration, ReplyModel::Unit),
    ]
}

proof fn lemma_amend_begins(
    id: BranchId,
    ownership: Seq<FileOwnershipModel>,
    signed: bool,
    target: TargetModel,
    branches: Seq<BranchModel>,
    listed: Seq<ReplyModel>,
    statuses: Seq<BranchStatusModel>,
    k: int,
)
    requires
        exists|i: int|
            0 <= i < branches.len() && (#[trigger] branches[i]).id == id && branches[i].applied,
        is_status_of(statuses, id, k),
        forall|more: Seq<ReplyModel>| #[trigger]
            get_applied_status_flow(listed + more, target, applied_only(branches)) == Flow::Done(
                statuses,
                more,
            ),
    ensures
        goes_through(
            |s: Seq<ReplyModel>| amend_flow(s, id, ownership, signed),
            amend_begins(target, branches, listed),
        ),
        forall|s: Seq<ReplyModel>| #[trigger]
            amend_flow(after(amend_begins(target, branches, listed), s), id, ownership, signed)
                == amend_status_flow(s, target, statuses[k], ownership, signed),
{
    broadcast use lemma_told;

    let i = choose|i: int|
        0 <= i < branches.len() && (#[trigger] branches[i]).id == id && branches[i].applied;
    branches.lemma_filter_contains(|b: BranchModel| b.applied, i);
    let applied = applied_only(branches);
    let j = choose|j: int| 0 <= j < applied.len() && applied[j] == branches[i];
    assert(applied[j].id == id);
    lemma_status_of(statuses, id, k);
    reveal_with_fuel(after, 7);
    reveal_with_fuel(goes_through, 7);
}

#[verifier::rlimit(60)]
proof fn lemma_amend_steps(
    target: TargetModel,
    status: BranchStatusModel,
    ownership: Seq<FileOwnershipModel>,
    commits: Seq<Oid>,
    found: Seq<ReplyModel>,
    files: Seq<FileDiffModel>,
    head: CommitModel,
    message: Seq<char>,
    written: Seq<ReplyModel>,
    tree: Oid,
    signed: bool,
    commit: Oid,
)
    requires
        covers(status.branch.ownership, ownership),
        commits.len() > 0,
        forall|more: Seq<ReplyModel>| #[trigger]
            calculate_non_commited_diffs_flow(found + more, status.branch, target, status.files)
                == Flow::Done(files, more),
        forall|more: Seq<ReplyModel>| #[trigger]
            write_tree_onto_commit_flow(
                written + more,
                status.branch.head,
                to_amend(files, ownership),
            ) == Flow::Done(tree, more),
        message == match head.message {
            Some(message) => message,
            None => seq![],
        },
    ensures
        comes_to(
            |s: Seq<ReplyModel>| amend_status_flow(s, target, status, ownership, signed),
            amend_steps(
                target, status.branch, commits, found, head, message, written, tree, signed, commit,
            ),
            commit,
        ),
{
    broadcast use lemma_told;

    reveal_with_fuel(after, 9);
    reveal_with_fuel(goes_through, 9);
}

/// Amending a branch that owns what is asked for and has a commit of its own puts a new commit in
/// the place of its head: it has the author, the message and the parents of the head, and the tree
/// that the hunks which are asked for make of the head. Nothing of the branch changes but the head.
pub proof fn an_amended_commit_takes_the_place_of_the_head(
    id: BranchId,
    ownership: Seq<FileOwnershipModel>,
    signed: bool,
    target: TargetModel,
    branches: Seq<BranchModel>,
    listed: Seq<ReplyModel>,
    statuses: Seq<BranchStatusModel>,
    k: int,
    commits: Seq<Oid>,
    found: Seq<ReplyModel>,
    files: Seq<FileDiffModel>,
    head: CommitModel,
    message: Seq<char>,
    written: Seq<ReplyModel>,
    tree: Oid,
    commit: Oid,
)
    requires
        exists|i: int|
            0 <= i < branches.len() && (#[trigger] branches[i]).id == id && branches[i].applied,
        is_status_of(statuses, id, k),
        forall|more: Seq<ReplyModel>| #[trigger]
            get_applied_status_flow(listed + more, target, applied_only(branches)) == Flow::Done(
                statuses,
                more,
            ),
        covers(statuses[k].branch.ownership, ownership),
        commits.len() > 0,
        forall|more: Seq<ReplyModel>| #[trigger]
            calculate_non_commited_diffs_flow(
                found + more,
                statuses[k].branch,
                target,
                statuses[k].files,
            ) == Flow::Done(files, more),
        forall|more: Seq<ReplyModel>| #[trigger]
            write_tree_onto_commit_flow(
                written + more,
                statuses[k].branch.head,
                to_amend(files, ownership),
            ) == Flow::Done(tree, more),
        message == match head.message {
            Some(message) => message,
            None => seq![],
        },
    ensures
        comes_to(
            |s: Seq<ReplyModel>| amend_flow(s, id, ownership, signed),
            amend_begins(target, branches, listed) + amend_steps(
                target, statuses[k].branch, commits, found, head, message, written, tree, signed,
                commit,
            ),
            commit,
        ),
{
    lemma_amend_begins(id, ownership, signed, target, branches, listed, statuses, k);
    lemma_amend_steps(
        target, statuses[k], ownership, commits, found, files, head, message, written, tree, signed,
        commit,
    );
    lemma_goes_on(
        |s: Seq<ReplyModel>| amend_flow(s, id, ownership, signed),
        |s: Seq<ReplyModel>| amend_status_flow(s, target, statuses[k], ownership, signed),
        amend_begins(target, branches, listed),
        amend_steps(
            target, statuses[k].branch, commits, found, head, message, written, tree, signed,
            commit,
        ),
    );
}

/// A branch that does not own what is asked for is not amended, nor is one without a commit of its
/// own: nothing is changed then.
pub proof fn what_is_not_owned_is_not_amended(
    id: BranchId,
    ownership: Seq<FileOwnershipModel>,
    signed: bool,
    target: TargetModel,
    branches: Seq<BranchModel>,
    listed: Seq<ReplyModel>,
    statuses: Seq<BranchStatusModel>,
    k: int,
)
    requires
        exists|i: int|
            0 <= i < branches.len() && (#[trigger] branches[i]).id == id && branches[i].applied,
        is_status_of(statuses, id, k),
        forall|more: Seq<ReplyModel>| #[trigger]
            get_applied_status_flow(listed + more, target, applied_only(branches)) == Flow::Done(
                statuses,
                more,
            ),
    ensures
        !covers(statuses[k].branch.ownership, ownership) ==> fails_with(
            |s: Seq<ReplyModel>| amend_flow(s, id, ownership, signed),
            amend_begins(target, branches, listed),
            BranchErrorModel::OwnershipNotFound,
        ),
        covers(statuses[k].branch.ownership, ownership) ==> fails_with(
            |s: Seq<ReplyModel>| amend_flow(s, id, ownership, signed),
            amend_begins(target, branches, listed) + seq![
                Step::Ask(
                    RequestModel::LogIds { from: statuses[k].branch.head, until: target.sha },
                    ReplyModel::Oids(seq![]),
                ),
            ],
            BranchErrorModel::NoCommits,
        ),
{
    broadcast use lemma_told;

    let last = seq![
        Step::Ask(
            RequestModel::LogIds { from: statuses[k].branch.head, until: target.sha },
            ReplyModel::Oids(seq![]),
        ),
    ];
    lemma_amend_begins(id, ownership, signed, target, branches, listed, statuses, k);
    reveal_with_fuel(after, 3);
    reveal_with_fuel(goes_through, 3);
    if covers(statuses[k].branch.ownership, ownership) {
        lemma_goes_on(
            |s: Seq<ReplyModel>| amend_flow(s, id, ownership, signed),
            |s: Seq<ReplyModel>| amend_status_flow(s, target, statuses[k], ownership, signed),
            amend_begins(target, branches, listed),
            last,
        );
    }
}

/// A branch that is not there is not amended, nor is one that is not applied.
pub proof fn only_an_applied_branch_is_amended(
    id: BranchId,
    ownership: Seq<FileOwnershipModel>,
    signed: bool,
    branches: Seq<BranchModel>,
)
    requires
        forall|i: int|
            0 <= i < branches.len() && (#[trigger] branches[i]).id == id ==> !branches[i].applied,
    ensures
        fails_with(
            |s: Seq<ReplyModel>| amend_flow(s, id, ownership, signed),
            seq![
                Step::Ask(RequestModel::IsConflicting(None), ReplyModel::Flag(false)),
                Step::Ask(RequestModel::OpenSession, ReplyModel::Unit),
                Step::Ask(RequestModel::ListBranches, ReplyModel::Branches(branches)),
            ],
            if exists|i: int| 0 <= i < branches.len() && (#[trigger] branches[i]).id == id {
                BranchErrorModel::NotApplied
            } else {
                BranchErrorModel::BranchNotFound(id)
            },
        ),
{
    broadcast use lemma_told;
    broadcast use vstd::seq_lib::group_filter_ensures;

    let applied = applied_only(branches);
    assert forall|j: int| 0 <= j < applied.len() implies (#[trigger] applied[j]).id != id by {
        assert(applied.contains(applied[j]));
        branches.lemma_filter_contains_rev(|b: BranchModel| b.applied, applied[j]);
        let i = choose|i: int| 0 <= i < branches.len() && branches[i] == applied[j];
        assert(branches[i].applied);
    }
    reveal_with_fuel(after, 5);
    reveal_with_fuel(goes_through, 5);
}

/// A branch that is reset to another commit is stored with that commit as its head and nothing else
/// changed. The commit has to be the target or one of those of the branch, between its head and the
/// target; of any other nothing is stored.
pub proof fn a_reset_moves_the_head(
    id: BranchId,
    oid: Oid,
    target: TargetModel,
    branch: BranchModel,
    commits: Seq<Oid>,
)
    requires
        branch.head != oid,
    ensures
        target.sha == oid ==> comes_to(
            |s: Seq<ReplyModel>| reset_branch_flow(s, id, oid),
            seq![
                Step::Ask(RequestModel::OpenSession, ReplyModel::Unit),
                Step::Ask(RequestModel::ReadDefaultTarget, ReplyModel::Target(target)),
                Step::Ask(RequestModel::ReadBranch(id), ReplyModel::Branch(branch)),
                Step::Ask(
                    RequestModel::WriteBranch(BranchModel { head: oid, ..branch }),
                    ReplyModel::Unit,
                ),
                Step::Ask(RequestModel::UpdateIntegration, ReplyModel::Unit),
            ],
            (),
        ),
        target.sha != oid && commits.contains(oid) ==> comes_to(
            |s: Seq<ReplyModel>| reset_branch_flow(s, id, oid),
            seq![
                Step::Ask(RequestModel::OpenSession, ReplyModel::Unit),
                Step::Ask(RequestModel::ReadDefaultTarget, ReplyModel::Target(target)),
                Step::Ask(RequestModel::ReadBranch(id), ReplyModel::Branch(branch)),
                Step::Ask(
                    RequestModel::LogIds { from: branch.head, until: target.sha },
                    ReplyModel::Oids(commits),
                ),
                Step::Ask(
                    RequestModel::WriteBranch(BranchModel { head: oid, ..branch }),
                    ReplyModel::Unit,
                ),
                Step::Ask(RequestModel::UpdateIntegration, ReplyModel::Unit),
            ],
            (),
        ),
        target.sha != oid && !commits.contains(oid) ==> fails_with(
            |s: Seq<ReplyModel>| reset_branch_flow(s, id, oid),
            seq![
                Step::Ask(RequestModel::OpenSession, ReplyModel::Unit),
                Step::Ask(RequestModel::ReadDefaultTarget, ReplyModel::Target(target)),
                Step::Ask(RequestModel::ReadBranch(id), ReplyModel::Branch(branch)),
                Step::Ask(
                    RequestModel::LogIds { from: branch.head, until: target.sha },
                    ReplyModel::Oids(commits),
                ),
            ],
            BranchErrorModel::CommitNotInBranch { commit: oid, branch: branch.name },
        ),
{
    broadcast use lemma_told;

    reveal_with_fuel(after, 7);
    reveal_with_fuel(goes_through, 7);
}

} // verus!
