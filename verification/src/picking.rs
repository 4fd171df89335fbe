//! What is asked for, step by step, when a commit is picked onto a branch.

use crate::apply::{other_statuses, unapply_each_flow};
use crate::branch::{BranchModel, CommitModel, TargetModel};
use crate::commit::{branches_of, cherry_pick_flow, finish_pick_flow, pick_onto_flow};
use crate::committing::{is_status_of, lemma_status_of};
use crate::conflicts::paths_of;
use crate::dialogue::{after, comes_to, goes_through, lemma_goes_on, lemma_told, Step};
use crate::objects::{BranchId, Oid};
use crate::protocol::{
    BranchErrorModel, ConflictModel, Flow, MergeIndex, ReplyModel, RequestModel, Signatures,
};
use crate::session::applied_only;
use crate::status::{get_applied_status_flow, BranchStatusModel};
use crate::tree::write_tree_flow;
use vstd::prelude::*;

verus! {

/// Whether some branches are those with a status but for one, in their order.
pub open spec fn are_others(
    others: Seq<BranchModel>,
    statuses: Seq<BranchStatusModel>,
    id: BranchId,
) -> bool {
    let left = statuses.filter(|status: BranchStatusModel| status.branch.id != id);
    &&& others.len() == left.len()
    &&& forall|i: int| 0 <= i < left.len() ==> #[trigger] others[i] == left[i].branch
}

/// The steps with which a pick begins, up to the target.
pub open spec fn pick_begins(
    id: BranchId,
    oid: Oid,
    branch: BranchModel,
    picked: CommitModel,
    head: CommitModel,
    target: TargetModel,
) -> Seq<Step> {
    seq![
        Step::Ask(RequestModel::IsConflicting(None), ReplyModel::Flag(false)),
        Step::Ask(RequestModel::OpenSession, ReplyModel::Unit),
        Step::Ask(RequestModel::ReadBranch(id), ReplyModel::Branch(branch)),
        Step::Ask(RequestModel::FindCommit(oid), ReplyModel::Commit(picked)),
        Step::Ask(RequestModel::FindCommit(branch.head), ReplyModel::Commit(head)),
        Step::Ask(RequestModel::ReadDefaultTarget, ReplyModel::Target(target)),
    ]
}

/// The steps that try a pick out: what the branch holds is committed on top of its head, for the
/// moment, and the commit is picked onto that. Then the other branches are unapplied.
pub open spec fn pick_is_tried(
    branch: BranchModel,
    picked: CommitModel,
    branches: Seq<BranchModel>,
    statuses: Seq<ReplyModel>,
    written: Seq<ReplyModel>,
    tree: Oid,
    wip: Oid,
    wip_commit: CommitModel,
    index: MergeIndex,
    unapplied: Seq<ReplyModel>,
) -> Seq<Step> {
    seq![
        Step::Ask(RequestModel::ListBranches, ReplyModel::Branches(branches)),
        Step::Part(statuses),
        Step::Part(written),
        Step::Ask(RequestModel::FindTree(tree), ReplyModel::Unit),
        Step::Ask(
            RequestModel::CreateCommit {
                signatures: Signatures::Program,
                message: "wip cherry picking commit"@,
                tree,
                parents: seq![branch.head],
                signed: false,
            },
            ReplyModel::Oid(wip),
        ),
        Step::Ask(RequestModel::FindCommit(wip), ReplyModel::Commit(wip_commit)),
        Step::Ask(
            RequestModel::CherryPick { onto: wip, commit: picked.id },
            ReplyModel::Index(index),
        ),
        Step::Part(unapplied),
    ]
}

/// The steps that commit a pick: the commit has the author and the message of the picked one, the
/// tree of the pick, and the head of the branch as its only parent. The working directory gets the
/// tree, and the branch has the commit as its head.
pub open spec fn pick_is_committed(
    branch: BranchModel,
    picked: CommitModel,
    message: Seq<char>,
    head: CommitModel,
    index: MergeIndex,
    tree: Oid,
    commit: Oid,
) -> Seq<Step> {
    seq![
        Step::Ask(RequestModel::WriteIndex(index.handle), ReplyModel::Oid(tree)),
        Step::Ask(RequestModel::FindTree(tree), ReplyModel::Unit),
        Step::Ask(RequestModel::FindCommit(branch.head), ReplyModel::Commit(head)),
        Step::Ask(
            RequestModel::CreateCommit {
                signatures: Signatures::Of(picked.id),
                message,
                tree,
                parents: seq![branch.head],
                signed: false,
            },
            ReplyModel::Oid(commit),
        ),
        Step::Ask(RequestModel::CheckoutTree { tree, remove_untracked: true }, ReplyModel::Unit),
        Step::Ask(
            RequestModel::WriteBranch(BranchModel { head: commit, ..branch }),
            ReplyModel::Unit,
        ),
        Step::Ask(RequestModel::UpdateIntegration, ReplyModel::Unit),
    ]
}

/// The steps that check a pick with conflicts out: the files get conflict markers, and the paths
/// are noted, with the head of the branch as what they are in conflict with.
pub open spec fn pick_is_in_conflict(
    branch: BranchModel,
    index: MergeIndex,
    conflicts: Seq<ConflictModel>,
    paths: Seq<Seq<char>>,
) -> Seq<Step> {
    seq![
        Step::Ask(
            RequestModel::CheckoutIndex { index: index.handle, with_conflicts: true },
            ReplyModel::Unit,
        ),
        Step::Ask(RequestModel::IndexConflicts(index.handle), ReplyModel::Conflicts(conflicts)),
        Step::Ask(RequestModel::MarkConflicts { paths, parent: branch.head }, ReplyModel::Unit),
        Step::Ask(RequestModel::UpdateIntegration, ReplyModel::Unit),
    ]
}

proof fn lemma_pick_begins(
    id: BranchId,
    oid: Oid,
    branch: BranchModel,
    picked: CommitModel,
    head: CommitModel,
    target: TargetModel,
)
    requires
        branch.applied,
    ensures
        goes_through(
            |s: Seq<ReplyModel>| cherry_pick_flow(s, id, oid),
            pick_begins(id, oid, branch, picked, head, target),
        ),
        forall|s: Seq<ReplyModel>| #[trigger]
            cherry_pick_flow(after(pick_begins(id, oid, branch, picked, head, target), s), id, oid)
                == pick_onto_flow(s, branch, id, picked, target),
{
    broadcast use lemma_told;

    reveal_with_fuel(after, 8);
    reveal_with_fuel(goes_through, 8);
}

#[verifier::rlimit(60)]
proof fn lemma_pick_is_tried(
    id: BranchId,
    branch: BranchModel,
    picked: CommitModel,
    target: TargetModel,
    branches: Seq<BranchModel>,
    listed: Seq<ReplyModel>,
    statuses: Seq<BranchStatusModel>,
    k: int,
    written: Seq<ReplyModel>,
    tree: Oid,
    wip: Oid,
    wip_commit: CommitModel,
    index: MergeIndex,
    others: Seq<BranchModel>,
    unapplied: Seq<ReplyModel>,
)
    requires
        is_status_of(statuses, id, k),
        forall|more: Seq<ReplyModel>| #[trigger]
            get_applied_status_flow(listed + more, target, applied_only(branches)) == Flow::Done(
                statuses,
                more,
            ),
        forall|more: Seq<ReplyModel>| #[trigger]
            write_tree_flow(written + more, target, statuses[k].files) == Flow::Done(tree, more),
        are_others(others, statuses, branch.id),
        forall|more: Seq<ReplyModel>| #[trigger]
            unapply_each_flow(unapplied + more, others, 0) == Flow::Done((), more),
    ensures
        goes_through(
            |s: Seq<ReplyModel>| pick_onto_flow(s, branch, id, picked, target),
            pick_is_tried(
                branch, picked, branches, listed, written, tree, wip, wip_commit, index, unapplied,
            ),
        ),
        forall|s: Seq<ReplyModel>| #[trigger]
            pick_onto_flow(
                after(
                    pick_is_tried(
                        branch,
                        picked,
                        branches,
                        listed,
                        written,
                        tree,
                        wip,
                        wip_commit,
                        index,
                        unapplied,
                    ),
                    s,
                ),
                branch,
                id,
                picked,
                target,
            ) == finish_pick_flow(s, branch, picked, index),
{
    broadcast use lemma_told;

    lemma_status_of(statuses, id, k);
    assert(other_statuses(statuses, branch.id) == statuses.filter(
        |status: BranchStatusModel| status.branch.id != branch.id,
    ));
    assert(branches_of(other_statuses(statuses, branch.id)) =~= others);
    reveal_with_fuel(after, 9);
    reveal_with_fuel(goes_through, 9);
}

proof fn lemma_pick_is_finished(
    branch: BranchModel,
    picked: CommitModel,
    message: Seq<char>,
    head: CommitModel,
    index: MergeIndex,
    tree: Oid,
    commit: Oid,
    conflicts: Seq<ConflictModel>,
    paths: Seq<Seq<char>>,
)
    requires
        message == match picked.message {
            Some(message) => message,
            None => seq![],
        },
        index.conflicted ==> paths_of(conflicts) == Ok::<Seq<Seq<char>>, BranchErrorModel>(paths),
    ensures
        !index.conflicted ==> comes_to(
            |s: Seq<ReplyModel>| finish_pick_flow(s, branch, picked, index),
            pick_is_committed(branch, picked, message, head, index, tree, commit),
            Some(commit),
        ),
        index.conflicted ==> comes_to(
            |s: Seq<ReplyModel>| finish_pick_flow(s, branch, picked, index),
            pick_is_in_conflict(branch, index, conflicts, paths),
            None,
        ),
{
    broadcast use lemma_told;

    reveal_with_fuel(after, 8);
    reveal_with_fuel(goes_through, 8);
}

/// A commit that is picked onto an applied branch without conflicts becomes a new commit on top of
/// the branch: it has the author and the message of the picked one, the tree of the pick, and the
/// head of the branch as its only parent. The working directory gets the tree of the pick, and
/// nothing of the branch changes but the head. The other branches are unapplied before.
pub proof fn a_pick_follows_the_head(
    id: BranchId,
    oid: Oid,
    branch: BranchModel,
    picked: CommitModel,
    message: Seq<char>,
    head: CommitModel,
    target: TargetModel,
    branches: Seq<BranchModel>,
    listed: Seq<ReplyModel>,
    statuses: Seq<BranchStatusModel>,
    k: int,
    written: Seq<ReplyModel>,
    held: Oid,
    wip: Oid,
    wip_commit: CommitModel,
    index: MergeIndex,
    others: Seq<BranchModel>,
    unapplied: Seq<ReplyModel>,
    tree: Oid,
    commit: Oid,
)
    requires
        branch.applied,
        message == match picked.message {
            Some(message) => message,
            None => seq![],
        },
        is_status_of(statuses, id, k),
        forall|more: Seq<ReplyModel>| #[trigger]
            get_applied_status_flow(listed + more, target, applied_only(branches)) == Flow::Done(
                statuses,
                more,
            ),
        forall|more: Seq<ReplyModel>| #[trigger]
            write_tree_flow(written + more, target, statuses[k].files) == Flow::Done(held, more),
        are_others(others, statuses, branch.id),
        forall|more: Seq<ReplyModel>| #[trigger]
            unapply_each_flow(unapplied + more, others, 0) == Flow::Done((), more),
        !index.conflicted,
    ensures
        comes_to(
            |s: Seq<ReplyModel>| cherry_pick_flow(s, id, oid),
            pick_begins(id, oid, branch, picked, head, target) + (pick_is_tried(
                branch, picked, branches, listed, written, held, wip, wip_commit, index, unapplied,
            ) + pick_is_committed(branch, picked, message, head, index, tree, commit)),
            Some(commit),
        ),
{
    let tried = pick_is_tried(
        branch, picked, branches, listed, written, held, wip, wip_commit, index, unapplied,
    );
    let committed = pick_is_committed(branch, picked, message, head, index, tree, commit);
    lemma_pick_begins(id, oid, branch, picked, head, target);
    lemma_pick_is_tried(
        id, branch, picked, target, branches, listed, statuses, k, written, held, wip, wip_commit,
        index, others, unapplied,
    );
    lemma_pick_is_finished(branch, picked, message, head, index, tree, commit, seq![], seq![]);
    lemma_goes_on(
        |s: Seq<ReplyModel>| pick_onto_flow(s, branch, id, picked, target),
        |s: Seq<ReplyModel>| finish_pick_flow(s, branch, picked, index),
        tried,
        committed,
    );
    lemma_goes_on(
        |s: Seq<ReplyModel>| cherry_pick_flow(s, id, oid),
        |s: Seq<ReplyModel>| pick_onto_flow(s, branch, id, picked, target),
        pick_begins(id, oid, branch, picked, head, target),
        tried + committed,
    );
}

/// A pick with conflicts is checked out with conflict markers and not committed: the branch stays
/// as it is. The paths in conflict are noted, with the head of the branch.
pub proof fn a_pick_with_conflicts_is_checked_out(
    id: BranchId,
    oid: Oid,
    branch: BranchModel,
    picked: CommitModel,
    head: CommitModel,
    target: TargetModel,
    branches: Seq<BranchModel>,
    listed: Seq<ReplyModel>,
    statuses: Seq<BranchStatusModel>,
    k: int,
    written: Seq<ReplyModel>,
    held: Oid,
    wip: Oid,
    wip_commit: CommitModel,
    index: MergeIndex,
    others: Seq<BranchModel>,
    unapplied: Seq<ReplyModel>,
    conflicts: Seq<ConflictModel>,
    paths: Seq<Seq<char>>,
)
    requires
        branch.applied,
        is_status_of(statuses, id, k),
        forall|more: Seq<ReplyModel>| #[trigger]
            get_applied_status_flow(listed + more, target, applied_only(branches)) == Flow::Done(
                statuses,
                more,
            ),
        forall|more: Seq<ReplyModel>| #[trigger]
            write_tree_flow(written + more, target, statuses[k].files) == Flow::Done(held, more),
        are_others(others, statuses, branch.id),
        forall|more: Seq<ReplyModel>| #[trigger]
            unapply_each_flow(unapplied + more, others, 0) == Flow::Done((), more),
        index.conflicted,
        paths_of(conflicts) == Ok::<Seq<Seq<char>>, BranchErrorModel>(paths),
    ensures
        comes_to(
            |s: Seq<ReplyModel>| cherry_pick_flow(s, id, oid),
            pick_begins(id, oid, branch, picked, head, target) + (pick_is_tried(
                branch, picked, branches, listed, written, held, wip, wip_commit, index, unapplied,
            ) + pick_is_in_conflict(branch, index, conflicts, paths)),
            None,
        ),
{
    let tried = pick_is_tried(
        branch, picked, branches, listed, written, held, wip, wip_commit, index, unapplied,
    );
    let message = match picked.message {
        Some(message) => message,
        None => seq![],
    };
    lemma_pick_begins(id, oid, branch, picked, head, target);
    lemma_pick_is_tried(
        id, branch, picked, target, branches, listed, statuses, k, written, held, wip, wip_commit,
        index, others, unapplied,
    );
    lemma_pick_is_finished(branch, picked, message, head, index, held, held, conflicts, paths);
    lemma_goes_on(
        |s: Seq<ReplyModel>| pick_onto_flow(s, branch, id, picked, target),
        |s: Seq<ReplyModel>| finish_pick_flow(s, branch, picked, index),
        tried,
        pick_is_in_conflict(branch, index, conflicts, paths),
    );
    lemma_goes_on(
        |s: Seq<ReplyModel>| cherry_pick_flow(s, id, oid),
        |s: Seq<ReplyModel>| pick_onto_flow(s, branch, id, picked, target),
        pick_begins(id, oid, branch, picked, head, target),
        tried + pick_is_in_conflict(branch, index, conflicts, paths),
    );
}

} // verus!
