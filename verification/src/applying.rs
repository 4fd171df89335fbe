//! What is asked for, step by step, when branches are applied and unapplied.

use crate::apply::{apply_branch_flow, bring_in_flow, catch_up_flow, unapply_all_branches_flow};
use crate::branch::{BranchModel, CommitModel, TargetModel};
use crate::conflicts::paths_of;
use crate::dialogue::{
    after, comes_to, fails_with, goes_through, lemma_goes_on, lemma_goes_through_first, lemma_told,
    Step,
};
use crate::objects::{BranchId, Oid};
use crate::protocol::{
    BranchErrorModel, ConflictModel, Flow, MergeIndex, ReplyModel, RequestModel, Signatures,
};
use vstd::prelude::*;

verus! {

/// The steps with which applying a branch begins, up to what it has in common with the target.
pub open spec fn apply_begins(
    id: BranchId,
    branch: BranchModel,
    target: TargetModel,
    commit: CommitModel,
    base: Oid,
) -> Seq<Step> {
    seq![
        Step::Ask(RequestModel::IsResolving, ReplyModel::Flag(false)),
        Step::Ask(RequestModel::OpenSession, ReplyModel::Unit),
        Step::Ask(RequestModel::ReadDefaultTarget, ReplyModel::Target(target)),
        Step::Ask(RequestModel::ReadBranch(id), ReplyModel::Branch(branch)),
        Step::Ask(RequestModel::FindCommit(target.sha), ReplyModel::Commit(commit)),
        Step::Ask(RequestModel::FindTree(branch.tree), ReplyModel::Unit),
        Step::Ask(RequestModel::MergeBase(target.sha, branch.head), ReplyModel::Oid(base)),
    ]
}

/// The step that merges a branch into the working directory, on the base of the target.
pub open spec fn merge_into_workdir(
    branch: BranchModel,
    commit: CommitModel,
    workdir: Oid,
    index: MergeIndex,
) -> Seq<Step> {
    seq![
        Step::Ask(RequestModel::WorkdirTree, ReplyModel::Oid(workdir)),
        Step::Ask(
            RequestModel::MergeTrees { base: commit.tree, ours: workdir, theirs: branch.tree },
            ReplyModel::Index(index),
        ),
    ]
}

/// The steps that check out a merge without conflicts, once the branch is stored as applied.
pub open spec fn check_out_merge(branch: BranchModel, index: MergeIndex) -> Seq<Step> {
    seq![
        Step::Ask(
            RequestModel::WriteBranch(BranchModel { applied: true, ..branch }),
            ReplyModel::Unit,
        ),
        Step::Ask(
            RequestModel::CheckoutIndex { index: index.handle, with_conflicts: false },
            ReplyModel::Unit,
        ),
        Step::Ask(RequestModel::UpdateIntegration, ReplyModel::Unit),
    ]
}

/// The steps that merge the target into a branch that is behind it, on the base of what they have
/// in common.
pub open spec fn merge_with_target(
    branch: BranchModel,
    commit: CommitModel,
    base: Oid,
    base_commit: CommitModel,
    index: MergeIndex,
) -> Seq<Step> {
    seq![
        Step::Ask(RequestModel::FindCommit(base), ReplyModel::Commit(base_commit)),
        Step::Ask(
            RequestModel::MergeTrees {
                base: base_commit.tree,
                ours: branch.tree,
                theirs: commit.tree,
            },
            ReplyModel::Index(index),
        ),
    ]
}

/// The steps that commit a merge with the target: its parents are the head of the branch and the
/// target, and the branch is stored with it.
pub open spec fn commit_merge_with_target(
    branch: BranchModel,
    target: TargetModel,
    head: CommitModel,
    index: MergeIndex,
    tree: Oid,
    signed: bool,
    merge: Oid,
) -> Seq<Step> {
    seq![
        Step::Ask(RequestModel::FindCommit(branch.head), ReplyModel::Commit(head)),
        Step::Ask(RequestModel::WriteIndex(index.handle), ReplyModel::Oid(tree)),
        Step::Ask(RequestModel::FindTree(tree), ReplyModel::Unit),
        Step::Ask(
            RequestModel::CreateCommit {
                signatures: Signatures::User,
                message: "merge upstream"@,
                tree,
                parents: seq![branch.head, target.sha],
                signed,
            },
            ReplyModel::Oid(merge),
        ),
        Step::Ask(
            RequestModel::WriteBranch(BranchModel { head: merge, tree, ..branch }),
            ReplyModel::Unit,
        ),
    ]
}

/// The steps that check a merge with conflicts out, once the other branches are unapplied and the
/// branch is stored as applied. The paths in conflict are noted, with the target as what is merged.
pub open spec fn check_out_conflicts_with_target(
    branch: BranchModel,
    target: TargetModel,
    unapplied: Seq<ReplyModel>,
    index: MergeIndex,
    conflicts: Seq<ConflictModel>,
    paths: Seq<Seq<char>>,
) -> Seq<Step> {
    seq![
        Step::Part(unapplied),
        Step::Ask(
            RequestModel::WriteBranch(BranchModel { applied: true, ..branch }),
            ReplyModel::Unit,
        ),
        Step::Ask(
            RequestModel::CheckoutIndex { index: index.handle, with_conflicts: true },
            ReplyModel::Unit,
        ),
        Step::Ask(RequestModel::IndexConflicts(index.handle), ReplyModel::Conflicts(conflicts)),
        Step::Ask(RequestModel::MarkConflicts { paths, parent: target.sha }, ReplyModel::Unit),
    ]
}

proof fn lemma_apply_begins(
    id: BranchId,
    signed: bool,
    branch: BranchModel,
    target: TargetModel,
    commit: CommitModel,
    base: Oid,
)
    ensures
        goes_through(
            |s: Seq<ReplyModel>| apply_branch_flow(s, id, signed),
            apply_begins(id, branch, target, commit, base),
        ),
        forall|s: Seq<ReplyModel>| #[trigger]
            apply_branch_flow(after(apply_begins(id, branch, target, commit, base), s), id, signed)
                == (if base == target.sha {
                Flow::Done(Some(branch), s)
            } else {
                catch_up_flow(s, branch, target, commit.tree, base, signed)
            }).and_then(
                |branch: Option<BranchModel>, s: Seq<ReplyModel>|
                    match branch {
                        None => Flow::Done((), s),
                        Some(branch) => bring_in_flow(s, branch, commit.tree),
                    },
            ),
{
    broadcast use lemma_told;

    reveal_with_fuel(after, 8);
    reveal_with_fuel(goes_through, 8);
}

proof fn lemma_bring_in(
    branch: BranchModel,
    commit: CommitModel,
    workdir: Oid,
    index: MergeIndex,
)
    ensures
        !index.conflicted ==> comes_to(
            |s: Seq<ReplyModel>| bring_in_flow(s, branch, commit.tree),
            merge_into_workdir(branch, commit, workdir, index) + check_out_merge(branch, index),
            (),
        ),
        index.conflicted ==> fails_with(
            |s: Seq<ReplyModel>| bring_in_flow(s, branch, commit.tree),
            merge_into_workdir(branch, commit, workdir, index),
            BranchErrorModel::ConflictsWithApplied,
        ),
{
    broadcast use lemma_told;

    reveal_with_fuel(after, 6);
    reveal_with_fuel(goes_through, 6);
}

proof fn lemma_catch_up(
    branch: BranchModel,
    target: TargetModel,
    commit: CommitModel,
    base: Oid,
    base_commit: CommitModel,
    signed: bool,
    index: MergeIndex,
    head: CommitModel,
    tree: Oid,
    merge: Oid,
)
    requires
        !index.conflicted,
    ensures
        comes_to(
            |s: Seq<ReplyModel>| catch_up_flow(s, branch, target, commit.tree, base, signed),
            merge_with_target(branch, commit, base, base_commit, index) + commit_merge_with_target(
                branch, target, head, index, tree, signed, merge,
            ),
            Some(BranchModel { head: merge, tree, ..branch }),
        ),
{
    broadcast use lemma_told;

    reveal_with_fuel(after, 8);
    reveal_with_fuel(goes_through, 8);
}

proof fn lemma_conflicts_with_target(
    branch: BranchModel,
    target: TargetModel,
    commit: CommitModel,
    base: Oid,
    base_commit: CommitModel,
    signed: bool,
    index: MergeIndex,
    unapplied: Seq<ReplyModel>,
    conflicts: Seq<ConflictModel>,
    paths: Seq<Seq<char>>,
)
    requires
        index.conflicted,
        forall|more: Seq<ReplyModel>| #[trigger]
            unapply_all_branches_flow(unapplied + more) == Flow::Done((), more),
        paths_of(conflicts) == Ok::<Seq<Seq<char>>, BranchErrorModel>(paths),
    ensures
        comes_to(
            |s: Seq<ReplyModel>| catch_up_flow(s, branch, target, commit.tree, base, signed),
            merge_with_target(branch, commit, base, base_commit, index)
                + check_out_conflicts_with_target(
                branch, target, unapplied, index, conflicts, paths,
            ),
            None,
        ),
{
    broadcast use lemma_told;

    reveal_with_fuel(after, 8);
    reveal_with_fuel(goes_through, 8);
}

/// A branch that is up to date with the target, and merges with the working directory, is applied:
/// its tree is merged into that of the working directory, on the base of the target. The branch is
/// stored with nothing changed but that it is applied, and the merge is checked out.
pub proof fn an_up_to_date_branch_is_merged_into_the_workdir(
    id: BranchId,
    signed: bool,
    branch: BranchModel,
    target: TargetModel,
    commit: CommitModel,
    workdir: Oid,
    index: MergeIndex,
)
    ensures
        !index.conflicted ==> comes_to(
            |s: Seq<ReplyModel>| apply_branch_flow(s, id, signed),
            apply_begins(id, branch, target, commit, target.sha) + (merge_into_workdir(
                branch, commit, workdir, index,
            ) + check_out_merge(branch, index)),
            (),
        ),
        index.conflicted ==> fails_with(
            |s: Seq<ReplyModel>| apply_branch_flow(s, id, signed),
            apply_begins(id, branch, target, commit, target.sha) + merge_into_workdir(
                branch, commit, workdir, index,
            ),
            BranchErrorModel::ConflictsWithApplied,
        ),
{
    lemma_apply_begins(id, signed, branch, target, commit, target.sha);
    lemma_bring_in(branch, commit, workdir, index);
    let steps = merge_into_workdir(branch, commit, workdir, index);
    lemma_goes_on(
        |s: Seq<ReplyModel>| apply_branch_flow(s, id, signed),
        |s: Seq<ReplyModel>| bring_in_flow(s, branch, commit.tree),
        apply_begins(id, branch, target, commit, target.sha),
        if index.conflicted {
            steps
        } else {
            steps + check_out_merge(branch, index)
        },
    );
}

proof fn lemma_merged_branch_is_brought_in(
    branch: BranchModel,
    target: TargetModel,
    commit: CommitModel,
    base: Oid,
    signed: bool,
    steps: Seq<Step>,
    merged: BranchModel,
    workdir: Oid,
    index: MergeIndex,
)
    requires
        comes_to(
            |s: Seq<ReplyModel>| catch_up_flow(s, branch, target, commit.tree, base, signed),
            steps,
            Some(merged),
        ),
    ensures
        !index.conflicted ==> comes_to(
            |s: Seq<ReplyModel>|
                catch_up_flow(s, branch, target, commit.tree, base, signed).and_then(
                    |branch: Option<BranchModel>, s: Seq<ReplyModel>|
                        match branch {
                            None => Flow::Done((), s),
                            Some(branch) => bring_in_flow(s, branch, commit.tree),
                        },
                ),
            steps + (merge_into_workdir(merged, commit, workdir, index) + check_out_merge(
                merged, index,
            )),
            (),
        ),
{
    let catch_up = |s: Seq<ReplyModel>| catch_up_flow(s, branch, target, commit.tree, base, signed);
    let whole = |s: Seq<ReplyModel>|
        catch_up_flow(s, branch, target, commit.tree, base, signed).and_then(
            |branch: Option<BranchModel>, s: Seq<ReplyModel>|
                match branch {
                    None => Flow::Done((), s),
                    Some(branch) => bring_in_flow(s, branch, commit.tree),
                },
        );
    lemma_goes_through_first(catch_up, whole, steps);
    assert forall|s: Seq<ReplyModel>| #[trigger]
        whole(after(steps, s)) == bring_in_flow(s, merged, commit.tree) by {
        assert(catch_up(after(steps, s)) == Flow::Done(Some(merged), s));
    }
    lemma_bring_in(merged, commit, workdir, index);
    if !index.conflicted {
        lemma_goes_on(
            whole,
            |s: Seq<ReplyModel>| bring_in_flow(s, merged, commit.tree),
            steps,
            merge_into_workdir(merged, commit, workdir, index) + check_out_merge(merged, index),
        );
    }
}

/// A branch that is behind the target gets the target merged first: the tree of the branch and that
/// of the target are merged on the base of the tree of what they have in common. The merge has the
/// head of the branch and the target for parents, and the branch is stored with it as its head and
/// with its tree. That is merged into the working directory then.
pub proof fn a_branch_that_is_behind_is_merged_with_the_target(
    id: BranchId,
    signed: bool,
    branch: BranchModel,
    target: TargetModel,
    commit: CommitModel,
    base: Oid,
    base_commit: CommitModel,
    with_target: MergeIndex,
    head: CommitModel,
    tree: Oid,
    merge: Oid,
    workdir: Oid,
    index: MergeIndex,
)
    requires
        base != target.sha,
        !with_target.conflicted,
        !index.conflicted,
    ensures
        ({
            let merged = BranchModel { head: merge, tree, ..branch };
            comes_to(
                |s: Seq<ReplyModel>| apply_branch_flow(s, id, signed),
                apply_begins(id, branch, target, commit, base) + ((merge_with_target(
                    branch, commit, base, base_commit, with_target,
                ) + commit_merge_with_target(
                    branch, target, head, with_target, tree, signed, merge,
                )) + (merge_into_workdir(merged, commit, workdir, index) + check_out_merge(
                    merged, index,
                ))),
                (),
            )
        }),
{
    let merged = BranchModel { head: merge, tree, ..branch };
    let steps = merge_with_target(branch, commit, base, base_commit, with_target)
        + commit_merge_with_target(branch, target, head, with_target, tree, signed, merge);
    lemma_apply_begins(id, signed, branch, target, commit, base);
    lemma_catch_up(
        branch, target, commit, base, base_commit, signed, with_target, head, tree, merge,
    );
    lemma_merged_branch_is_brought_in(
        branch, target, commit, base, signed, steps, merged, workdir, index,
    );
    lemma_goes_on(
        |s: Seq<ReplyModel>| apply_branch_flow(s, id, signed),
        |s: Seq<ReplyModel>|
            catch_up_flow(s, branch, target, commit.tree, base, signed).and_then(
                |branch: Option<BranchModel>, s: Seq<ReplyModel>|
                    match branch {
                        None => Flow::Done((), s),
                        Some(branch) => bring_in_flow(s, branch, commit.tree),
                    },
            ),
        apply_begins(id, branch, target, commit, base),
        steps + (merge_into_workdir(merged, commit, workdir, index) + check_out_merge(
            merged, index,
        )),
    );
}

/// A branch that is behind the target and in conflict with it is checked out with the conflicts,
/// once all branches are unapplied. It is stored with nothing changed but that it is applied, and
/// the paths in conflict are noted, with the target as what is being merged.
pub proof fn conflicts_with_the_target_are_checked_out(
    id: BranchId,
    signed: bool,
    branch: BranchModel,
    target: TargetModel,
    commit: CommitModel,
    base: Oid,
    base_commit: CommitModel,
    index: MergeIndex,
    unapplied: Seq<ReplyModel>,
    conflicts: Seq<ConflictModel>,
    paths: Seq<Seq<char>>,
)
    requires
        base != target.sha,
        index.conflicted,
        forall|more: Seq<ReplyModel>| #[trigger]
            unapply_all_branches_flow(unapplied + more) == Flow::Done((), more),
        paths_of(conflicts) == Ok::<Seq<Seq<char>>, BranchErrorModel>(paths),
    ensures
        comes_to(
            |s: Seq<ReplyModel>| apply_branch_flow(s, id, signed),
            apply_begins(id, branch, target, commit, base) + (merge_with_target(
                branch, commit, base, base_commit, index,
            ) + check_out_conflicts_with_target(
                branch, target, unapplied, index, conflicts, paths,
            )),
            (),
        ),
{
    let steps = merge_with_target(branch, commit, base, base_commit, index)
        + check_out_conflicts_with_target(branch, target, unapplied, index, conflicts, paths);
    let catch_up = |s: Seq<ReplyModel>| catch_up_flow(s, branch, target, commit.tree, base, signed);
    let whole = |s: Seq<ReplyModel>|
        catch_up_flow(s, branch, target, commit.tree, base, signed).and_then(
            |branch: Option<BranchModel>, s: Seq<ReplyModel>|
                match branch {
                    None => Flow::Done((), s),
                    Some(branch) => bring_in_flow(s, branch, commit.tree),
                },
        );
    lemma_apply_begins(id, signed, branch, target, commit, base);
    lemma_conflicts_with_target(
        branch, target, commit, base, base_commit, signed, index, unapplied, conflicts, paths,
    );
    lemma_goes_through_first(catch_up, whole, steps);
    assert forall|s: Seq<ReplyModel>| #[trigger] whole(after(steps, s)) == Flow::Done((), s) by {
        assert(catch_up(after(steps, s)) == Flow::Done(None::<BranchModel>, s));
    }
    lemma_goes_on(
        |s: Seq<ReplyModel>| apply_branch_flow(s, id, signed),
        whole,
        apply_begins(id, branch, target, commit, base),
        steps,
    );
}

} // verus!
