//! What is asked for, step by step, when branches are unapplied, and when what they hold is kept.

use crate::apply::{
    check_out_statuses_flow, flush_applied_vbranches_flow, flush_each_flow, merge_statuses_flow,
    other_statuses, strip_each_flow, unapply_all_branches_flow, unapply_branch_flow,
    unapply_each_flow, unapply_ownership_flow,
};
use crate::branch::{BranchModel, CommitModel, TargetModel};
use crate::committing::{is_status_of, lemma_no_status, lemma_status_of};
use crate::dialogue::{
    after, comes_to, goes_through, lemma_goes_on, lemma_goes_through_first, lemma_told, Step,
};
use crate::diff::FileDiffModel;
use crate::objects::{BranchId, Oid};
use crate::ownership::FileOwnershipModel;
use crate::protocol::{ask_unit, Flow, MergeIndex, ReplyModel, RequestModel};
use crate::session::applied_only;
use crate::status::{get_applied_status_flow, BranchStatusModel};
use crate::tree::write_tree_flow;
use vstd::prelude::*;

verus! {

/// What is said when the hunks of a branch are merged into a tree.
pub struct MergedIn {
    /// The replies to writing the hunks out on top of the target.
    pub written: Seq<ReplyModel>,
    /// The tree that the hunks make.
    pub tree: Oid,
    /// The merge of that tree.
    pub index: MergeIndex,
    /// The tree of the merge.
    pub merged: Oid,
}

/// Whether some replies to writing hunks out give a tree.
pub open spec fn gives_tree(
    written: Seq<ReplyModel>,
    target: TargetModel,
    files: Seq<FileDiffModel>,
    tree: Oid,
) -> bool {
    forall|more: Seq<ReplyModel>| #[trigger]
        write_tree_flow(written + more, target, files) == Flow::Done(tree, more)
}

/// The steps that merge the hunks of a branch into a tree, on the base of the target.
pub open spec fn merge_in_steps(base: Oid, ours: Oid, said: MergedIn) -> Seq<Step> {
    seq![
        Step::Part(said.written),
        Step::Ask(RequestModel::FindTree(said.tree), ReplyModel::Unit),
        Step::Ask(
            RequestModel::MergeTrees { base, ours, theirs: said.tree },
            ReplyModel::Index(said.index),
        ),
        Step::Ask(RequestModel::WriteIndex(said.index.handle), ReplyModel::Oid(said.merged)),
        Step::Ask(RequestModel::FindTree(said.merged), ReplyModel::Unit),
    ]
}

/// The steps that merge the hunks of the branches from the given one on into a tree, each into the
/// outcome of the one before.
pub open spec fn merges_from(base: Oid, ours: Oid, said: Seq<MergedIn>, i: int) -> Seq<Step>
    decreases said.len() - i,
{
    if i < 0 || i >= said.len() {
        seq![]
    } else {
        merge_in_steps(base, ours, said[i]) + merges_from(base, said[i].merged, said, i + 1)
    }
}

/// The tree that all merges come to.
pub open spec fn all_merged(ours: Oid, said: Seq<MergedIn>) -> Oid {
    if said.len() == 0 {
        ours
    } else {
        said.last().merged
    }
}

/// Whether what is said of each branch is about the tree that its hunks make of the target.
pub open spec fn is_said_of(
    said: Seq<MergedIn>,
    target: TargetModel,
    statuses: Seq<BranchStatusModel>,
) -> bool {
    &&& said.len() == statuses.len()
    &&& forall|i: int|
        0 <= i < said.len() ==> gives_tree(
            (#[trigger] said[i]).written,
            target,
            statuses[i].files,
            said[i].tree,
        )
}

/// The steps that bring the working directory to the target and what some branches hold.
pub open spec fn check_out_steps(
    target: TargetModel,
    commit: CommitModel,
    said: Seq<MergedIn>,
) -> Seq<Step> {
    seq![Step::Ask(RequestModel::FindCommit(target.sha), ReplyModel::Commit(commit))] + (merges_from(
        commit.tree,
        commit.tree,
        said,
        0,
    ) + seq![
        Step::Ask(
            RequestModel::CheckoutTree {
                tree: all_merged(commit.tree, said),
                remove_untracked: true,
            },
            ReplyModel::Unit,
        ),
        Step::Ask(RequestModel::UpdateIntegration, ReplyModel::Unit),
    ])
}

proof fn lemma_merge_in(
    target: TargetModel,
    base: Oid,
    ours: Oid,
    statuses: Seq<BranchStatusModel>,
    i: int,
    said: MergedIn,
)
    requires
        0 <= i < statuses.len(),
        gives_tree(said.written, target, statuses[i].files, said.tree),
    ensures
        goes_through(
            |s: Seq<ReplyModel>| merge_statuses_flow(s, target, base, statuses, i, ours),
            merge_in_steps(base, ours, said),
        ),
        forall|s: Seq<ReplyModel>| #[trigger]
            merge_statuses_flow(
                after(merge_in_steps(base, ours, said), s),
                target,
                base,
                statuses,
                i,
                ours,
            ) == merge_statuses_flow(s, target, base, statuses, i + 1, said.merged),
{
    broadcast use lemma_told;

    reveal_with_fuel(after, 6);
    reveal_with_fuel(goes_through, 6);
}

proof fn lemma_merges(
    target: TargetModel,
    base: Oid,
    ours: Oid,
    statuses: Seq<BranchStatusModel>,
    i: int,
    said: Seq<MergedIn>,
)
    requires
        0 <= i <= statuses.len(),
        is_said_of(said, target, statuses),
    ensures
        comes_to(
            |s: Seq<ReplyModel>| merge_statuses_flow(s, target, base, statuses, i, ours),
            merges_from(base, ours, said, i),
            if i == said.len() {
                ours
            } else {
                said.last().merged
            },
        ),
    decreases statuses.len() - i,
{
    if i < statuses.len() {
        let next = said[i].merged;
        lemma_merge_in(target, base, ours, statuses, i, said[i]);
        lemma_merges(target, base, next, statuses, i + 1, said);
        lemma_goes_on(
            |s: Seq<ReplyModel>| merge_statuses_flow(s, target, base, statuses, i, ours),
            |s: Seq<ReplyModel>| merge_statuses_flow(s, target, base, statuses, i + 1, next),
            merge_in_steps(base, ours, said[i]),
            merges_from(base, next, said, i + 1),
        );
    }
}

proof fn lemma_check_out(
    target: TargetModel,
    statuses: Seq<BranchStatusModel>,
    commit: CommitModel,
    said: Seq<MergedIn>,
)
    requires
        is_said_of(said, target, statuses),
    ensures
        comes_to(
            |s: Seq<ReplyModel>| check_out_statuses_flow(s, target, statuses),
            check_out_steps(target, commit, said),
            (),
        ),
{
    broadcast use lemma_told;

    let first = seq![Step::Ask(RequestModel::FindCommit(target.sha), ReplyModel::Commit(commit))];
    let tree = all_merged(commit.tree, said);
    let merges = merges_from(commit.tree, commit.tree, said, 0);
    let last = seq![
        Step::Ask(RequestModel::CheckoutTree { tree, remove_untracked: true }, ReplyModel::Unit),
        Step::Ask(RequestModel::UpdateIntegration, ReplyModel::Unit),
    ];
    let merging = |s: Seq<ReplyModel>|
        merge_statuses_flow(s, target, commit.tree, statuses, 0, commit.tree);
    let finish = |s: Seq<ReplyModel>|
        ask_unit(s, RequestModel::CheckoutTree { tree, remove_untracked: true }).and_then(
            |u: (), s: Seq<ReplyModel>| ask_unit(s, RequestModel::UpdateIntegration),
        );
    let whole = |s: Seq<ReplyModel>|
        merge_statuses_flow(s, target, commit.tree, statuses, 0, commit.tree).and_then(
            |tree: Oid, s: Seq<ReplyModel>|
                ask_unit(s, RequestModel::CheckoutTree { tree, remove_untracked: true }).and_then(
                    |u: (), s: Seq<ReplyModel>| ask_unit(s, RequestModel::UpdateIntegration),
                ),
        );
    lemma_merges(target, commit.tree, commit.tree, statuses, 0, said);
    lemma_goes_through_first(merging, whole, merges);
    assert forall|s: Seq<ReplyModel>| #[trigger] whole(after(merges, s)) == finish(s) by {
        assert(merging(after(merges, s)) == Flow::Done(tree, s));
    }
    reveal_with_fuel(after, 3);
    reveal_with_fuel(goes_through, 3);
    assert(goes_through(finish, last));
    lemma_goes_on(whole, finish, merges, last);
    lemma_goes_on(
        |s: Seq<ReplyModel>| check_out_statuses_flow(s, target, statuses),
        whole,
        first,
        merges + last,
    );
}

/// The steps with which unapplying a branch begins: the branch is stored as unapplied, with the
/// tree that its hunks make of the target.
pub open spec fn unapply_begins(
    id: BranchId,
    branch: BranchModel,
    target: TargetModel,
    branches: Seq<BranchModel>,
    statuses: Seq<ReplyModel>,
    written: Seq<ReplyModel>,
    tree: Oid,
) -> Seq<Step> {
    seq![
        Step::Ask(RequestModel::IsResolving, ReplyModel::Flag(false)),
        Step::Ask(RequestModel::OpenSession, ReplyModel::Unit),
        Step::Ask(RequestModel::ReadBranch(id), ReplyModel::Branch(branch)),
        Step::Ask(RequestModel::OpenSession, ReplyModel::Unit),
        Step::Ask(RequestModel::ReadDefaultTarget, ReplyModel::Target(target)),
        Step::Ask(RequestModel::ListBranches, ReplyModel::Branches(branches)),
        Step::Part(statuses),
        Step::Part(written),
        Step::Ask(
            RequestModel::WriteBranch(BranchModel { applied: false, tree, ..branch }),
            ReplyModel::Unit,
        ),
    ]
}

#[verifier::rlimit(60)]
proof fn lemma_unapply_begins(
    id: BranchId,
    branch: BranchModel,
    target: TargetModel,
    branches: Seq<BranchModel>,
    listed: Seq<ReplyModel>,
    statuses: Seq<BranchStatusModel>,
    k: int,
    written: Seq<ReplyModel>,
    tree: Oid,
)
    requires
        branch.applied,
        branch.id == id,
        is_status_of(statuses, id, k),
        forall|more: Seq<ReplyModel>| #[trigger]
            get_applied_status_flow(listed + more, target, applied_only(branches)) == Flow::Done(
                statuses,
                more,
            ),
        gives_tree(written, target, statuses[k].files, tree),
    ensures
        goes_through(
            |s: Seq<ReplyModel>| unapply_branch_flow(s, id),
            unapply_begins(id, branch, target, branches, listed, written, tree),
        ),
        forall|s: Seq<ReplyModel>| #[trigger]
            unapply_branch_flow(
                after(unapply_begins(id, branch, target, branches, listed, written, tree), s),
                id,
            ) == check_out_statuses_flow(s, target, other_statuses(statuses, id)),
{
    broadcast use lemma_told;

    lemma_status_of(statuses, id, k);
    reveal_with_fuel(after, 10);
    reveal_with_fuel(goes_through, 10);
}

/// An applied branch that is unapplied is stored as unapplied, with the tree that its hunks make of
/// the target and nothing else changed. Then the working directory is brought to the target and what
/// all other applied branches hold, merged one after the other.
pub proof fn an_unapplied_branch_leaves_the_others_in_the_workdir(
    id: BranchId,
    branch: BranchModel,
    target: TargetModel,
    branches: Seq<BranchModel>,
    listed: Seq<ReplyModel>,
    statuses: Seq<BranchStatusModel>,
    k: int,
    written: Seq<ReplyModel>,
    tree: Oid,
    commit: CommitModel,
    said: Seq<MergedIn>,
)
    requires
        branch.applied,
        branch.id == id,
        is_status_of(statuses, id, k),
        forall|more: Seq<ReplyModel>| #[trigger]
            get_applied_status_flow(listed + more, target, applied_only(branches)) == Flow::Done(
                statuses,
                more,
            ),
        gives_tree(written, target, statuses[k].files, tree),
        is_said_of(
            said,
            target,
            statuses.filter(|status: BranchStatusModel| status.branch.id != id),
        ),
    ensures
        comes_to(
            |s: Seq<ReplyModel>| unapply_branch_flow(s, id),
            unapply_begins(id, branch, target, branches, listed, written, tree) + check_out_steps(
                target, commit, said,
            ),
            (),
        ),
{
    let others = other_statuses(statuses, id);
    assert(others == statuses.filter(|status: BranchStatusModel| status.branch.id != id));
    lemma_unapply_begins(id, branch, target, branches, listed, statuses, k, written, tree);
    lemma_check_out(target, others, commit, said);
    lemma_goes_on(
        |s: Seq<ReplyModel>| unapply_branch_flow(s, id),
        |s: Seq<ReplyModel>| check_out_statuses_flow(s, target, others),
        unapply_begins(id, branch, target, branches, listed, written, tree),
        check_out_steps(target, commit, said),
    );
}

/// A branch that has no status is not stored when it is unapplied: the working directory is brought to
/// the target and what the applied branches hold.
#[verifier::rlimit(40)]
pub proof fn a_branch_without_a_status_is_not_stored(
    id: BranchId,
    branch: BranchModel,
    target: TargetModel,
    branches: Seq<BranchModel>,
    listed: Seq<ReplyModel>,
    statuses: Seq<BranchStatusModel>,
    commit: CommitModel,
    said: Seq<MergedIn>,
)
    requires
        branch.applied,
        branch.id == id,
        forall|j: int| 0 <= j < statuses.len() ==> (#[trigger] statuses[j]).branch.id != id,
        forall|more: Seq<ReplyModel>| #[trigger]
            get_applied_status_flow(listed + more, target, applied_only(branches)) == Flow::Done(
                statuses,
                more,
            ),
        is_said_of(
            said,
            target,
            statuses.filter(|status: BranchStatusModel| status.branch.id != id),
        ),
    ensures
        comes_to(
            |s: Seq<ReplyModel>| unapply_branch_flow(s, id),
            seq![
                Step::Ask(RequestModel::IsResolving, ReplyModel::Flag(false)),
                Step::Ask(RequestModel::OpenSession, ReplyModel::Unit),
                Step::Ask(RequestModel::ReadBranch(id), ReplyModel::Branch(branch)),
                Step::Ask(RequestModel::OpenSession, ReplyModel::Unit),
                Step::Ask(RequestModel::ReadDefaultTarget, ReplyModel::Target(target)),
                Step::Ask(RequestModel::ListBranches, ReplyModel::Branches(branches)),
                Step::Part(listed),
            ] + check_out_steps(target, commit, said),
            (),
        ),
{
    broadcast use lemma_told;

    let others = other_statuses(statuses, id);
    assert(others == statuses.filter(|status: BranchStatusModel| status.branch.id != id));
    lemma_no_status(statuses, id);
    lemma_check_out(target, others, commit, said);
    let begins = seq![
        Step::Ask(RequestModel::IsResolving, ReplyModel::Flag(false)),
        Step::Ask(RequestModel::OpenSession, ReplyModel::Unit),
        Step::Ask(RequestModel::ReadBranch(id), ReplyModel::Branch(branch)),
        Step::Ask(RequestModel::OpenSession, ReplyModel::Unit),
        Step::Ask(RequestModel::ReadDefaultTarget, ReplyModel::Target(target)),
        Step::Ask(RequestModel::ListBranches, ReplyModel::Branches(branches)),
        Step::Part(listed),
    ];
    reveal_with_fuel(after, 8);
    reveal_with_fuel(goes_through, 8);
    lemma_goes_on(
        |s: Seq<ReplyModel>| unapply_branch_flow(s, id),
        |s: Seq<ReplyModel>| check_out_statuses_flow(s, target, others),
        begins,
        check_out_steps(target, commit, said),
    );
}

/// The steps of some parts, one after the other.
pub open spec fn parts_from(parts: Seq<Seq<ReplyModel>>, i: int) -> Seq<Step>
    decreases parts.len() - i,
{
    if i < 0 || i >= parts.len() {
        seq![]
    } else {
        seq![Step::Part(parts[i])] + parts_from(parts, i + 1)
    }
}

/// Whether some replies to unapplying a branch bring that to its end.
pub open spec fn unapplies(replies: Seq<ReplyModel>, id: BranchId) -> bool {
    forall|more: Seq<ReplyModel>| #[trigger]
        unapply_branch_flow(replies + more, id) == Flow::Done((), more)
}

proof fn lemma_unapply_each(branches: Seq<BranchModel>, parts: Seq<Seq<ReplyModel>>, i: int)
    requires
        0 <= i <= branches.len(),
        parts.len() == branches.len(),
        forall|j: int| 0 <= j < parts.len() ==> unapplies(#[trigger] parts[j], branches[j].id),
    ensures
        comes_to(|s: Seq<ReplyModel>| unapply_each_flow(s, branches, i), parts_from(parts, i), ()),
    decreases branches.len() - i,
{
    if i < branches.len() {
        let first = seq![Step::Part(parts[i])];
        assert(unapplies(parts[i], branches[i].id));
        lemma_unapply_each(branches, parts, i + 1);
        reveal_with_fuel(after, 2);
        reveal_with_fuel(goes_through, 2);
        lemma_goes_on(
            |s: Seq<ReplyModel>| unapply_each_flow(s, branches, i),
            |s: Seq<ReplyModel>| unapply_each_flow(s, branches, i + 1),
            first,
            parts_from(parts, i + 1),
        );
    }
}

/// Unapplying all branches unapplies each of the applied ones, in turn, and no other.
pub proof fn all_applied_branches_are_unapplied(
    branches: Seq<BranchModel>,
    parts: Seq<Seq<ReplyModel>>,
)
    requires
        parts.len() == branches.filter(|b: BranchModel| b.applied).len(),
        forall|j: int|
            0 <= j < parts.len() ==> unapplies(
                #[trigger] parts[j],
                branches.filter(|b: BranchModel| b.applied)[j].id,
            ),
    ensures
        comes_to(
            |s: Seq<ReplyModel>| unapply_all_branches_flow(s),
            seq![
                Step::Ask(RequestModel::OpenSession, ReplyModel::Unit),
                Step::Ask(RequestModel::ListBranches, ReplyModel::Branches(branches)),
            ] + parts_from(parts, 0),
            (),
        ),
{
    broadcast use lemma_told;

    let applied = applied_only(branches);
    assert(applied == branches.filter(|b: BranchModel| b.applied));
    lemma_unapply_each(applied, parts, 0);
    reveal_with_fuel(after, 3);
    reveal_with_fuel(goes_through, 3);
    lemma_goes_on(
        |s: Seq<ReplyModel>| unapply_all_branches_flow(s),
        |s: Seq<ReplyModel>| unapply_each_flow(s, applied, 0),
        seq![
            Step::Ask(RequestModel::OpenSession, ReplyModel::Unit),
            Step::Ask(RequestModel::ListBranches, ReplyModel::Branches(branches)),
        ],
        parts_from(parts, 0),
    );
}

/// The steps that keep what the branches from the given one on hold: each is stored with the tree
/// that its hunks make of the target.
pub open spec fn keep_from(
    statuses: Seq<BranchStatusModel>,
    written: Seq<Seq<ReplyModel>>,
    trees: Seq<Oid>,
    i: int,
) -> Seq<Step>
    decreases statuses.len() - i,
{
    if i < 0 || i >= statuses.len() {
        seq![]
    } else {
        seq![
            Step::Part(written[i]),
            Step::Ask(
                RequestModel::WriteBranch(BranchModel { tree: trees[i], ..statuses[i].branch }),
                ReplyModel::Unit,
            ),
        ] + keep_from(statuses, written, trees, i + 1)
    }
}

/// Whether the hunks of some branches, all of them applied, make some trees of the target.
pub open spec fn is_kept_as(
    statuses: Seq<BranchStatusModel>,
    target: TargetModel,
    written: Seq<Seq<ReplyModel>>,
    trees: Seq<Oid>,
) -> bool {
    &&& written.len() == statuses.len()
    &&& trees.len() == statuses.len()
    &&& forall|j: int|
        0 <= j < statuses.len() ==> (#[trigger] statuses[j]).branch.applied && gives_tree(
            written[j],
            target,
            statuses[j].files,
            trees[j],
        )
}

proof fn lemma_keep(
    target: TargetModel,
    statuses: Seq<BranchStatusModel>,
    written: Seq<Seq<ReplyModel>>,
    trees: Seq<Oid>,
    i: int,
)
    requires
        0 <= i <= statuses.len(),
        is_kept_as(statuses, target, written, trees),
    ensures
        comes_to(
            |s: Seq<ReplyModel>| flush_each_flow(s, target, statuses, i),
            keep_from(statuses, written, trees, i),
            (),
        ),
    decreases statuses.len() - i,
{
    broadcast use lemma_told;

    if i < statuses.len() {
        let first = seq![
            Step::Part(written[i]),
            Step::Ask(
                RequestModel::WriteBranch(BranchModel { tree: trees[i], ..statuses[i].branch }),
                ReplyModel::Unit,
            ),
        ];
        assert(statuses[i].branch.applied);
        lemma_keep(target, statuses, written, trees, i + 1);
        reveal_with_fuel(after, 3);
        reveal_with_fuel(goes_through, 3);
        lemma_goes_on(
            |s: Seq<ReplyModel>| flush_each_flow(s, target, statuses, i),
            |s: Seq<ReplyModel>| flush_each_flow(s, target, statuses, i + 1),
            first,
            keep_from(statuses, written, trees, i + 1),
        );
    }
}

/// Keeping what the applied branches hold stores each of them with the tree that its hunks make of
/// the target, and nothing else changed.
pub proof fn what_the_applied_branches_hold_is_kept(
    branches: Seq<BranchModel>,
    applied: Seq<BranchModel>,
    target: TargetModel,
    listed: Seq<ReplyModel>,
    statuses: Seq<BranchStatusModel>,
    written: Seq<Seq<ReplyModel>>,
    trees: Seq<Oid>,
)
    requires
        applied == branches.filter(|b: BranchModel| b.applied),
        forall|more: Seq<ReplyModel>| #[trigger]
            get_applied_status_flow(listed + more, target, applied) == Flow::Done(statuses, more),
        is_kept_as(statuses, target, written, trees),
    ensures
        comes_to(
            |s: Seq<ReplyModel>| flush_applied_vbranches_flow(s),
            seq![
                Step::Ask(RequestModel::OpenSession, ReplyModel::Unit),
                Step::Ask(RequestModel::ListBranches, ReplyModel::Branches(branches)),
                Step::Ask(RequestModel::OpenSession, ReplyModel::Unit),
                Step::Ask(RequestModel::ReadDefaultTarget, ReplyModel::Target(target)),
                Step::Part(listed),
            ] + (keep_from(statuses, written, trees, 0) + seq![
                Step::Ask(RequestModel::UpdateIntegration, ReplyModel::Unit),
            ]),
            (),
        ),
{
    broadcast use lemma_told;

    assert(applied_only(branches) == branches.filter(|b: BranchModel| b.applied));
    let begins = seq![
        Step::Ask(RequestModel::OpenSession, ReplyModel::Unit),
        Step::Ask(RequestModel::ListBranches, ReplyModel::Branches(branches)),
        Step::Ask(RequestModel::OpenSession, ReplyModel::Unit),
        Step::Ask(RequestModel::ReadDefaultTarget, ReplyModel::Target(target)),
        Step::Part(listed),
    ];
    let keep = keep_from(statuses, written, trees, 0);
    let last = seq![Step::Ask(RequestModel::UpdateIntegration, ReplyModel::Unit)];
    let keeping = |s: Seq<ReplyModel>| flush_each_flow(s, target, statuses, 0);
    let finish = |s: Seq<ReplyModel>| ask_unit(s, RequestModel::UpdateIntegration);
    let whole = |s: Seq<ReplyModel>|
        flush_each_flow(s, target, statuses, 0).and_then(
            |u: (), s: Seq<ReplyModel>| ask_unit(s, RequestModel::UpdateIntegration),
        );
    lemma_keep(target, statuses, written, trees, 0);
    lemma_goes_through_first(keeping, whole, keep);
    assert forall|s: Seq<ReplyModel>| #[trigger] whole(after(keep, s)) == finish(s) by {
        assert(keeping(after(keep, s)) == Flow::Done((), s));
    }
    reveal_with_fuel(after, 6);
    reveal_with_fuel(goes_through, 6);
    lemma_goes_on(whole, finish, keep, last);
    lemma_goes_on(|s: Seq<ReplyModel>| flush_applied_vbranches_flow(s), whole, begins, keep + last);
}

/// Unapplying some ownership takes it from the applied branches, and then brings the working
/// directory to the target and what they hold after that, merged one after the other.
pub proof fn what_is_left_stays_in_the_workdir(
    ownership: Seq<FileOwnershipModel>,
    target: TargetModel,
    branches: Seq<BranchModel>,
    applied: Seq<BranchModel>,
    listed: Seq<ReplyModel>,
    statuses: Seq<BranchStatusModel>,
    taken: Seq<ReplyModel>,
    left: Seq<BranchStatusModel>,
    commit: CommitModel,
    said: Seq<MergedIn>,
)
    requires
        applied == branches.filter(|b: BranchModel| b.applied),
        forall|more: Seq<ReplyModel>| #[trigger]
            get_applied_status_flow(listed + more, target, applied) == Flow::Done(statuses, more),
        forall|more: Seq<ReplyModel>| #[trigger]
            strip_each_flow(taken + more, statuses, ownership, 0) == Flow::Done(left, more),
        is_said_of(said, target, left),
    ensures
        comes_to(
            |s: Seq<ReplyModel>| unapply_ownership_flow(s, ownership),
            seq![
                Step::Ask(RequestModel::IsResolving, ReplyModel::Flag(false)),
                Step::Ask(RequestModel::OpenSession, ReplyModel::Unit),
                Step::Ask(RequestModel::ReadDefaultTarget, ReplyModel::Target(target)),
                Step::Ask(RequestModel::ListBranches, ReplyModel::Branches(branches)),
                Step::Part(listed),
                Step::Part(taken),
            ] + check_out_steps(target, commit, said),
            (),
        ),
{
    broadcast use lemma_told;

    assert(applied_only(branches) == branches.filter(|b: BranchModel| b.applied));
    lemma_check_out(target, left, commit, said);
    reveal_with_fuel(after, 7);
    reveal_with_fuel(goes_through, 7);
    lemma_goes_on(
        |s: Seq<ReplyModel>| unapply_ownership_flow(s, ownership),
        |s: Seq<ReplyModel>| check_out_statuses_flow(s, target, left),
        seq![
            Step::Ask(RequestModel::IsResolving, ReplyModel::Flag(false)),
            Step::Ask(RequestModel::OpenSession, ReplyModel::Unit),
            Step::Ask(RequestModel::ReadDefaultTarget, ReplyModel::Target(target)),
            Step::Ask(RequestModel::ListBranches, ReplyModel::Branches(branches)),
            Step::Part(listed),
            Step::Part(taken),
        ],
        check_out_steps(target, commit, said),
    );
}

} // verus!
