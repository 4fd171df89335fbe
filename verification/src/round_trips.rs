//! What one operation makes of what another has left. Where git decides, the laws speak of replies
//! that agree between the two.

use crate::alignment::{is_separate_diff, the_status_is_found_again};
use crate::apply::{
    apply_branch_flow, check_out_statuses_flow, flush_applied_vbranches_flow, flush_each_flow,
    flush_status_flow, flush_vbranch_as_tree_flow, other_statuses, status_of, unapply_branch_flow,
};
use crate::branch::{BranchModel, CommitModel, TargetModel};
use crate::create::by_order;
use crate::diff::FileDiffModel;
use crate::merge::is_virtual_branch_mergeable_flow;
use crate::objects::{BranchId, Oid};
use crate::owning::plain_ownership;
use crate::protocol::{
    ask_unit, fail, BranchErrorModel, Flow, MergeIndex, ReplyModel, RequestModel, StopModel,
    TreeEditModel,
};
use crate::reordering::{
    edits_about, is_same_diff, is_settled, replies_about, the_same_hunks_make_the_same_tree,
};
use crate::session::applied_only;
use crate::status::{get_applied_status_flow, BranchStatusModel};
use crate::tree::{edit_flow, edits_flow, write_tree_flow};
use vstd::prelude::*;

verus! {

/// Whether some statuses are the same but for the trees of their branches.
pub open spec fn is_same_but_for_trees(
    one: Seq<BranchStatusModel>,
    other: Seq<BranchStatusModel>,
) -> bool {
    &&& one.len() == other.len()
    &&& forall|k: int|
        0 <= k < one.len() ==> (#[trigger] other[k]) == (BranchStatusModel {
            branch: BranchModel { tree: other[k].branch.tree, ..one[k].branch },
            ..one[k]
        })
}

proof fn lemma_flush_each(
    s: Seq<ReplyModel>,
    target: TargetModel,
    one: Seq<BranchStatusModel>,
    other: Seq<BranchStatusModel>,
    i: int,
)
    requires
        is_same_but_for_trees(one, other),
    ensures
        flush_each_flow(s, target, one, i) == flush_each_flow(s, target, other, i),
    decreases one.len() - i,
{
    if 0 <= i < one.len() {
        assert(other[i] == (BranchStatusModel {
            branch: BranchModel { tree: other[i].branch.tree, ..one[i].branch },
            ..one[i]
        }));
        assert(flush_status_flow(s, target, one[i]) == flush_status_flow(s, target, other[i]));
        if let Flow::Done(_, rest) = flush_status_flow(s, target, one[i]) {
            lemma_flush_each(rest, target, one, other, i + 1);
        }
    }
}

/// The replies with which keeping what the branches hold begins: a session, the branches, the
/// session again and the target.
pub open spec fn flush_beginning(
    branches: Seq<BranchModel>,
    target: TargetModel,
) -> Seq<ReplyModel> {
    seq![
        ReplyModel::Unit,
        ReplyModel::Branches(branches),
        ReplyModel::Unit,
        ReplyModel::Target(target),
    ]
}

proof fn lemma_flush_begins(
    branches: Seq<BranchModel>,
    target: TargetModel,
    s: Seq<ReplyModel>,
    statuses: Seq<BranchStatusModel>,
    rest: Seq<ReplyModel>,
)
    requires
        get_applied_status_flow(s, target, applied_only(branches)) == Flow::Done(statuses, rest),
    ensures
        flush_applied_vbranches_flow(flush_beginning(branches, target) + s) == flush_each_flow(
            rest,
            target,
            statuses,
            0,
        ).and_then(|u: (), s: Seq<ReplyModel>| ask_unit(s, RequestModel::UpdateIntegration)),
{
    let all = flush_beginning(branches, target) + s;
    assert(all.drop_first().drop_first().drop_first().drop_first() =~= s);
}

/// When what the branches hold is kept a second time, and the branches have the same hunks, the
/// same replies store the same branches with the same trees again, whatever trees were stored
/// before.
pub proof fn the_same_trees_are_stored_again(
    branches: Seq<BranchModel>,
    again: Seq<BranchModel>,
    target: TargetModel,
    s: Seq<ReplyModel>,
    t: Seq<ReplyModel>,
    statuses: Seq<BranchStatusModel>,
    same_statuses: Seq<BranchStatusModel>,
    rest: Seq<ReplyModel>,
)
    requires
        get_applied_status_flow(s, target, applied_only(branches)) == Flow::Done(statuses, rest),
        get_applied_status_flow(t, target, applied_only(again)) == Flow::Done(same_statuses, rest),
        is_same_but_for_trees(statuses, same_statuses),
    ensures
        flush_each_flow(rest, target, same_statuses, 0) == flush_each_flow(
            rest,
            target,
            statuses,
            0,
        ),
        flush_applied_vbranches_flow(flush_beginning(again, target) + t)
            == flush_applied_vbranches_flow(flush_beginning(branches, target) + s),
{
    lemma_flush_begins(branches, target, s, statuses, rest);
    lemma_flush_begins(again, target, t, same_statuses, rest);
    lemma_flush_each(rest, target, statuses, same_statuses, 0);
}

/// Whether keeping what two branches hold writes the same tree: with the same edits on top of the
/// target, in whatever order, and each branch is stored with the tree that comes back.
pub open spec fn stores_same_tree(
    about: spec_fn(FileDiffModel) -> Seq<ReplyModel>,
    base: CommitModel,
    target: TargetModel,
    one: BranchStatusModel,
    other: BranchStatusModel,
    tree: Oid,
) -> bool {
    let s = seq![ReplyModel::Commit(base)] + replies_about(about, one.files);
    let t = seq![ReplyModel::Commit(base)] + replies_about(about, other.files);
    let edits = edits_about(about, base.tree, one.files);
    let same_edits = edits_about(about, base.tree, other.files);
    &&& edits.to_multiset() == same_edits.to_multiset()
    &&& flush_status_flow(s, target, one) == Flow::<()>::Stop(
        StopModel::Ask(RequestModel::WriteTree { base: base.tree, edits }),
    )
    &&& flush_status_flow(t, target, other) == Flow::<()>::Stop(
        StopModel::Ask(RequestModel::WriteTree { base: base.tree, edits: same_edits }),
    )
    &&& flush_status_flow(s.push(ReplyModel::Oid(tree)), target, one) == Flow::<()>::Stop(
        StopModel::Ask(RequestModel::WriteBranch(BranchModel { tree, ..one.branch })),
    )
    &&& flush_status_flow(t.push(ReplyModel::Oid(tree)), target, other) == Flow::<()>::Stop(
        StopModel::Ask(RequestModel::WriteBranch(BranchModel { tree, ..other.branch })),
    )
}

/// When what the branches hold is kept a second time, the working directory has not changed, and
/// the branches own what they were stored with the first time, every branch gets the same tree
/// again. The hunks of each file have to be separate, and no file may come twice, neither in the
/// diff nor in what a branch owned at first.
pub proof fn a_second_flush_makes_the_same_trees(
    s: Seq<ReplyModel>,
    t: Seq<ReplyModel>,
    target: TargetModel,
    diff: Seq<FileDiffModel>,
    branches: Seq<BranchModel>,
    stored: Seq<BranchModel>,
    statuses: Seq<BranchStatusModel>,
    again: Seq<BranchStatusModel>,
    rest: Seq<ReplyModel>,
    other_rest: Seq<ReplyModel>,
    k: int,
    about: spec_fn(Seq<char>) -> Seq<ReplyModel>,
    base: CommitModel,
    tree: Oid,
)
    requires
        s.len() > 0 && s[0] == ReplyModel::Diffs(diff),
        t.len() > 0 && t[0] == ReplyModel::Diffs(diff),
        is_separate_diff(diff),
        branches.len() > 0,
        plain_ownership(branches),
        get_applied_status_flow(s, target, branches) == Flow::Done(statuses, rest),
        get_applied_status_flow(t, target, stored) == Flow::Done(again, other_rest),
        stored.len() == branches.len(),
        forall|k: int|
            0 <= k < stored.len() ==> (#[trigger] by_order(stored)[k]).ownership
                == statuses[k].branch.ownership,
        0 <= k < branches.len(),
        forall|i: int|
            0 <= i < statuses[k].files.len() ==> is_settled(
                |f: FileDiffModel| about(f.path),
                base.tree,
                #[trigger] statuses[k].files[i],
            ),
    ensures
        k < statuses.len() && k < again.len(),
        stores_same_tree(
            |f: FileDiffModel| about(f.path),
            base,
            target,
            statuses[k],
            again[k],
            tree,
        ),
{
    the_status_is_found_again(
        s,
        t,
        target,
        diff,
        branches,
        stored,
        statuses,
        again,
        rest,
        other_rest,
    );
    assert(is_same_diff(statuses[k].files, again[k].files));
    the_same_hunks_make_the_same_tree(
        about,
        base,
        target.sha,
        statuses[k].files,
        again[k].files,
        tree,
    );
}

proof fn lemma_edits_store_no_branch(
    s: Seq<ReplyModel>,
    tree: Oid,
    files: Seq<FileDiffModel>,
    i: int,
    edits: Seq<TreeEditModel>,
)
    ensures
        !(edits_flow(s, tree, files, i, edits) matches Flow::Stop(
            StopModel::Ask(RequestModel::WriteBranch(_)),
        )),
    decreases files.len() - i,
{
    if 0 <= i < files.len() {
        if let Flow::Done(edit, rest) = edit_flow(s, tree, files[i]) {
            let next = match edit {
                Some(edit) => edits.push(edit),
                None => edits,
            };
            lemma_edits_store_no_branch(rest, tree, files, i + 1, next);
        }
    }
}

proof fn lemma_tree_stores_no_branch(
    s: Seq<ReplyModel>,
    target: TargetModel,
    files: Seq<FileDiffModel>,
)
    ensures
        !(write_tree_flow(s, target, files) matches Flow::Stop(
            StopModel::Ask(RequestModel::WriteBranch(_)),
        )),
{
    if s.len() > 0 {
        if let ReplyModel::Commit(base) = s[0] {
            lemma_edits_store_no_branch(s.drop_first(), base.tree, files, 0, seq![]);
        }
    }
}

/// Whether a branch is an applied one of some statuses with nothing changed but its tree.
pub open spec fn is_one_but_for_tree(
    branch: BranchModel,
    statuses: Seq<BranchStatusModel>,
) -> bool {
    exists|k: int|
        0 <= k < statuses.len() && branch.applied && branch == (BranchModel {
            tree: branch.tree,
            ..(#[trigger] statuses[k]).branch
        })
}

proof fn lemma_flush_each_stores(
    s: Seq<ReplyModel>,
    target: TargetModel,
    statuses: Seq<BranchStatusModel>,
    i: int,
)
    ensures
        flush_each_flow(s, target, statuses, i) matches Flow::Stop(
            StopModel::Ask(RequestModel::WriteBranch(branch)),
        ) ==> is_one_but_for_tree(branch, statuses),
    decreases statuses.len() - i,
{
    if 0 <= i < statuses.len() {
        let status = statuses[i];
        lemma_tree_stores_no_branch(s, target, status.files);
        match flush_status_flow(s, target, status) {
            Flow::Done(_, rest) => {
                lemma_flush_each_stores(rest, target, statuses, i + 1);
            },
            Flow::Stop(StopModel::Ask(RequestModel::WriteBranch(branch))) => {
                assert(branch == (BranchModel { tree: branch.tree, ..statuses[i].branch }));
            },
            Flow::Stop(_) => {},
        }
    }
}

/// While what the branches hold is kept, only applied branches are stored, with nothing changed
/// but their trees.
pub proof fn only_trees_change_when_flushed(
    s: Seq<ReplyModel>,
    target: TargetModel,
    statuses: Seq<BranchStatusModel>,
)
    ensures
        flush_each_flow(s, target, statuses, 0) matches Flow::Stop(
            StopModel::Ask(RequestModel::WriteBranch(branch)),
        ) ==> is_one_but_for_tree(branch, statuses),
{
    lemma_flush_each_stores(s, target, statuses, 0);
}

/// The replies with which applying a branch that is up to date begins: there are no conflicts, a
/// session, the target, the branch, the commit of the target, the tree of the branch, the target
/// as the merge base, the tree of the working directory, and the merge of the two.
pub open spec fn apply_replies(
    branch: BranchModel,
    target: TargetModel,
    commit: CommitModel,
    workdir: Oid,
    index: MergeIndex,
) -> Seq<ReplyModel> {
    seq![
        ReplyModel::Flag(false),
        ReplyModel::Unit,
        ReplyModel::Target(target),
        ReplyModel::Branch(branch),
        ReplyModel::Commit(commit),
        ReplyModel::Unit,
        ReplyModel::Oid(target.sha),
        ReplyModel::Oid(workdir),
        ReplyModel::Index(index),
    ]
}

/// Whether an operation has come to a request that changes something: a branch that is stored, or
/// the working directory.
pub open spec fn asks_for_a_change(flow: Flow<()>) -> bool {
    match flow {
        Flow::Stop(StopModel::Ask(RequestModel::WriteBranch(_))) => true,
        Flow::Stop(StopModel::Ask(RequestModel::CheckoutIndex { .. })) => true,
        Flow::Stop(StopModel::Ask(RequestModel::CheckoutTree { .. })) => true,
        _ => false,
    }
}

/// Until it is known whether a branch that is up to date merges without conflicts, nothing is
/// changed: where it does not, everything is as it was.
pub proof fn nothing_changes_before_the_merge(
    id: BranchId,
    signed: bool,
    branch: BranchModel,
    target: TargetModel,
    commit: CommitModel,
    workdir: Oid,
    index: MergeIndex,
    k: int,
)
    requires
        0 <= k < apply_replies(branch, target, commit, workdir, index).len(),
    ensures
        !asks_for_a_change(
            apply_branch_flow(
                apply_replies(branch, target, commit, workdir, index).take(k),
                id,
                signed,
            ),
        ),
{
    let s = apply_replies(branch, target, commit, workdir, index);
    let t = s.take(k);
    let found = t.drop_first().drop_first().drop_first().drop_first();
    if k >= 4 {
        assert(found =~= s.subrange(4, k));
    }
}

/// The replies to whether a branch that is up to date can be merged.
pub open spec fn mergeable_replies(
    branch: BranchModel,
    target: TargetModel,
    head: CommitModel,
    commit: CommitModel,
    workdir: Oid,
    index: MergeIndex,
) -> Seq<ReplyModel> {
    seq![
        ReplyModel::Unit,
        ReplyModel::Branch(branch),
        ReplyModel::Target(target),
        ReplyModel::Oid(target.sha),
        ReplyModel::Commit(head),
        ReplyModel::Commit(commit),
        ReplyModel::Oid(target.sha),
        ReplyModel::Commit(commit),
        ReplyModel::Oid(workdir),
        ReplyModel::Unit,
        ReplyModel::Index(index),
    ]
}

proof fn lemma_apply(
    id: BranchId,
    signed: bool,
    branch: BranchModel,
    target: TargetModel,
    commit: CommitModel,
    workdir: Oid,
    index: MergeIndex,
    more: Seq<ReplyModel>,
)
    ensures
        apply_branch_flow(apply_replies(branch, target, commit, workdir, index) + more, id, signed)
            == (if index.conflicted {
            fail(BranchErrorModel::ConflictsWithApplied)
        } else {
            brought_in_flow(branch, index, more)
        }),
{
    let s = apply_replies(branch, target, commit, workdir, index) + more;
    let found = s.drop_first().drop_first().drop_first().drop_first();
    assert(found =~= seq![
        ReplyModel::Commit(commit),
        ReplyModel::Unit,
        ReplyModel::Oid(target.sha),
        ReplyModel::Oid(workdir),
        ReplyModel::Index(index),
    ] + more);
    assert(found.drop_first().drop_first().drop_first().drop_first().drop_first() =~= more);
}

/// How applying a branch goes on once it is known that it merges without conflicts.
pub open spec fn brought_in_flow(
    branch: BranchModel,
    index: MergeIndex,
    s: Seq<ReplyModel>,
) -> Flow<()> {
    ask_unit(
        s,
        RequestModel::WriteBranch(BranchModel { applied: true, ..branch }),
    ).and_then(
        |u: (), s: Seq<ReplyModel>|
            ask_unit(
                s,
                RequestModel::CheckoutIndex { index: index.handle, with_conflicts: false },
            ).and_then(
                |u: (), s: Seq<ReplyModel>|
                    ask_unit(s, RequestModel::UpdateIntegration),
            ),
    )
}

proof fn lemma_mergeable(
    id: BranchId,
    branch: BranchModel,
    target: TargetModel,
    head: CommitModel,
    commit: CommitModel,
    workdir: Oid,
    asked: MergeIndex,
)
    requires
        !branch.applied,
    ensures
        is_virtual_branch_mergeable_flow(
            mergeable_replies(branch, target, head, commit, workdir, asked),
            id,
        ) == Flow::Done(!asked.conflicted, seq![]),
{
    let s = mergeable_replies(branch, target, head, commit, workdir, asked);
    let found = s.drop_first().drop_first().drop_first().drop_first();
    assert(found =~= seq![
        ReplyModel::Commit(head),
        ReplyModel::Commit(commit),
        ReplyModel::Oid(target.sha),
        ReplyModel::Commit(commit),
        ReplyModel::Oid(workdir),
        ReplyModel::Unit,
        ReplyModel::Index(asked),
    ]);
    let merged = found.drop_first().drop_first().drop_first().drop_first();
    assert(merged =~= seq![
        ReplyModel::Oid(workdir),
        ReplyModel::Unit,
        ReplyModel::Index(asked),
    ]);
    assert(merged.drop_first().drop_first().drop_first() =~= seq![]);
}

/// Whether a branch that is up to date can be merged says whether it is applied, as long as the
/// tree of the branch and that of the working directory are in conflict either way round or
/// neither. One that can be merged is stored as applied with nothing else changed; one that cannot
/// is refused.
pub proof fn what_is_mergeable_is_applied(
    id: BranchId,
    signed: bool,
    branch: BranchModel,
    target: TargetModel,
    head: CommitModel,
    commit: CommitModel,
    workdir: Oid,
    asked: MergeIndex,
    index: MergeIndex,
    more: Seq<ReplyModel>,
)
    requires
        !branch.applied,
        asked.conflicted == index.conflicted,
    ensures
        ({
            let mergeable = is_virtual_branch_mergeable_flow(
                mergeable_replies(branch, target, head, commit, workdir, asked),
                id,
            );
            let applied = apply_branch_flow(
                apply_replies(branch, target, commit, workdir, index) + more,
                id,
                signed,
            );
            &&& mergeable == Flow::Done(!index.conflicted, seq![])
            &&& mergeable == Flow::Done(true, seq![]) ==> applied == brought_in_flow(
                branch,
                index,
                more,
            )
            &&& mergeable == Flow::Done(false, seq![]) ==> applied == fail::<()>(
                BranchErrorModel::ConflictsWithApplied,
            )
        }),
{
    lemma_mergeable(id, branch, target, head, commit, workdir, asked);
    lemma_apply(id, signed, branch, target, commit, workdir, index, more);
}

proof fn lemma_apply_merges(
    id: BranchId,
    signed: bool,
    branch: BranchModel,
    target: TargetModel,
    commit: CommitModel,
    workdir: Oid,
    index: MergeIndex,
)
    ensures
        apply_branch_flow(
            apply_replies(branch, target, commit, workdir, index).drop_last(),
            id,
            signed,
        ) == Flow::<()>::Stop(
            StopModel::Ask(
                RequestModel::MergeTrees { base: commit.tree, ours: workdir, theirs: branch.tree },
            ),
        ),
{
    let s = apply_replies(branch, target, commit, workdir, index).drop_last();
    let found = s.drop_first().drop_first().drop_first().drop_first();
    assert(found =~= seq![
        ReplyModel::Commit(commit),
        ReplyModel::Unit,
        ReplyModel::Oid(target.sha),
        ReplyModel::Oid(workdir),
    ]);
    assert(found.drop_first().drop_first().drop_first().drop_first() =~= seq![]);
}

/// The replies with which unapplying a branch begins: there are no conflicts, a session, the
/// branch, the session again, the target and the branches.
pub open spec fn unapply_beginning(
    branch: BranchModel,
    target: TargetModel,
    branches: Seq<BranchModel>,
) -> Seq<ReplyModel> {
    seq![
        ReplyModel::Flag(false),
        ReplyModel::Unit,
        ReplyModel::Branch(branch),
        ReplyModel::Unit,
        ReplyModel::Target(target),
        ReplyModel::Branches(branches),
    ]
}

proof fn lemma_unapply_flushes(
    id: BranchId,
    branch: BranchModel,
    target: TargetModel,
    branches: Seq<BranchModel>,
    s: Seq<ReplyModel>,
)
    requires
        branch.applied,
    ensures
        unapply_branch_flow(unapply_beginning(branch, target, branches) + s, id)
            == flush_vbranch_as_tree_flow(
            seq![ReplyModel::Unit, ReplyModel::Target(target), ReplyModel::Branches(branches)] + s,
            BranchModel { applied: false, ..branch },
        ).and_then(
            |flushed: Option<(TargetModel, Seq<BranchStatusModel>)>, s: Seq<ReplyModel>|
                match flushed {
                    None => Flow::Done((), s),
                    Some((target, statuses)) => check_out_statuses_flow(
                        s,
                        target,
                        other_statuses(statuses, id),
                    ),
                },
        ),
{
    let all = unapply_beginning(branch, target, branches) + s;
    assert(all.drop_first().drop_first().drop_first() =~= seq![
        ReplyModel::Unit,
        ReplyModel::Target(target),
        ReplyModel::Branches(branches),
    ] + s);
}

proof fn lemma_flush_stores(
    branch: BranchModel,
    target: TargetModel,
    branches: Seq<BranchModel>,
    s: Seq<ReplyModel>,
    statuses: Seq<BranchStatusModel>,
    rest: Seq<ReplyModel>,
    tree: Oid,
)
    requires
        get_applied_status_flow(s, target, applied_only(branches)) == Flow::Done(statuses, rest),
        status_of(statuses, branch.id) < statuses.len(),
        write_tree_flow(rest, target, statuses[status_of(statuses, branch.id)].files)
            == Flow::Done(tree, Seq::<ReplyModel>::empty()),
    ensures
        flush_vbranch_as_tree_flow(
            seq![ReplyModel::Unit, ReplyModel::Target(target), ReplyModel::Branches(branches)] + s,
            branch,
        ) == Flow::<Option<(TargetModel, Seq<BranchStatusModel>)>>::Stop(
            StopModel::Ask(RequestModel::WriteBranch(BranchModel { tree, ..branch })),
        ),
{
    let all = seq![ReplyModel::Unit, ReplyModel::Target(target), ReplyModel::Branches(branches)]
        + s;
    assert(all.drop_first().drop_first().drop_first() =~= s);
}

/// A branch that is unapplied is stored with the tree that its hunks make. Applying what was stored
/// merges that tree into the working directory, and stores the branch as it was but for the tree.
pub proof fn an_unapplied_branch_is_applied_with_what_it_held(
    id: BranchId,
    signed: bool,
    branch: BranchModel,
    target: TargetModel,
    branches: Seq<BranchModel>,
    s: Seq<ReplyModel>,
    statuses: Seq<BranchStatusModel>,
    rest: Seq<ReplyModel>,
    tree: Oid,
    commit: CommitModel,
    workdir: Oid,
    index: MergeIndex,
    more: Seq<ReplyModel>,
)
    requires
        branch.applied,
        get_applied_status_flow(s, target, applied_only(branches)) == Flow::Done(statuses, rest),
        status_of(statuses, branch.id) < statuses.len(),
        write_tree_flow(rest, target, statuses[status_of(statuses, branch.id)].files)
            == Flow::Done(tree, Seq::<ReplyModel>::empty()),
        !index.conflicted,
    ensures
        ({
            let unapplied = BranchModel { applied: false, tree, ..branch };
            &&& unapply_branch_flow(unapply_beginning(branch, target, branches) + s, id)
                == Flow::<()>::Stop(StopModel::Ask(RequestModel::WriteBranch(unapplied)))
            &&& apply_branch_flow(
                apply_replies(unapplied, target, commit, workdir, index) + more,
                id,
                signed,
            ) == brought_in_flow(BranchModel { tree, ..branch }, index, more)
            &&& apply_branch_flow(
                apply_replies(unapplied, target, commit, workdir, index).drop_last(),
                id,
                signed,
            ) == Flow::<()>::Stop(
                StopModel::Ask(
                    RequestModel::MergeTrees { base: commit.tree, ours: workdir, theirs: tree },
                ),
            )
        }),
{
    let unapplied = BranchModel { applied: false, tree, ..branch };
    let flushed = BranchModel { applied: false, ..branch };
    lemma_unapply_flushes(id, branch, target, branches, s);
    lemma_flush_stores(flushed, target, branches, s, statuses, rest, tree);
    lemma_apply(id, signed, unapplied, target, commit, workdir, index, more);
    lemma_apply_merges(id, signed, unapplied, target, commit, workdir, index);
}

} // verus!
