//! What is asked for, step by step, of what lies upstream: merging from there, pushing there, and
//! comparing with it.

use crate::apply::unapply_each_flow;
use crate::branch::{BranchModel, CommitModel, TargetModel};
use crate::conflicts::paths_of;
use crate::create::{other_applied, upstream_is_the_slug};
use crate::dialogue::{after, comes_to, fails_with, goes_through, lemma_goes_on, lemma_told, Step};
use crate::merge::{
    commit_upstream_flow, is_commit_integrated_flow, is_remote_branch_mergeable_flow,
    is_requires_force_flow, is_virtual_branch_mergeable_flow, merge_commit_flow,
    merge_virtual_branch_upstream_flow,
};
use crate::naming::{slug_of, unique_name, RemoteBranchModel};
use crate::objects::{BranchId, Oid};
use crate::protocol::{
    ask_unit, BranchErrorModel, ConflictModel, FailureKind, FailureModel, Flow, MergeIndex,
    ReplyModel, RequestModel, Signatures,
};
use crate::push::{lower_names, push_flow, push_to_flow};
use crate::text::lowercase;
use vstd::prelude::*;

verus! {

/// The steps with which merging from upstream begins, up to the commit there.
pub open spec fn upstream_begins(
    id: BranchId,
    branch: BranchModel,
    upstream: RemoteBranchModel,
    found: Oid,
    commit: CommitModel,
) -> Seq<Step> {
    seq![
        Step::Ask(RequestModel::IsConflicting(None), ReplyModel::Flag(false)),
        Step::Ask(RequestModel::OpenSession, ReplyModel::Unit),
        Step::Ask(RequestModel::ReadBranch(id), ReplyModel::Branch(branch)),
        Step::Ask(RequestModel::FindReference(upstream.refname()), ReplyModel::Oid(found)),
        Step::Ask(RequestModel::FindCommit(found), ReplyModel::Commit(commit)),
    ]
}

/// The steps that merge what is upstream into the working directory, on the base of what the branch
/// has in common with it, once the other branches are unapplied.
pub open spec fn merge_upstream_steps(
    branch: BranchModel,
    commit: CommitModel,
    branches: Seq<BranchModel>,
    unapplied: Seq<ReplyModel>,
    base: Oid,
    base_commit: CommitModel,
    workdir: Oid,
    index: MergeIndex,
) -> Seq<Step> {
    seq![
        Step::Ask(RequestModel::ListBranches, ReplyModel::Branches(branches)),
        Step::Part(unapplied),
        Step::Ask(RequestModel::MergeBase(commit.id, branch.head), ReplyModel::Oid(base)),
        Step::Ask(RequestModel::FindCommit(base), ReplyModel::Commit(base_commit)),
        Step::Ask(RequestModel::WorkdirTree, ReplyModel::Oid(workdir)),
        Step::Ask(
            RequestModel::MergeTrees { base: base_commit.tree, ours: workdir, theirs: commit.tree },
            ReplyModel::Index(index),
        ),
    ]
}

/// The steps that commit a merge with what is upstream: its parents are the head of the branch and
/// the commit upstream. The working directory gets its tree, and the branch is stored with both.
pub open spec fn commit_upstream_steps(
    branch: BranchModel,
    commit: CommitModel,
    index: MergeIndex,
    head: CommitModel,
    tree: Oid,
    signed: bool,
    merge: Oid,
) -> Seq<Step> {
    seq![
        Step::Ask(RequestModel::WriteIndex(index.handle), ReplyModel::Oid(tree)),
        Step::Ask(RequestModel::FindCommit(branch.head), ReplyModel::Commit(head)),
        Step::Ask(RequestModel::FindTree(tree), ReplyModel::Unit),
        Step::Ask(
            RequestModel::CreateCommit {
                signatures: Signatures::User,
                message: "merged from upstream"@,
                tree,
                parents: seq![branch.head, commit.id],
                signed,
            },
            ReplyModel::Oid(merge),
        ),
        Step::Ask(RequestModel::CheckoutTree { tree, remove_untracked: false }, ReplyModel::Unit),
        Step::Ask(
            RequestModel::WriteBranch(BranchModel { head: merge, tree, ..branch }),
            ReplyModel::Unit,
        ),
        Step::Ask(RequestModel::UpdateIntegration, ReplyModel::Unit),
    ]
}

/// The steps that check a merge with conflicts out: the paths in conflict are noted, with the commit
/// upstream as what is being merged.
pub open spec fn conflicts_with_upstream_steps(
    commit: CommitModel,
    index: MergeIndex,
    conflicts: Seq<ConflictModel>,
    paths: Seq<Seq<char>>,
) -> Seq<Step> {
    seq![
        Step::Ask(
            RequestModel::CheckoutIndex { index: index.handle, with_conflicts: true },
            ReplyModel::Unit,
        ),
        Step::Ask(RequestModel::IndexConflicts(index.handle), ReplyModel::Conflicts(conflicts)),
        Step::Ask(RequestModel::MarkConflicts { paths, parent: commit.id }, ReplyModel::Unit),
        Step::Ask(RequestModel::UpdateIntegration, ReplyModel::Unit),
    ]
}

proof fn lemma_upstream_begins(
    id: BranchId,
    signed: bool,
    branch: BranchModel,
    upstream: RemoteBranchModel,
    found: Oid,
    commit: CommitModel,
)
    requires
        branch.upstream == Some(upstream),
    ensures
        goes_through(
            |s: Seq<ReplyModel>| merge_virtual_branch_upstream_flow(s, id, signed),
            upstream_begins(id, branch, upstream, found, commit),
        ),
        forall|s: Seq<ReplyModel>| #[trigger]
            merge_virtual_branch_upstream_flow(
                after(upstream_begins(id, branch, upstream, found, commit), s),
                id,
                signed,
            ) == if commit.id == branch.head {
                Flow::Done((), s)
            } else {
                merge_commit_flow(s, branch, id, commit, signed)
            },
{
    broadcast use lemma_told;

    reveal_with_fuel(after, 7);
    reveal_with_fuel(goes_through, 7);
}

proof fn lemma_merge_upstream(
    id: BranchId,
    signed: bool,
    branch: BranchModel,
    commit: CommitModel,
    branches: Seq<BranchModel>,
    others: Seq<BranchModel>,
    unapplied: Seq<ReplyModel>,
    base: Oid,
    base_commit: CommitModel,
    workdir: Oid,
    index: MergeIndex,
)
    requires
        others == branches.filter(|b: BranchModel| b.applied && b.id != id),
        forall|more: Seq<ReplyModel>| #[trigger]
            unapply_each_flow(unapplied + more, others, 0) == Flow::Done((), more),
        !index.conflicted,
    ensures
        goes_through(
            |s: Seq<ReplyModel>| merge_commit_flow(s, branch, id, commit, signed),
            merge_upstream_steps(
                branch, commit, branches, unapplied, base, base_commit, workdir, index,
            ),
        ),
        forall|s: Seq<ReplyModel>| #[trigger]
            merge_commit_flow(
                after(
                    merge_upstream_steps(
                        branch, commit, branches, unapplied, base, base_commit, workdir, index,
                    ),
                    s,
                ),
                branch,
                id,
                commit,
                signed,
            ) == commit_upstream_flow(s, branch, commit, index, signed).and_then(
                |u: (), s: Seq<ReplyModel>| ask_unit(s, RequestModel::UpdateIntegration),
            ),
{
    broadcast use lemma_told;

    assert(other_applied(branches, id) == others);
    reveal_with_fuel(after, 8);
    reveal_with_fuel(goes_through, 8);
}

proof fn lemma_commit_upstream(
    branch: BranchModel,
    commit: CommitModel,
    index: MergeIndex,
    head: CommitModel,
    tree: Oid,
    signed: bool,
    merge: Oid,
)
    ensures
        comes_to(
            |s: Seq<ReplyModel>|
                commit_upstream_flow(s, branch, commit, index, signed).and_then(
                    |u: (), s: Seq<ReplyModel>| ask_unit(s, RequestModel::UpdateIntegration),
                ),
            commit_upstream_steps(branch, commit, index, head, tree, signed, merge),
            (),
        ),
{
    broadcast use lemma_told;

    reveal_with_fuel(after, 8);
    reveal_with_fuel(goes_through, 8);
}

#[verifier::rlimit(40)]
proof fn lemma_conflicts_with_upstream(
    id: BranchId,
    signed: bool,
    branch: BranchModel,
    commit: CommitModel,
    branches: Seq<BranchModel>,
    others: Seq<BranchModel>,
    unapplied: Seq<ReplyModel>,
    base: Oid,
    base_commit: CommitModel,
    workdir: Oid,
    index: MergeIndex,
    conflicts: Seq<ConflictModel>,
    paths: Seq<Seq<char>>,
)
    requires
        others == branches.filter(|b: BranchModel| b.applied && b.id != id),
        forall|more: Seq<ReplyModel>| #[trigger]
            unapply_each_flow(unapplied + more, others, 0) == Flow::Done((), more),
        index.conflicted,
        paths_of(conflicts) == Ok::<Seq<Seq<char>>, BranchErrorModel>(paths),
    ensures
        comes_to(
            |s: Seq<ReplyModel>| merge_commit_flow(s, branch, id, commit, signed),
            merge_upstream_steps(
                branch, commit, branches, unapplied, base, base_commit, workdir, index,
            ) + conflicts_with_upstream_steps(commit, index, conflicts, paths),
            (),
        ),
{
    broadcast use lemma_told;

    assert(other_applied(branches, id) == others);
    reveal_with_fuel(after, 11);
    reveal_with_fuel(goes_through, 11);
}

/// Merging from upstream, where another commit than the head of the branch is found there, merges
/// the tree of that commit into that of the working directory, on the base of what the branch has
/// in common with it, once all other applied branches are unapplied. Without conflicts the merge is
/// committed, with the head of the branch and the commit upstream for parents; the working directory
/// gets its tree, and nothing of the branch changes but head and tree.
pub proof fn what_is_upstream_is_merged(
    id: BranchId,
    signed: bool,
    branch: BranchModel,
    upstream: RemoteBranchModel,
    found: Oid,
    commit: CommitModel,
    branches: Seq<BranchModel>,
    others: Seq<BranchModel>,
    unapplied: Seq<ReplyModel>,
    base: Oid,
    base_commit: CommitModel,
    workdir: Oid,
    index: MergeIndex,
    head: CommitModel,
    tree: Oid,
    merge: Oid,
)
    requires
        branch.upstream == Some(upstream),
        commit.id != branch.head,
        others == branches.filter(|b: BranchModel| b.applied && b.id != id),
        forall|more: Seq<ReplyModel>| #[trigger]
            unapply_each_flow(unapplied + more, others, 0) == Flow::Done((), more),
        !index.conflicted,
    ensures
        comes_to(
            |s: Seq<ReplyModel>| merge_virtual_branch_upstream_flow(s, id, signed),
            upstream_begins(id, branch, upstream, found, commit) + (merge_upstream_steps(
                branch, commit, branches, unapplied, base, base_commit, workdir, index,
            ) + commit_upstream_steps(branch, commit, index, head, tree, signed, merge)),
            (),
        ),
{
    let merged = merge_upstream_steps(
        branch, commit, branches, unapplied, base, base_commit, workdir, index,
    );
    let committed = commit_upstream_steps(branch, commit, index, head, tree, signed, merge);
    lemma_upstream_begins(id, signed, branch, upstream, found, commit);
    lemma_merge_upstream(
        id, signed, branch, commit, branches, others, unapplied, base, base_commit, workdir, index,
    );
    lemma_commit_upstream(branch, commit, index, head, tree, signed, merge);
    lemma_goes_on(
        |s: Seq<ReplyModel>| merge_commit_flow(s, branch, id, commit, signed),
        |s: Seq<ReplyModel>|
            commit_upstream_flow(s, branch, commit, index, signed).and_then(
                |u: (), s: Seq<ReplyModel>| ask_unit(s, RequestModel::UpdateIntegration),
            ),
        merged,
        committed,
    );
    lemma_goes_on(
        |s: Seq<ReplyModel>| merge_virtual_branch_upstream_flow(s, id, signed),
        |s: Seq<ReplyModel>| merge_commit_flow(s, branch, id, commit, signed),
        upstream_begins(id, branch, upstream, found, commit),
        merged + committed,
    );
}

/// With conflicts, the merge with what is upstream is checked out with conflict markers and not
/// committed, and the branch is not stored.
pub proof fn conflicts_with_upstream_are_checked_out(
    id: BranchId,
    signed: bool,
    branch: BranchModel,
    upstream: RemoteBranchModel,
    found: Oid,
    commit: CommitModel,
    branches: Seq<BranchModel>,
    others: Seq<BranchModel>,
    unapplied: Seq<ReplyModel>,
    base: Oid,
    base_commit: CommitModel,
    workdir: Oid,
    index: MergeIndex,
    conflicts: Seq<ConflictModel>,
    paths: Seq<Seq<char>>,
)
    requires
        branch.upstream == Some(upstream),
        commit.id != branch.head,
        others == branches.filter(|b: BranchModel| b.applied && b.id != id),
        forall|more: Seq<ReplyModel>| #[trigger]
            unapply_each_flow(unapplied + more, others, 0) == Flow::Done((), more),
        index.conflicted,
        paths_of(conflicts) == Ok::<Seq<Seq<char>>, BranchErrorModel>(paths),
    ensures
        comes_to(
            |s: Seq<ReplyModel>| merge_virtual_branch_upstream_flow(s, id, signed),
            upstream_begins(id, branch, upstream, found, commit) + (merge_upstream_steps(
                branch, commit, branches, unapplied, base, base_commit, workdir, index,
            ) + conflicts_with_upstream_steps(commit, index, conflicts, paths)),
            (),
        ),
{
    lemma_upstream_begins(id, signed, branch, upstream, found, commit);
    lemma_conflicts_with_upstream(
        id, signed, branch, commit, branches, others, unapplied, base, base_commit, workdir, index,
        conflicts, paths,
    );
    lemma_goes_on(
        |s: Seq<ReplyModel>| merge_virtual_branch_upstream_flow(s, id, signed),
        |s: Seq<ReplyModel>| merge_commit_flow(s, branch, id, commit, signed),
        upstream_begins(id, branch, upstream, found, commit),
        merge_upstream_steps(
            branch, commit, branches, unapplied, base, base_commit, workdir, index,
        ) + conflicts_with_upstream_steps(commit, index, conflicts, paths),
    );
}

/// Where there is nothing new upstream, or nothing at all, nothing happens; a branch without an
/// upstream branch is refused.
pub proof fn nothing_is_merged_where_nothing_is_upstream(
    id: BranchId,
    signed: bool,
    branch: BranchModel,
    upstream: RemoteBranchModel,
    found: Oid,
    commit: CommitModel,
    failure: FailureModel,
)
    requires
        branch.upstream == Some(upstream),
        commit.id == branch.head,
    ensures
        comes_to(
            |s: Seq<ReplyModel>| merge_virtual_branch_upstream_flow(s, id, signed),
            upstream_begins(id, branch, upstream, found, commit),
            (),
        ),
        comes_to(
            |s: Seq<ReplyModel>| merge_virtual_branch_upstream_flow(s, id, signed),
            seq![
                Step::Ask(RequestModel::IsConflicting(None), ReplyModel::Flag(false)),
                Step::Ask(RequestModel::OpenSession, ReplyModel::Unit),
                Step::Ask(RequestModel::ReadBranch(id), ReplyModel::Branch(branch)),
                Step::Ask(
                    RequestModel::FindReference(upstream.refname()),
                    ReplyModel::Failed(failure),
                ),
            ],
            (),
        ),
        fails_with(
            |s: Seq<ReplyModel>| merge_virtual_branch_upstream_flow(s, id, signed),
            seq![
                Step::Ask(RequestModel::IsConflicting(None), ReplyModel::Flag(false)),
                Step::Ask(RequestModel::OpenSession, ReplyModel::Unit),
                Step::Ask(
                    RequestModel::ReadBranch(id),
                    ReplyModel::Branch(BranchModel { upstream: None, ..branch }),
                ),
            ],
            BranchErrorModel::NoUpstream,
        ),
{
    broadcast use lemma_told;

    lemma_upstream_begins(id, signed, branch, upstream, found, commit);
    reveal_with_fuel(after, 6);
    reveal_with_fuel(goes_through, 6);
}

/// The steps that push a branch: its head is pushed, the branch is stored with where it was pushed
/// to and with what was pushed, and the remote is fetched from.
pub open spec fn push_steps(
    branch: BranchModel,
    remote: RemoteBranchModel,
    force: bool,
) -> Seq<Step> {
    seq![
        Step::Ask(
            RequestModel::Push { head: branch.head, branch: remote, force },
            ReplyModel::Unit,
        ),
        Step::Ask(
            RequestModel::WriteBranch(
                BranchModel { upstream: Some(remote), upstream_head: Some(branch.head), ..branch },
            ),
            ReplyModel::Unit,
        ),
        Step::Ask(RequestModel::Fetch(remote.remote), ReplyModel::Unit),
    ]
}

/// The head of a branch is pushed to its upstream branch, by force only where that is asked for. Then
/// the branch is stored with what was pushed and where, and the remote is fetched from. What the
/// remote refuses is the result; a push that is refused stores nothing.
pub proof fn the_head_is_pushed_to_the_upstream_branch(
    id: BranchId,
    force: bool,
    branch: BranchModel,
    upstream: RemoteBranchModel,
    failure: FailureModel,
)
    requires
        branch.upstream == Some(upstream),
    ensures
        comes_to(
            |s: Seq<ReplyModel>| push_flow(s, id, force),
            seq![
                Step::Ask(RequestModel::OpenSession, ReplyModel::Unit),
                Step::Ask(RequestModel::ReadBranch(id), ReplyModel::Branch(branch)),
            ] + push_steps(branch, upstream, force),
            None,
        ),
        comes_to(
            |s: Seq<ReplyModel>| push_flow(s, id, force),
            seq![
                Step::Ask(RequestModel::OpenSession, ReplyModel::Unit),
                Step::Ask(RequestModel::ReadBranch(id), ReplyModel::Branch(branch)),
                Step::Ask(
                    RequestModel::Push { head: branch.head, branch: upstream, force },
                    ReplyModel::Failed(failure),
                ),
            ],
            Some(failure),
        ),
        comes_to(
            |s: Seq<ReplyModel>| push_flow(s, id, force),
            seq![
                Step::Ask(RequestModel::OpenSession, ReplyModel::Unit),
                Step::Ask(RequestModel::ReadBranch(id), ReplyModel::Branch(branch)),
            ] + push_steps(branch, upstream, force).drop_last().push(
                Step::Ask(RequestModel::Fetch(upstream.remote), ReplyModel::Failed(failure)),
            ),
            Some(failure),
        ),
{
    broadcast use lemma_told;

    reveal_with_fuel(after, 7);
    reveal_with_fuel(goes_through, 7);
}

/// A branch without an upstream branch is pushed to the target's remote, to a branch that has the
/// slug of its name for its name, made unique among the names of all remote branches in lower case,
/// with a dash before the number.
pub proof fn a_new_upstream_branch_has_the_slug_for_its_name(
    id: BranchId,
    force: bool,
    branch: BranchModel,
    target: TargetModel,
    remotes: Seq<RemoteBranchModel>,
    name: Seq<char>,
)
    requires
        branch.upstream is None,
        !target.branch.remote.contains('/'),
        name == unique_name(
            Seq::new(remotes.len(), |i: int| lowercase(remotes[i].branch)),
            slug_of(branch.name),
            seq!['-'],
        ),
    ensures
        comes_to(
            |s: Seq<ReplyModel>| push_flow(s, id, force),
            seq![
                Step::Ask(RequestModel::OpenSession, ReplyModel::Unit),
                Step::Ask(RequestModel::ReadBranch(id), ReplyModel::Branch(branch)),
                Step::Ask(RequestModel::ReadDefaultTarget, ReplyModel::Target(target)),
                Step::Ask(RequestModel::ListRemoteBranches, ReplyModel::RemoteBranches(remotes)),
            ] + push_steps(
                branch,
                RemoteBranchModel { remote: target.branch.remote, branch: name },
                force,
            ),
            None,
        ),
{
    broadcast use lemma_told;

    let remote = RemoteBranchModel { remote: target.branch.remote, branch: name };
    upstream_is_the_slug(target, branch.name);
    reveal_strlit("-");
    assert("-"@ =~= seq!['-']);
    assert(lower_names(remotes) =~= Seq::new(
        remotes.len(),
        |i: int| lowercase(remotes[i].branch),
    ));
    reveal_with_fuel(after, 5);
    reveal_with_fuel(goes_through, 5);
    let steps = push_steps(branch, remote, force);
    assert(comes_to(|s: Seq<ReplyModel>| push_to_flow(s, branch, remote, force), steps, None));
    lemma_goes_on(
        |s: Seq<ReplyModel>| push_flow(s, id, force),
        |s: Seq<ReplyModel>| push_to_flow(s, branch, remote, force),
        seq![
            Step::Ask(RequestModel::OpenSession, ReplyModel::Unit),
            Step::Ask(RequestModel::ReadBranch(id), ReplyModel::Branch(branch)),
            Step::Ask(RequestModel::ReadDefaultTarget, ReplyModel::Target(target)),
            Step::Ask(RequestModel::ListRemoteBranches, ReplyModel::RemoteBranches(remotes)),
        ],
        steps,
    );
}

/// A branch needs to be pushed by force where the commit upstream is not what the branch has in
/// common with it. Where no such reference is found it does not.
pub proof fn force_is_needed_where_upstream_has_more(
    branch: BranchModel,
    upstream: RemoteBranchModel,
    found: Oid,
    commit: CommitModel,
    base: Oid,
    failure: FailureModel,
)
    requires
        branch.upstream == Some(upstream),
    ensures
        comes_to(
            |s: Seq<ReplyModel>| is_requires_force_flow(s, branch),
            seq![
                Step::Ask(RequestModel::FindReference(upstream.refname()), ReplyModel::Oid(found)),
                Step::Ask(RequestModel::FindCommit(found), ReplyModel::Commit(commit)),
                Step::Ask(RequestModel::MergeBase(commit.id, branch.head), ReplyModel::Oid(base)),
            ],
            base != commit.id,
        ),
        failure.kind == FailureKind::NotFound ==> comes_to(
            |s: Seq<ReplyModel>| is_requires_force_flow(s, branch),
            seq![
                Step::Ask(
                    RequestModel::FindReference(upstream.refname()),
                    ReplyModel::Failed(failure),
                ),
            ],
            false,
        ),
        failure.kind != FailureKind::NotFound ==> fails_with(
            |s: Seq<ReplyModel>| is_requires_force_flow(s, branch),
            seq![
                Step::Ask(
                    RequestModel::FindReference(upstream.refname()),
                    ReplyModel::Failed(failure),
                ),
            ],
            BranchErrorModel::Outside(failure),
        ),
{
    broadcast use lemma_told;

    reveal_with_fuel(after, 5);
    reveal_with_fuel(goes_through, 5);
}

/// The steps with which it is found out what the target has upstream.
pub open spec fn integrated_begins(
    target: TargetModel,
    found: Option<Oid>,
    head: CommitModel,
    ids: Seq<Oid>,
) -> Seq<Step> {
    seq![
        Step::Ask(RequestModel::FindBranch(target.branch.refname()), ReplyModel::MaybeOid(found)),
        Step::Ask(RequestModel::PeelBranch(target.branch.refname()), ReplyModel::Commit(head)),
        Step::Ask(RequestModel::LogIds { from: head.id, until: target.sha }, ReplyModel::Oids(ids)),
    ]
}

/// A commit is integrated where it is one of those that the target's branch has upstream beyond the
/// target, or where it lies below the target. The target itself is not, nor is any commit where there
/// is nothing new upstream.
pub proof fn a_commit_that_is_upstream_is_integrated(
    target: TargetModel,
    commit: CommitModel,
    found: Option<Oid>,
    head: CommitModel,
    ids: Seq<Oid>,
)
    ensures
        target.sha == commit.id || ids.len() == 0 ==> comes_to(
            |s: Seq<ReplyModel>| is_commit_integrated_flow(s, target, commit),
            integrated_begins(target, found, head, ids),
            false,
        ),
        target.sha != commit.id && ids.contains(commit.id) ==> comes_to(
            |s: Seq<ReplyModel>| is_commit_integrated_flow(s, target, commit),
            integrated_begins(target, found, head, ids),
            true,
        ),
        target.sha != commit.id && ids.len() > 0 && !ids.contains(commit.id) ==> comes_to(
            |s: Seq<ReplyModel>| is_commit_integrated_flow(s, target, commit),
            integrated_begins(target, found, head, ids) + seq![
                Step::Ask(RequestModel::MergeBase(target.sha, commit.id), ReplyModel::Oid(commit.id)),
            ],
            true,
        ),
{
    broadcast use lemma_told;

    reveal_with_fuel(after, 6);
    reveal_with_fuel(goes_through, 6);
}

/// Any other commit is integrated just where merging its tree into that at the head upstream, on the
/// base of what it has in common with the target, is free of conflicts and changes nothing there.
pub proof fn a_commit_that_adds_nothing_is_integrated(
    target: TargetModel,
    commit: CommitModel,
    found: Option<Oid>,
    head: CommitModel,
    ids: Seq<Oid>,
    base: Oid,
    base_commit: CommitModel,
    upstream: CommitModel,
    index: MergeIndex,
    tree: Oid,
)
    requires
        target.sha != commit.id,
        ids.len() > 0,
        !ids.contains(commit.id),
        base != commit.id,
    ensures
        ({
            let steps = integrated_begins(target, found, head, ids) + seq![
                Step::Ask(RequestModel::MergeBase(target.sha, commit.id), ReplyModel::Oid(base)),
                Step::Ask(RequestModel::FindCommit(base), ReplyModel::Commit(base_commit)),
                Step::Ask(RequestModel::FindCommit(head.id), ReplyModel::Commit(upstream)),
                Step::Ask(
                    RequestModel::MergeTrees {
                        base: base_commit.tree,
                        ours: upstream.tree,
                        theirs: commit.tree,
                    },
                    ReplyModel::Index(index),
                ),
            ];
            if index.conflicted {
                comes_to(|s: Seq<ReplyModel>| is_commit_integrated_flow(s, target, commit), steps, false)
            } else {
                comes_to(
                    |s: Seq<ReplyModel>| is_commit_integrated_flow(s, target, commit),
                    steps + seq![Step::Ask(RequestModel::WriteIndex(index.handle), ReplyModel::Oid(tree))],
                    tree == upstream.tree,
                )
            }
        }),
{
    broadcast use lemma_told;

    reveal_with_fuel(after, 9);
    reveal_with_fuel(goes_through, 9);
}

/// A remote branch can be merged just where merging its tree with that of the working directory, on
/// the base of what it has in common with the target, is free of conflicts.
pub proof fn a_remote_branch_is_merged_with_the_workdir(
    name: Seq<char>,
    target: TargetModel,
    target_commit: CommitModel,
    found: Oid,
    commit: CommitModel,
    base: Oid,
    base_commit: CommitModel,
    workdir: Oid,
    index: MergeIndex,
)
    ensures
        comes_to(
            |s: Seq<ReplyModel>| is_remote_branch_mergeable_flow(s, name),
            seq![
                Step::Ask(RequestModel::OpenSession, ReplyModel::Unit),
                Step::Ask(RequestModel::ReadDefaultTarget, ReplyModel::Target(target)),
                Step::Ask(RequestModel::FindCommit(target.sha), ReplyModel::Commit(target_commit)),
                Step::Ask(RequestModel::FindBranch(name), ReplyModel::MaybeOid(Some(found))),
                Step::Ask(RequestModel::FindCommit(found), ReplyModel::Commit(commit)),
                Step::Ask(
                    RequestModel::MergeBase(target_commit.id, commit.id),
                    ReplyModel::Oid(base),
                ),
                Step::Ask(RequestModel::FindCommit(base), ReplyModel::Commit(base_commit)),
                Step::Ask(RequestModel::WorkdirTree, ReplyModel::Oid(workdir)),
                Step::Ask(
                    RequestModel::MergeTrees {
                        base: base_commit.tree,
                        ours: commit.tree,
                        theirs: workdir,
                    },
                    ReplyModel::Index(index),
                ),
            ],
            !index.conflicted,
        ),
        fails_with(
            |s: Seq<ReplyModel>| is_remote_branch_mergeable_flow(s, name),
            seq![
                Step::Ask(RequestModel::OpenSession, ReplyModel::Unit),
                Step::Ask(RequestModel::ReadDefaultTarget, ReplyModel::Target(target)),
                Step::Ask(RequestModel::FindCommit(target.sha), ReplyModel::Commit(target_commit)),
                Step::Ask(RequestModel::FindBranch(name), ReplyModel::MaybeOid(None)),
            ],
            BranchErrorModel::DetachedHead,
        ),
{
    broadcast use lemma_told;

    reveal_with_fuel(after, 11);
    reveal_with_fuel(goes_through, 11);
}

/// An unapplied branch can be merged just where it is up to date with the target and merging its
/// tree with that of the working directory, on the base of what it has in common with the target, is
/// free of conflicts.
pub proof fn a_virtual_branch_is_merged_with_the_workdir(
    id: BranchId,
    branch: BranchModel,
    target: TargetModel,
    behind: Oid,
    head: CommitModel,
    target_commit: CommitModel,
    base: Oid,
    base_commit: CommitModel,
    workdir: Oid,
    index: MergeIndex,
)
    requires
        !branch.applied,
        behind != target.sha,
    ensures
        comes_to(
            |s: Seq<ReplyModel>| is_virtual_branch_mergeable_flow(s, id),
            seq![
                Step::Ask(RequestModel::OpenSession, ReplyModel::Unit),
                Step::Ask(RequestModel::ReadBranch(id), ReplyModel::Branch(branch)),
                Step::Ask(RequestModel::ReadDefaultTarget, ReplyModel::Target(target)),
                Step::Ask(
                    RequestModel::MergeBase(target.sha, branch.head),
                    ReplyModel::Oid(behind),
                ),
            ],
            false,
        ),
        comes_to(
            |s: Seq<ReplyModel>| is_virtual_branch_mergeable_flow(s, id),
            seq![
                Step::Ask(RequestModel::OpenSession, ReplyModel::Unit),
                Step::Ask(RequestModel::ReadBranch(id), ReplyModel::Branch(branch)),
                Step::Ask(RequestModel::ReadDefaultTarget, ReplyModel::Target(target)),
                Step::Ask(
                    RequestModel::MergeBase(target.sha, branch.head),
                    ReplyModel::Oid(target.sha),
                ),
                Step::Ask(RequestModel::FindCommit(branch.head), ReplyModel::Commit(head)),
                Step::Ask(RequestModel::FindCommit(target.sha), ReplyModel::Commit(target_commit)),
                Step::Ask(
                    RequestModel::MergeBase(target_commit.id, head.id),
                    ReplyModel::Oid(base),
                ),
                Step::Ask(RequestModel::FindCommit(base), ReplyModel::Commit(base_commit)),
                Step::Ask(RequestModel::WorkdirTree, ReplyModel::Oid(workdir)),
                Step::Ask(RequestModel::FindTree(branch.tree), ReplyModel::Unit),
                Step::Ask(
                    RequestModel::MergeTrees {
                        base: base_commit.tree,
                        ours: branch.tree,
                        theirs: workdir,
                    },
                    ReplyModel::Index(index),
                ),
            ],
            !index.conflicted,
        ),
{
    broadcast use lemma_told;

    reveal_with_fuel(after, 13);
    reveal_with_fuel(goes_through, 13);
}

} // verus!
