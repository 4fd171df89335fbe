//! What is asked for, step by step, when branches, commits and files are shown, and what is shown of
//! them.

use crate::author::author_of;
use crate::branch::{BranchModel, CommitModel, RemoteBranchInfo, TargetModel};
use crate::dialogue::{
    after, comes_to, goes_through, lemma_goes_on, lemma_goes_through_first, lemma_told, Step,
};
use crate::diff::FileDiffModel;
use crate::files::{diffs_to_virtual_files_flow, list_virtual_commit_files_flow};
use crate::listing::{
    all_with_locks, branch_facts_flow, by_ownership, commit_to_vbranch_commit_flow, in_order,
    list_virtual_branches_flow, show_branch_flow, show_branches_flow, show_commits_flow,
    BranchFactsModel,
};
use crate::merge::{is_commit_integrated_flow, is_requires_force_flow};
use crate::naming::RemoteBranchModel;
use crate::objects::Oid;
use crate::presentation::{VirtualBranchModel, VirtualCommitModel, VirtualFileModel};
use crate::protocol::{
    fail, BranchErrorModel, FailureKind, FailureModel, Flow, ReplyModel, RequestModel,
};
use crate::seqs::sorting_orders_the_elements;
use crate::status::{get_status_by_branch_flow, BranchStatusModel};
use crate::unapplying::parts_from;
use crate::uncommitted::calculate_non_commited_diffs_flow;
use vstd::prelude::*;

verus! {

/// The files that a commit changes are what differs from the tree of its first parent to its own, in
/// that direction. A commit without parents changes none.
pub proof fn a_commit_changes_what_differs_from_its_parent(
    commit: CommitModel,
    parent: CommitModel,
    diffs: Seq<FileDiffModel>,
    shown: Seq<ReplyModel>,
    files: Seq<VirtualFileModel>,
)
    requires
        forall|more: Seq<ReplyModel>| #[trigger]
            diffs_to_virtual_files_flow(shown + more, diffs) == Flow::Done(files, more),
    ensures
        commit.parents.len() == 0 ==> comes_to(
            |s: Seq<ReplyModel>| list_virtual_commit_files_flow(s, commit),
            seq![],
            seq![],
        ),
        commit.parents.len() > 0 ==> comes_to(
            |s: Seq<ReplyModel>| list_virtual_commit_files_flow(s, commit),
            seq![
                Step::Ask(RequestModel::FindCommit(commit.parents[0]), ReplyModel::Commit(parent)),
                Step::Ask(
                    RequestModel::DiffTrees(parent.tree, commit.tree),
                    ReplyModel::Diffs(diffs),
                ),
                Step::Part(shown),
            ],
            files,
        ),
{
    broadcast use lemma_told;

    reveal_with_fuel(after, 5);
    reveal_with_fuel(goes_through, 5);
}

/// A commit is shown with its id, its message, its author, the time when it was made in
/// milliseconds, the files that it changes, and whether it is integrated. It counts as pushed where
/// it is one of those that were, or where these are not known.
pub proof fn a_commit_is_shown_as_it_is(
    target: TargetModel,
    commit: CommitModel,
    pushed: Option<Seq<Oid>>,
    message: Seq<char>,
    listed: Seq<ReplyModel>,
    files: Seq<VirtualFileModel>,
    compared: Seq<ReplyModel>,
    is_integrated: bool,
)
    requires
        commit.seconds >= 0,
        commit.message == Some(message),
        forall|more: Seq<ReplyModel>| #[trigger]
            list_virtual_commit_files_flow(listed + more, commit) == Flow::Done(files, more),
        forall|more: Seq<ReplyModel>| #[trigger]
            is_commit_integrated_flow(compared + more, target, commit) == Flow::Done(
                is_integrated,
                more,
            ),
    ensures
        comes_to(
            |s: Seq<ReplyModel>| commit_to_vbranch_commit_flow(s, target, commit, pushed),
            seq![Step::Part(listed), Step::Part(compared)],
            VirtualCommitModel {
                id: commit.id,
                description: message,
                created_at: (commit.seconds * 1000) as u128,
                author: author_of(commit.author),
                is_remote: pushed is None || pushed->0.contains(commit.id),
                files,
                is_integrated,
            },
        ),
{
    reveal_with_fuel(after, 4);
    reveal_with_fuel(goes_through, 4);
}

/// A commit from before 1970 is not shown, nor is one whose message is no text.
pub proof fn odd_commits_are_refused(
    s: Seq<ReplyModel>,
    target: TargetModel,
    commit: CommitModel,
    pushed: Option<Seq<Oid>>,
)
    ensures
        commit.seconds < 0 ==> commit_to_vbranch_commit_flow(s, target, commit, pushed)
            == fail::<VirtualCommitModel>(BranchErrorModel::TimeBefore1970),
        commit.seconds >= 0 && commit.message is None ==> commit_to_vbranch_commit_flow(
            s,
            target,
            commit,
            pushed,
        ) == fail::<VirtualCommitModel>(BranchErrorModel::MessageNotUtf8),
{
}

/// Whether some replies show a commit.
pub open spec fn shows_commit_by(
    replies: Seq<ReplyModel>,
    target: TargetModel,
    commit: CommitModel,
    pushed: Option<Seq<Oid>>,
    shown: VirtualCommitModel,
) -> bool {
    forall|more: Seq<ReplyModel>| #[trigger]
        commit_to_vbranch_commit_flow(replies + more, target, commit, pushed) == Flow::Done(
            shown,
            more,
        )
}

proof fn lemma_show_commits(
    target: TargetModel,
    log: Seq<CommitModel>,
    pushed: Seq<Oid>,
    parts: Seq<Seq<ReplyModel>>,
    shown: Seq<VirtualCommitModel>,
    i: int,
)
    requires
        0 <= i <= log.len(),
        parts.len() == log.len(),
        shown.len() == log.len(),
        forall|k: int|
            0 <= k < log.len() ==> shows_commit_by(
                parts[k],
                target,
                #[trigger] log[k],
                Some(pushed),
                shown[k],
            ),
    ensures
        comes_to(
            |s: Seq<ReplyModel>| show_commits_flow(s, target, log, pushed, shown.take(i)),
            parts_from(parts, i),
            shown,
        ),
    decreases log.len() - i,
{
    if i < log.len() {
        assert(shows_commit_by(parts[i], target, log[i], Some(pushed), shown[i]));
        assert(shown.take(i).push(shown[i]) =~= shown.take(i + 1));
        lemma_show_commits(target, log, pushed, parts, shown, i + 1);
        reveal_with_fuel(after, 2);
        reveal_with_fuel(goes_through, 2);
        lemma_goes_on(
            |s: Seq<ReplyModel>| show_commits_flow(s, target, log, pushed, shown.take(i)),
            |s: Seq<ReplyModel>| show_commits_flow(s, target, log, pushed, shown.take(i + 1)),
            seq![Step::Part(parts[i])],
            parts_from(parts, i + 1),
        );
    } else {
        assert(shown.take(i) =~= shown);
    }
}

/// Every commit of a branch is shown, one after the other, each with whether it was pushed.
pub proof fn every_commit_is_shown(
    target: TargetModel,
    log: Seq<CommitModel>,
    pushed: Seq<Oid>,
    parts: Seq<Seq<ReplyModel>>,
    shown: Seq<VirtualCommitModel>,
)
    requires
        parts.len() == log.len(),
        shown.len() == log.len(),
        forall|k: int|
            0 <= k < log.len() ==> shows_commit_by(
                parts[k],
                target,
                #[trigger] log[k],
                Some(pushed),
                shown[k],
            ),
    ensures
        comes_to(
            |s: Seq<ReplyModel>| show_commits_flow(s, target, log, pushed, seq![]),
            parts_from(parts, 0),
            shown,
        ),
{
    assert(shown.take(0) =~= seq![]);
    lemma_show_commits(target, log, pushed, parts, shown, 0);
}

/// The steps that find out what is upstream of a branch: the commit there, and which commits it has
/// that the target has not.
pub open spec fn upstream_steps(
    upstream: RemoteBranchModel,
    target: TargetModel,
    found: Option<Oid>,
    commit: CommitModel,
    base: Oid,
    pushed: Seq<Oid>,
) -> Seq<Step> {
    seq![
        Step::Ask(RequestModel::FindBranch(upstream.refname()), ReplyModel::MaybeOid(found)),
        Step::Ask(RequestModel::PeelBranch(upstream.refname()), ReplyModel::Commit(commit)),
        Step::Ask(RequestModel::MergeBase(commit.id, target.sha), ReplyModel::Oid(base)),
        Step::Ask(RequestModel::LogIds { from: commit.id, until: base }, ReplyModel::Oids(pushed)),
    ]
}

/// The steps that find the commits of a branch: those from its head on that the target has not.
pub open spec fn commits_steps(
    branch: BranchModel,
    target: TargetModel,
    log: Seq<CommitModel>,
    shown: Seq<ReplyModel>,
) -> Seq<Step> {
    seq![
        Step::Ask(
            RequestModel::Log { from: branch.head, until: target.sha },
            ReplyModel::Commits(log),
        ),
        Step::Part(shown),
    ]
}

/// The steps that find out whether a branch is up to date: nothing is asked of an applied one.
pub open spec fn current_steps(branch: BranchModel, target: TargetModel, base: Oid) -> Seq<Step> {
    if branch.applied {
        seq![]
    } else {
        seq![Step::Ask(RequestModel::MergeBase(target.sha, branch.head), ReplyModel::Oid(base))]
    }
}

/// Whether some replies show some commits.
pub open spec fn shows_commits(
    shown: Seq<ReplyModel>,
    target: TargetModel,
    log: Seq<CommitModel>,
    pushed: Seq<Oid>,
    commits: Seq<VirtualCommitModel>,
) -> bool {
    forall|more: Seq<ReplyModel>| #[trigger]
        show_commits_flow(shown + more, target, log, pushed, seq![]) == Flow::Done(commits, more)
}

/// The commits of a branch without an upstream branch are those from its head on that the target has
/// not, and none counts as pushed. It is up to date where it is applied, or where the target is what
/// it has in common with the target.
pub proof fn a_branch_has_the_commits_that_the_target_has_not(
    target: TargetModel,
    branch: BranchModel,
    log: Seq<CommitModel>,
    shown: Seq<ReplyModel>,
    commits: Seq<VirtualCommitModel>,
    base: Oid,
)
    requires
        branch.upstream is None,
        shows_commits(shown, target, log, seq![], commits),
    ensures
        comes_to(
            |s: Seq<ReplyModel>| branch_facts_flow(s, target, branch),
            commits_steps(branch, target, log, shown) + current_steps(branch, target, base),
            BranchFactsModel {
                commits,
                base_current: branch.applied || base == target.sha,
                upstream: None,
            },
        ),
{
    broadcast use lemma_told;

    reveal_with_fuel(after, 5);
    reveal_with_fuel(goes_through, 5);
}

/// Where an upstream branch is found, the commits count as pushed that it has and that the target has
/// not, and the upstream branch is described as seen from the head of the branch.
#[verifier::rlimit(60)]
pub proof fn what_is_upstream_counts_as_pushed(
    target: TargetModel,
    branch: BranchModel,
    upstream: RemoteBranchModel,
    found: Option<Oid>,
    commit: CommitModel,
    common: Oid,
    pushed: Seq<Oid>,
    log: Seq<CommitModel>,
    shown: Seq<ReplyModel>,
    commits: Seq<VirtualCommitModel>,
    base: Oid,
    remote: Option<RemoteBranchInfo>,
)
    requires
        branch.upstream == Some(upstream),
        shows_commits(shown, target, log, pushed, commits),
    ensures
        comes_to(
            |s: Seq<ReplyModel>| branch_facts_flow(s, target, branch),
            upstream_steps(upstream, target, found, commit, common, pushed) + (commits_steps(
                branch, target, log, shown,
            ) + (current_steps(branch, target, base) + seq![
                Step::Ask(
                    RequestModel::DescribeRemote { name: upstream.refname(), head: branch.head },
                    ReplyModel::Remote(remote),
                ),
            ])),
            BranchFactsModel {
                commits,
                base_current: branch.applied || base == target.sha,
                upstream: remote,
            },
        ),
{
    broadcast use lemma_told;

    reveal_with_fuel(after, 9);
    reveal_with_fuel(goes_through, 9);
}

/// Where the upstream branch is not found, no commit counts as pushed, and nothing is said of it.
pub proof fn an_upstream_branch_that_is_gone_has_nothing_pushed(
    target: TargetModel,
    branch: BranchModel,
    upstream: RemoteBranchModel,
    failure: FailureModel,
    log: Seq<CommitModel>,
    shown: Seq<ReplyModel>,
    commits: Seq<VirtualCommitModel>,
    base: Oid,
)
    requires
        branch.upstream == Some(upstream),
        failure.kind == FailureKind::NotFound,
        shows_commits(shown, target, log, seq![], commits),
    ensures
        comes_to(
            |s: Seq<ReplyModel>| branch_facts_flow(s, target, branch),
            seq![Step::Ask(RequestModel::FindBranch(upstream.refname()), ReplyModel::Failed(failure))] + (
            commits_steps(branch, target, log, shown) + current_steps(branch, target, base)),
            BranchFactsModel {
                commits,
                base_current: branch.applied || base == target.sha,
                upstream: None,
            },
        ),
{
    broadcast use lemma_told;

    reveal_with_fuel(after, 6);
    reveal_with_fuel(goes_through, 6);
}

/// A branch is shown with what it has not committed yet, in the order in which it owns the files,
/// with its commits and what is upstream, and with whether it has to be pushed by force. An applied
/// branch is active, and it is in a conflicted state while conflicts are being resolved.
pub proof fn a_branch_is_shown_as_it_is(
    target: TargetModel,
    status: BranchStatusModel,
    found: Seq<ReplyModel>,
    diffs: Seq<FileDiffModel>,
    looked: Seq<ReplyModel>,
    facts: BranchFactsModel,
    shown: Seq<ReplyModel>,
    files: Seq<VirtualFileModel>,
    compared: Seq<ReplyModel>,
    requires_force: bool,
    resolving: bool,
)
    requires
        forall|more: Seq<ReplyModel>| #[trigger]
            calculate_non_commited_diffs_flow(found + more, status.branch, target, status.files)
                == Flow::Done(diffs, more),
        forall|more: Seq<ReplyModel>| #[trigger]
            branch_facts_flow(looked + more, target, status.branch) == Flow::Done(facts, more),
        forall|more: Seq<ReplyModel>| #[trigger]
            diffs_to_virtual_files_flow(shown + more, diffs) == Flow::Done(files, more),
        forall|more: Seq<ReplyModel>| #[trigger]
            is_requires_force_flow(compared + more, status.branch) == Flow::Done(
                requires_force,
                more,
            ),
    ensures
        comes_to(
            |s: Seq<ReplyModel>| show_branch_flow(s, target, status),
            seq![
                Step::Part(found),
                Step::Part(looked),
                Step::Part(shown),
                Step::Part(compared),
                Step::Ask(RequestModel::IsResolving, ReplyModel::Flag(resolving)),
            ],
            VirtualBranchModel {
                id: status.branch.id,
                name: status.branch.name,
                notes: status.branch.notes,
                active: status.branch.applied,
                files: all_with_locks(by_ownership(files, status.branch.ownership), status.files),
                commits: facts.commits,
                requires_force,
                conflicted: status.branch.applied && resolving,
                order: status.branch.order,
                upstream: facts.upstream,
                base_current: facts.base_current,
                ownership: status.branch.ownership,
            },
        ),
{
    broadcast use lemma_told;

    reveal_with_fuel(after, 6);
    reveal_with_fuel(goes_through, 6);
}

/// Whether some replies show a branch.
pub open spec fn shows_branch(
    replies: Seq<ReplyModel>,
    target: TargetModel,
    status: BranchStatusModel,
    shown: VirtualBranchModel,
) -> bool {
    forall|more: Seq<ReplyModel>| #[trigger]
        show_branch_flow(replies + more, target, status) == Flow::Done(shown, more)
}

proof fn lemma_show_branches(
    target: TargetModel,
    statuses: Seq<BranchStatusModel>,
    parts: Seq<Seq<ReplyModel>>,
    shown: Seq<VirtualBranchModel>,
    i: int,
)
    requires
        0 <= i <= statuses.len(),
        parts.len() == statuses.len(),
        shown.len() == statuses.len(),
        forall|k: int|
            0 <= k < statuses.len() ==> shows_branch(
                parts[k],
                target,
                #[trigger] statuses[k],
                shown[k],
            ),
    ensures
        comes_to(
            |s: Seq<ReplyModel>| show_branches_flow(s, target, statuses, shown.take(i)),
            parts_from(parts, i),
            shown,
        ),
    decreases statuses.len() - i,
{
    if i < statuses.len() {
        assert(shows_branch(parts[i], target, statuses[i], shown[i]));
        assert(shown.take(i).push(shown[i]) =~= shown.take(i + 1));
        lemma_show_branches(target, statuses, parts, shown, i + 1);
        reveal_with_fuel(after, 2);
        reveal_with_fuel(goes_through, 2);
        lemma_goes_on(
            |s: Seq<ReplyModel>| show_branches_flow(s, target, statuses, shown.take(i)),
            |s: Seq<ReplyModel>| show_branches_flow(s, target, statuses, shown.take(i + 1)),
            seq![Step::Part(parts[i])],
            parts_from(parts, i + 1),
        );
    } else {
        assert(shown.take(i) =~= shown);
    }
}

/// A listing shows every branch that has a status, each of them once, in their order.
pub proof fn every_branch_with_a_status_is_listed(
    target: TargetModel,
    listed: Seq<ReplyModel>,
    statuses: Seq<BranchStatusModel>,
    parts: Seq<Seq<ReplyModel>>,
    shown: Seq<VirtualBranchModel>,
)
    requires
        forall|more: Seq<ReplyModel>| #[trigger]
            get_status_by_branch_flow(listed + more) == Flow::Done(statuses, more),
        parts.len() == statuses.len(),
        shown.len() == statuses.len(),
        forall|k: int|
            0 <= k < statuses.len() ==> shows_branch(
                parts[k],
                target,
                #[trigger] statuses[k],
                shown[k],
            ),
    ensures
        comes_to(
            |s: Seq<ReplyModel>| list_virtual_branches_flow(s),
            seq![
                Step::Ask(RequestModel::OpenSession, ReplyModel::Unit),
                Step::Ask(RequestModel::ReadDefaultTarget, ReplyModel::Target(target)),
                Step::Part(listed),
            ] + parts_from(parts, 0),
            in_order(shown),
        ),
        in_order(shown).to_multiset() == shown.to_multiset(),
{
    broadcast use lemma_told;

    sorting_orders_the_elements(shown, |b: VirtualBranchModel| b.order as int);
    assert(shown.take(0) =~= seq![]);
    lemma_show_branches(target, statuses, parts, shown, 0);
    let steps = parts_from(parts, 0);
    let showing = |s: Seq<ReplyModel>| show_branches_flow(s, target, statuses, shown.take(0));
    let whole = |s: Seq<ReplyModel>|
        show_branches_flow(s, target, statuses, seq![]).and_then(
            |shown: Seq<VirtualBranchModel>, s: Seq<ReplyModel>| Flow::Done(in_order(shown), s),
        );
    lemma_goes_through_first(showing, whole, steps);
    assert forall|s: Seq<ReplyModel>| #[trigger]
        whole(after(steps, s)) == Flow::Done(in_order(shown), s) by {
        assert(showing(after(steps, s)) == Flow::Done(shown, s));
    }
    reveal_with_fuel(after, 4);
    reveal_with_fuel(goes_through, 4);
    lemma_goes_on(
        |s: Seq<ReplyModel>| list_virtual_branches_flow(s),
        whole,
        seq![
            Step::Ask(RequestModel::OpenSession, ReplyModel::Unit),
            Step::Ask(RequestModel::ReadDefaultTarget, ReplyModel::Target(target)),
            Step::Part(listed),
        ],
        steps,
    );
}

} // verus!
