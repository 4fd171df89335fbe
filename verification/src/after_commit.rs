//! What a listing shows right after a commit.

use crate::apply::status_of;
use crate::branch::{BranchModel, CommitModel, TargetModel};
use crate::commit::{commit_files_flow, commit_flow, create_commit_flow, to_commit};
use crate::create::by_order;
use crate::diff::FileDiffModel;
use crate::listing::{
    branch_facts_flow, commit_to_vbranch_commit_flow, find_upstream_flow, in_order,
    list_virtual_branches_flow, place_among, pushed_commits_flow, show_branch_flow,
    show_branches_flow, show_commits_flow,
};
use crate::objects::{BranchId, Oid};
use crate::presentation::{VirtualBranchModel, VirtualCommitModel, VirtualFileModel};
use crate::protocol::{ask_commits, Flow, ReplyModel, RequestModel, StopModel};
use crate::seqs::sorting_orders_the_elements;
use crate::session::applied_only;
use crate::sharing::{every_branch_has_a_status, same_but_ownership};
use crate::status::{get_applied_status_flow, get_status_by_branch_flow, BranchStatusModel};
use crate::tree::{write_tree_flow, write_tree_onto_commit_flow};
use crate::uncommitted::calculate_non_commited_diffs_flow;
use vstd::prelude::*;

verus! {

/// Once all is committed nothing is left: where the hunks of an applied branch make just the tree
/// of its head, and that tree does not differ from itself, the branch is shown without files.
pub proof fn nothing_is_left_once_all_is_committed(
    s: Seq<ReplyModel>,
    target: TargetModel,
    status: BranchStatusModel,
    head: CommitModel,
    rest: Seq<ReplyModel>,
)
    requires
        status.branch.applied,
        write_tree_flow(s, target, status.files) == Flow::Done(
            head.tree,
            seq![ReplyModel::Unit, ReplyModel::Commit(head)] + rest,
        ),
        rest.len() > 0,
        rest[0] == ReplyModel::Diffs(seq![]),
    ensures
        show_branch_flow(s, target, status) matches Flow::Done(shown, _) ==> shown.files.len()
            == 0,
{
    let all = seq![ReplyModel::Unit, ReplyModel::Commit(head)] + rest;
    assert(all.drop_first().drop_first() =~= rest);
    sorting_orders_the_elements(
        Seq::<VirtualFileModel>::empty(),
        |f: VirtualFileModel| place_among(status.branch.ownership, f.path),
    );
}

proof fn lemma_show_commits(
    s: Seq<ReplyModel>,
    target: TargetModel,
    commits: Seq<CommitModel>,
    pushed: Seq<Oid>,
    shown: Seq<VirtualCommitModel>,
)
    requires
        shown.len() <= commits.len(),
        forall|k: int|
            0 <= k < shown.len() ==> (#[trigger] shown[k]).id == commits[k].id && Some(
                shown[k].description,
            ) == commits[k].message,
    ensures
        show_commits_flow(s, target, commits, pushed, shown) matches Flow::Done(r, _) ==> {
            &&& r.len() == commits.len()
            &&& forall|k: int|
                0 <= k < r.len() ==> (#[trigger] r[k]).id == commits[k].id && Some(
                    r[k].description,
                ) == commits[k].message
        },
    decreases commits.len() - shown.len(),
{
    if shown.len() < commits.len() {
        let commit = commits[shown.len() as int];
        if let Flow::Done(next, rest) = commit_to_vbranch_commit_flow(
            s,
            target,
            commit,
            Some(pushed),
        ) {
            lemma_show_commits(rest, target, commits, pushed, shown.push(next));
        }
    }
}

/// The commits of a branch are shown in the order in which they are found, each with its message.
pub proof fn commits_are_shown_as_they_are_found(
    s: Seq<ReplyModel>,
    target: TargetModel,
    commits: Seq<CommitModel>,
    pushed: Seq<Oid>,
)
    ensures
        show_commits_flow(s, target, commits, pushed, seq![]) matches Flow::Done(r, _) ==> {
            &&& r.len() == commits.len()
            &&& forall|k: int|
                0 <= k < r.len() ==> (#[trigger] r[k]).id == commits[k].id && Some(
                    r[k].description,
                ) == commits[k].message
        },
{
    lemma_show_commits(s, target, commits, pushed, seq![]);
}

/// The status of the branch that is committed to, by the replies to a commit.
pub open spec fn status_at_commit(s: Seq<ReplyModel>, id: BranchId) -> BranchStatusModel {
    let statuses = get_status_by_branch_flow(s.drop_first())->Done_0;
    statuses[status_of(statuses, id)]
}

/// The target, by the replies to a commit.
pub open spec fn target_at_commit(s: Seq<ReplyModel>) -> TargetModel {
    s[0]->MaybeTarget_0->0
}

/// The tree that the hunks of the branch make, which a commit compares with the head, by the
/// replies to the commit.
pub open spec fn compared_tree(s: Seq<ReplyModel>, id: BranchId) -> Oid {
    let rest = get_status_by_branch_flow(s.drop_first())->Done_1;
    write_tree_flow(rest, target_at_commit(s), status_at_commit(s, id).files)->Done_0
}

/// How finding what is to be committed comes out, by the replies to a commit.
pub open spec fn to_be_committed(s: Seq<ReplyModel>, id: BranchId) -> Flow<Seq<FileDiffModel>> {
    let rest = get_status_by_branch_flow(s.drop_first())->Done_1;
    let status = status_at_commit(s, id);
    calculate_non_commited_diffs_flow(rest, status.branch, target_at_commit(s), status.files)
}

/// The tree that is committed when everything is, by the replies to the commit.
pub open spec fn committed_tree(s: Seq<ReplyModel>, id: BranchId) -> Oid {
    let found = to_be_committed(s, id);
    write_tree_onto_commit_flow(
        found->Done_1.drop_first(),
        status_at_commit(s, id).branch.head,
        to_commit(found->Done_0, None),
    )->Done_0
}

/// The branch that a commit of everything stores, by the replies to the commit.
pub open spec fn committed_branch(s: Seq<ReplyModel>, id: BranchId, oid: Oid) -> BranchModel {
    BranchModel {
        tree: committed_tree(s, id),
        head: oid,
        ..status_at_commit(s, id).branch
    }
}

/// Once the commit of everything has been made, the branch is stored with its tree and with it as
/// the head, and nothing else of it changes.
pub proof fn a_commit_of_everything_is_stored(
    s: Seq<ReplyModel>,
    id: BranchId,
    message: Seq<char>,
    signed: bool,
    parent: CommitModel,
    rest: Seq<ReplyModel>,
    oid: Oid,
)
    requires
        s.len() > 0,
        s[0] == ReplyModel::MaybeTarget(Some(target_at_commit(s))),
        get_status_by_branch_flow(s.drop_first()) matches Flow::Done(statuses, _) && status_of(
            statuses,
            id,
        ) < statuses.len(),
        to_be_committed(s, id) matches Flow::Done(files, left) && left.len() > 0 && left[0]
            == ReplyModel::Flag(false) && write_tree_onto_commit_flow(
            left.drop_first(),
            status_at_commit(s, id).branch.head,
            to_commit(files, None),
        ) == Flow::Done(
            committed_tree(s, id),
            seq![ReplyModel::Commit(parent), ReplyModel::Unit] + rest,
        ),
        create_commit_flow(
            rest,
            status_at_commit(s, id).branch.head,
            committed_tree(s, id),
            message,
            signed,
        ) == Flow::Done(oid, Seq::<ReplyModel>::empty()),
    ensures
        commit_flow(s, id, message, None, signed) == Flow::<Option<Oid>>::Stop(
            StopModel::Ask(RequestModel::WriteBranch(committed_branch(s, id, oid))),
        ),
{
    let branch = status_at_commit(s, id).branch;
    let found = to_be_committed(s, id);
    let replies = seq![ReplyModel::Commit(parent), ReplyModel::Unit] + rest;
    assert(replies.drop_first().drop_first() =~= rest);
    assert(commit_files_flow(
        found->Done_1.drop_first(),
        branch,
        to_commit(found->Done_0, None),
        message,
        signed,
    ) == Flow::<Oid>::Stop(
        StopModel::Ask(RequestModel::WriteBranch(committed_branch(s, id, oid))),
    ));
}

/// The replies that are left when the `n`th of some branches is shown.
pub open spec fn replies_at(
    s: Seq<ReplyModel>,
    target: TargetModel,
    statuses: Seq<BranchStatusModel>,
    n: int,
) -> Seq<ReplyModel>
    decreases n,
{
    if n <= 0 {
        s
    } else {
        show_branch_flow(
            replies_at(s, target, statuses, n - 1),
            target,
            statuses[n - 1],
        )->Done_1
    }
}

/// What git says when a branch is shown: the tree that its hunks make, the commit at its head, what
/// differs between the two, and the commits of the branch.
pub struct ShownByGit {
    pub made: Oid,
    pub head: CommitModel,
    pub difference: Seq<FileDiffModel>,
    pub log: Seq<CommitModel>,
}

/// What git says when a branch is shown, by the replies.
pub open spec fn shown_by_git(
    s: Seq<ReplyModel>,
    target: TargetModel,
    status: BranchStatusModel,
) -> ShownByGit {
    let made = write_tree_flow(s, target, status.files);
    let rest = calculate_non_commited_diffs_flow(
        s,
        status.branch,
        target,
        status.files,
    )->Done_1;
    let upstream = find_upstream_flow(rest, status.branch);
    let pushed = pushed_commits_flow(upstream->Done_1, target, upstream->Done_0);
    let log = ask_commits(
        pushed->Done_1,
        RequestModel::Log { from: status.branch.head, until: target.sha },
    );
    ShownByGit {
        made: made->Done_0,
        head: made->Done_1[1]->Commit_0,
        difference: made->Done_1[2]->Diffs_0,
        log: log->Done_0,
    }
}

/// Whether what git says at a commit of everything and when the branch is shown then agrees: the
/// tree that is committed is the one that was compared, the hunks make that tree again, it is the
/// tree of the commit at the head, a tree does not differ from itself, and the commits begin with
/// the new one and its message.
pub open spec fn agrees(
    compared: Oid,
    committed: Oid,
    shown: ShownByGit,
    oid: Oid,
    message: Seq<char>,
) -> bool {
    &&& committed == compared
    &&& shown.made == compared
    &&& shown.head.tree == committed
    &&& shown.made == shown.head.tree ==> shown.difference.len() == 0
    &&& shown.log.len() > 0
    &&& shown.log[0].id == oid
    &&& shown.log[0].message == Some(message)
}

/// Whether what git says at a commit of everything, `s`, and at a listing, `t`, agrees wherever the
/// listing shows the branch.
pub open spec fn git_agrees(
    s: Seq<ReplyModel>,
    t: Seq<ReplyModel>,
    id: BranchId,
    target: TargetModel,
    oid: Oid,
    message: Seq<char>,
) -> bool {
    match get_status_by_branch_flow(t.drop_first().drop_first()) {
        Flow::Done(statuses, left) => forall|n: int|
            0 <= n < statuses.len() && (#[trigger] statuses[n]).branch.id == id ==> agrees(
                compared_tree(s, id),
                committed_tree(s, id),
                shown_by_git(replies_at(left, target, statuses, n), target, statuses[n]),
                oid,
                message,
            ),
        Flow::Stop(_) => true,
    }
}

proof fn lemma_show_branches(
    s: Seq<ReplyModel>,
    target: TargetModel,
    statuses: Seq<BranchStatusModel>,
    shown: Seq<VirtualBranchModel>,
    n: int,
)
    requires
        shown.len() <= n < statuses.len(),
    ensures
        show_branches_flow(
            replies_at(s, target, statuses, shown.len() as int),
            target,
            statuses,
            shown,
        ) matches Flow::Done(r, _) ==> {
            &&& r.len() == statuses.len()
            &&& forall|k: int| 0 <= k < shown.len() ==> r[k] == shown[k]
            &&& show_branch_flow(
                replies_at(s, target, statuses, n),
                target,
                statuses[n],
            ) matches Flow::Done(branch, _) && branch == r[n]
        },
    decreases statuses.len() - shown.len(),
{
    let i = shown.len() as int;
    let here = replies_at(s, target, statuses, i);
    if let Flow::Done(branch, rest) = show_branch_flow(here, target, statuses[i]) {
        let next = shown.push(branch);
        assert(replies_at(s, target, statuses, i + 1) == rest);
        if i + 1 < statuses.len() {
            let m = if n == i {
                i + 1
            } else {
                n
            };
            lemma_show_branches(s, target, statuses, next, m);
            if let Flow::Done(r, _) = show_branches_flow(rest, target, statuses, next) {
                assert(r[i] == next[i]);
                assert forall|k: int| 0 <= k < shown.len() implies r[k] == shown[k] by {
                    assert(r[k] == next[k]);
                }
            }
        }
    }
}

proof fn lemma_shown(
    s: Seq<ReplyModel>,
    target: TargetModel,
    status: BranchStatusModel,
    compared: Oid,
    committed: Oid,
    oid: Oid,
    message: Seq<char>,
)
    requires
        status.branch.applied,
        agrees(compared, committed, shown_by_git(s, target, status), oid, message),
    ensures
        show_branch_flow(s, target, status) matches Flow::Done(shown, _) ==> {
            &&& shown.id == status.branch.id
            &&& shown.files.len() == 0
            &&& shown.commits.len() > 0
            &&& shown.commits[0].id == oid
            &&& shown.commits[0].description == message
        },
{
    let git = shown_by_git(s, target, status);
    if let Flow::Done(shown, _) = show_branch_flow(s, target, status) {
        let made = write_tree_flow(s, target, status.files);
        let replies = made->Done_1;
        let rest = replies.drop_first().drop_first();
        assert(replies =~= seq![ReplyModel::Unit, ReplyModel::Commit(git.head)] + rest);
        assert(git.difference =~= seq![]);
        nothing_is_left_once_all_is_committed(s, target, status, git.head, rest);
        let found = calculate_non_commited_diffs_flow(s, status.branch, target, status.files);
        lemma_facts(found->Done_1, target, status.branch);
    }
}

proof fn lemma_facts(s: Seq<ReplyModel>, target: TargetModel, branch: BranchModel)
    ensures
        branch_facts_flow(s, target, branch) matches Flow::Done(facts, _) ==> {
            let upstream = find_upstream_flow(s, branch);
            let pushed = pushed_commits_flow(upstream->Done_1, target, upstream->Done_0);
            let log = ask_commits(
                pushed->Done_1,
                RequestModel::Log { from: branch.head, until: target.sha },
            )->Done_0;
            &&& facts.commits.len() == log.len()
            &&& forall|k: int|
                0 <= k < log.len() ==> (#[trigger] facts.commits[k]).id == log[k].id && Some(
                    facts.commits[k].description,
                ) == log[k].message
        },
{
    if let Flow::Done(upstream, rest) = find_upstream_flow(s, branch) {
        if let Flow::Done(pushed, rest) = pushed_commits_flow(rest, target, upstream) {
            if let Flow::Done(log, rest) = ask_commits(
                rest,
                RequestModel::Log { from: branch.head, until: target.sha },
            ) {
                commits_are_shown_as_they_are_found(rest, target, log, pushed);
            }
        }
    }
}

proof fn lemma_has_status(
    s: Seq<ReplyModel>,
    target: TargetModel,
    branches: Seq<BranchModel>,
    branch: BranchModel,
)
    requires
        s.len() > 2,
        s[1] == ReplyModel::Target(target),
        s[2] == ReplyModel::Branches(branches),
        branches.contains(branch),
        branch.applied,
    ensures
        get_status_by_branch_flow(s) matches Flow::Done(statuses, _) ==> exists|n: int|
            0 <= n < statuses.len() && same_but_ownership((#[trigger] statuses[n]).branch, branch),
{
    broadcast use vstd::seq_lib::group_to_multiset_ensures;

    let rest = s.drop_first().drop_first().drop_first();
    let applied = applied_only(branches);
    let served = by_order(applied);
    let from = choose|i: int| 0 <= i < branches.len() && branches[i] == branch;
    branches.lemma_filter_contains(|b: BranchModel| b.applied, from);
    sorting_orders_the_elements(applied, |b: BranchModel| b.order as int);
    assert(applied.to_multiset().count(branch) > 0);
    assert(served.contains(branch));
    let n = choose|n: int| 0 <= n < served.len() && served[n] == branch;
    if let Flow::Done(found, _) = get_applied_status_flow(rest, target, applied) {
        every_branch_has_a_status(rest.drop_first(), rest[0]->Diffs_0, served);
        assert(same_but_ownership(found[n].branch, served[n]));
        if let Flow::Done(statuses, _) = get_status_by_branch_flow(s) {
            assert(statuses[n] == found[n]);
        }
    }
}

/// Right after everything has been committed to an applied branch, the branch is listed without
/// files, and the new commit comes first, with its message. The branch that the commit stored is
/// among those that are read for the listing, a target is set, and what git says at the commit and
/// at the listing agrees.
pub proof fn a_listing_after_a_commit_shows_the_commit_and_no_files(
    s: Seq<ReplyModel>,
    t: Seq<ReplyModel>,
    id: BranchId,
    message: Seq<char>,
    signed: bool,
    oid: Oid,
    rest: Seq<ReplyModel>,
    listed: Seq<BranchModel>,
    target: TargetModel,
)
    requires
        commit_flow(s, id, message, None, signed) == Flow::Done(Some(oid), rest),
        status_at_commit(s, id).branch.applied,
        t.len() > 4,
        t[1] == ReplyModel::Target(target),
        t[3] == ReplyModel::Target(target),
        t[4] == ReplyModel::Branches(listed),
        listed.contains(committed_branch(s, id, oid)),
        git_agrees(s, t, id, target, oid, message),
    ensures
        list_virtual_branches_flow(t) matches Flow::Done(shown, _) ==> exists|i: int|
            0 <= i < shown.len() && shows_commit(#[trigger] shown[i], id, oid, message),
{
    let branch = committed_branch(s, id, oid);
    lemma_committed_id(s, id, message, signed);
    let found = t.drop_first().drop_first();
    assert(found[2] == ReplyModel::Branches(listed));
    lemma_has_status(found, target, listed, branch);
    if let Flow::Done(shown, _) = list_virtual_branches_flow(t) {
        if let Flow::Done(statuses, left) = get_status_by_branch_flow(found) {
            let n = choose|n: int|
                0 <= n < statuses.len() && same_but_ownership(
                    (#[trigger] statuses[n]).branch,
                    branch,
                );
            let here = replies_at(left, target, statuses, n);
            lemma_show_branches(left, target, statuses, seq![], n);
            lemma_shown(
                here,
                target,
                statuses[n],
                compared_tree(s, id),
                committed_tree(s, id),
                oid,
                message,
            );
            let all = show_branches_flow(left, target, statuses, seq![])->Done_0;
            assert(shows_commit(all[n], id, oid, message));
            lemma_sorting_keeps(all, all[n]);
            let i = choose|i: int| 0 <= i < shown.len() && shown[i] == all[n];
            assert(shows_commit(shown[i], id, oid, message));
        }
    }
}

/// Whether a branch is shown without files and with a commit, and its message, first.
pub open spec fn shows_commit(
    shown: VirtualBranchModel,
    id: BranchId,
    oid: Oid,
    message: Seq<char>,
) -> bool {
    &&& shown.id == id
    &&& shown.files.len() == 0
    &&& shown.commits.len() > 0
    &&& shown.commits[0].id == oid
    &&& shown.commits[0].description == message
}

proof fn lemma_sorting_keeps(branches: Seq<VirtualBranchModel>, branch: VirtualBranchModel)
    requires
        branches.contains(branch),
    ensures
        in_order(branches).contains(branch),
{
    broadcast use vstd::seq_lib::group_to_multiset_ensures;

    sorting_orders_the_elements(branches, |b: VirtualBranchModel| b.order as int);
    assert(branches.to_multiset().count(branch) > 0);
}

proof fn lemma_status_of(statuses: Seq<BranchStatusModel>, id: BranchId)
    ensures
        0 <= status_of(statuses, id) <= statuses.len(),
        status_of(statuses, id) < statuses.len() ==> statuses[status_of(
            statuses,
            id,
        )].branch.id == id,
    decreases statuses.len(),
{
    if statuses.len() != 0 && statuses[0].branch.id != id {
        lemma_status_of(statuses.drop_first(), id);
    }
}

proof fn lemma_committed_id(
    s: Seq<ReplyModel>,
    id: BranchId,
    message: Seq<char>,
    signed: bool,
)
    ensures
        commit_flow(s, id, message, None, signed) is Done ==> status_at_commit(s, id).branch.id
            == id,
{
    if let Flow::Done(statuses, _) = get_status_by_branch_flow(s.drop_first()) {
        lemma_status_of(statuses, id);
    }
}

} // verus!
