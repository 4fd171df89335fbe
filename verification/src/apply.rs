//! Applying branches to the working directory, and taking them out of it.

use crate::branch::{Branch, BranchModel, CommitModel, Target, TargetModel};
use crate::conflicts::{check_out_conflicts, check_out_conflicts_flow};
use crate::diff::{any_lists, select, without_listed, DiffHunkModel, FileDiff};
use crate::objects::{BranchId, Oid};
use crate::ownership::{take_from, FileOwnership, FileOwnershipModel, Ownership};
use crate::protocol::{
    ask_branch, ask_branches, ask_commit, ask_flag, ask_index, ask_oid, ask_unit, fail, outcome,
    outcome_opt, outcome_seq, BranchError, BranchErrorModel, Flow, MergeIndex, ReplyModel, Request,
    RequestModel, Signatures, Stop, Tape,
};
use crate::seqs::{lemma_filter_ends, lemma_filter_next, lemma_views_push, views};
use crate::session::{
    applied_only, get_default_target, get_default_target_flow, keep_applied, list_applied_vbranches,
    list_applied_vbranches_flow,
};
use crate::status::{get_applied_status, get_applied_status_flow, BranchStatus, BranchStatusModel};
use crate::tree::{write_tree, write_tree_flow};
use vstd::prelude::*;

verus! {

/// The position of the status of a branch, or the number of statuses where it has none.
pub open spec fn status_of(statuses: Seq<BranchStatusModel>, id: BranchId) -> int
    decreases statuses.len(),
{
    if statuses.len() == 0 || statuses[0].branch.id == id {
        0
    } else {
        1 + status_of(statuses.drop_first(), id)
    }
}

/// The position of the status of a branch, or the number of statuses where it has none.
pub(crate) fn find_status(statuses: &Vec<BranchStatus>, id: BranchId) -> (at: usize)
    ensures
        at == status_of(views(statuses@), id),
        at <= statuses@.len(),
{
    let ghost all = views(statuses@);
    let mut at: usize = 0;
    assert(all.skip(0) =~= all);
    while at < statuses.len() && statuses[at].branch.id != id
        invariant
            all == views(statuses@),
            at <= statuses@.len(),
            status_of(all, id) == at + status_of(all.skip(at as int), id),
        decreases statuses@.len() - at,
    {
        assert(all.skip(at as int).drop_first() =~= all.skip(at + 1));
        at = at + 1;
    }
    at
}

/// The statuses of the branches other than one.
pub open spec fn other_statuses(statuses: Seq<BranchStatusModel>, id: BranchId) -> Seq<
    BranchStatusModel,
> {
    statuses.filter(|status: BranchStatusModel| status.branch.id != id)
}

/// How merging the hunks of a branch into a tree comes out. The branch is merged as what it makes of
/// the target.
pub open spec fn merge_status_flow(
    s: Seq<ReplyModel>,
    target: TargetModel,
    base: Oid,
    status: BranchStatusModel,
    tree: Oid,
) -> Flow<Oid> {
    write_tree_flow(s, target, status.files).and_then(
        |branch_tree: Oid, s: Seq<ReplyModel>|
            ask_unit(s, RequestModel::FindTree(branch_tree)).and_then(
                |u: (), s: Seq<ReplyModel>|
                    ask_index(
                        s,
                        RequestModel::MergeTrees { base, ours: tree, theirs: branch_tree },
                    ).and_then(
                        |index: MergeIndex, s: Seq<ReplyModel>|
                            ask_oid(s, RequestModel::WriteIndex(index.handle)).and_then(
                                |merged: Oid, s: Seq<ReplyModel>|
                                    ask_unit(s, RequestModel::FindTree(merged)).and_then(
                                        |u: (), s: Seq<ReplyModel>| Flow::Done(merged, s),
                                    ),
                            ),
                    ),
            ),
    )
}

/// How merging the hunks of some branches into a tree comes out, from the given branch on.
pub open spec fn merge_statuses_flow(
    s: Seq<ReplyModel>,
    target: TargetModel,
    base: Oid,
    statuses: Seq<BranchStatusModel>,
    i: int,
    tree: Oid,
) -> Flow<Oid>
    decreases statuses.len() - i,
{
    if i < 0 || i >= statuses.len() {
        Flow::Done(tree, s)
    } else {
        merge_status_flow(s, target, base, statuses[i], tree).and_then(
            |tree: Oid, s: Seq<ReplyModel>|
                merge_statuses_flow(s, target, base, statuses, i + 1, tree),
        )
    }
}

/// How bringing the working directory to the target and the hunks of some branches comes out.
pub open spec fn check_out_statuses_flow(
    s: Seq<ReplyModel>,
    target: TargetModel,
    statuses: Seq<BranchStatusModel>,
) -> Flow<()> {
    ask_commit(s, RequestModel::FindCommit(target.sha)).and_then(
        |commit: CommitModel, s: Seq<ReplyModel>|
            merge_statuses_flow(s, target, commit.tree, statuses, 0, commit.tree).and_then(
                |tree: Oid, s: Seq<ReplyModel>|
                    ask_unit(s, RequestModel::CheckoutTree { tree, remove_untracked: true }).and_then(
                        |u: (), s: Seq<ReplyModel>| ask_unit(s, RequestModel::UpdateIntegration),
                    ),
            ),
    )
}

/// Merges the hunks of some branches into a tree.
fn merge_statuses(tape: &mut Tape, target: &Target, base: Oid, statuses: &Vec<BranchStatus>) -> (r:
    Result<Oid, Stop>)
    ensures
        outcome(r, final(tape)@) == merge_statuses_flow(
            old(tape)@,
            target@,
            base,
            views(statuses@),
            0,
            base,
        ),
{
    let mut tree = base;
    let mut i: usize = 0;
    while i < statuses.len()
        invariant
            i <= statuses@.len(),
            merge_statuses_flow(old(tape)@, target@, base, views(statuses@), 0, base)
                == merge_statuses_flow(tape@, target@, base, views(statuses@), i as int, tree),
        decreases statuses@.len() - i,
    {
        let branch_tree = write_tree(tape, target, &statuses[i].files)?;
        tape.ask_unit(Request::FindTree(branch_tree))?;
        let index = tape.ask_index(Request::MergeTrees { base, ours: tree, theirs: branch_tree })?;
        let merged = tape.ask_oid(Request::WriteIndex(index.handle))?;
        tape.ask_unit(Request::FindTree(merged))?;
        tree = merged;
        i = i + 1;
    }
    Ok(tree)
}

/// Brings the working directory to the target and the hunks of some branches.
fn check_out_statuses(tape: &mut Tape, target: &Target, statuses: &Vec<BranchStatus>) -> (r: Result<
    (),
    Stop,
>)
    ensures
        outcome(r, final(tape)@) == check_out_statuses_flow(old(tape)@, target@, views(statuses@)),
{
    let commit = tape.ask_commit(Request::FindCommit(target.sha))?;
    let tree = merge_statuses(tape, target, commit.tree, statuses)?;
    tape.ask_unit(Request::CheckoutTree { tree, remove_untracked: true })?;
    tape.ask_unit(Request::UpdateIntegration)
}

/// How keeping what a branch holds as its tree comes out. Where the branch has a status, the hunks
/// of it are written out, and the branch is stored with that tree. Without a target nothing
/// happens.
pub open spec fn flush_vbranch_as_tree_flow(s: Seq<ReplyModel>, branch: BranchModel) -> Flow<
    Option<(TargetModel, Seq<BranchStatusModel>)>,
> {
    ask_unit(s, RequestModel::OpenSession).and_then(
        |u: (), s: Seq<ReplyModel>|
            get_default_target_flow(s).and_then(
                |target: Option<TargetModel>, s: Seq<ReplyModel>|
                    match target {
                        None => Flow::Done(None, s),
                        Some(target) => ask_branches(s, RequestModel::ListBranches).and_then(
                            |branches: Seq<BranchModel>, s: Seq<ReplyModel>|
                                get_applied_status_flow(s, target, applied_only(branches)).and_then(
                                    |statuses: Seq<BranchStatusModel>, s: Seq<ReplyModel>|
                                        store_tree_flow(s, target, statuses, branch).and_then(
                                            |u: (), s: Seq<ReplyModel>|
                                                Flow::Done(Some((target, statuses)), s),
                                        ),
                                ),
                        ),
                    },
            ),
    )
}

/// How storing a branch with the tree that its hunks make comes out.
pub open spec fn store_tree_flow(
    s: Seq<ReplyModel>,
    target: TargetModel,
    statuses: Seq<BranchStatusModel>,
    branch: BranchModel,
) -> Flow<()> {
    let at = status_of(statuses, branch.id);
    if at < statuses.len() {
        write_tree_flow(s, target, statuses[at].files).and_then(
            |tree: Oid, s: Seq<ReplyModel>|
                ask_unit(s, RequestModel::WriteBranch(BranchModel { tree, ..branch })),
        )
    } else {
        Flow::Done((), s)
    }
}

/// Keeps what a branch holds as its tree.
fn flush_vbranch_as_tree(tape: &mut Tape, branch: Branch) -> (r: Result<
    Option<(Target, Vec<BranchStatus>)>,
    Stop,
>)
    ensures
        (match r {
            Ok(Some((target, statuses))) => Flow::Done(
                Some((target@, views(statuses@))),
                final(tape)@,
            ),
            Ok(None) => Flow::Done(None, final(tape)@),
            Err(stop) => Flow::Stop(stop@),
        }) == flush_vbranch_as_tree_flow(old(tape)@, branch@),
{
    tape.ask_unit(Request::OpenSession)?;
    let default_target = match get_default_target(tape)? {
        Some(target) => target,
        None => {
            return Ok(None);
        },
    };
    let branches = tape.ask_branches(Request::ListBranches)?;
    let statuses = get_applied_status(tape, &default_target, keep_applied(&branches, true))?;
    let at: usize = find_status(&statuses, branch.id);
    if at < statuses.len() {
        let mut branch = branch;
        branch.tree = write_tree(tape, &default_target, &statuses[at].files)?;
        tape.ask_unit(Request::WriteBranch(branch))?;
    }
    Ok(Some((default_target, statuses)))
}

/// How unapplying a branch comes out. What it holds is kept as its tree, and the working directory
/// is brought to the target and what the other applied branches hold.
pub open spec fn unapply_branch_flow(s: Seq<ReplyModel>, id: BranchId) -> Flow<()> {
    ask_flag(s, RequestModel::IsResolving).and_then(
        |resolving: bool, s: Seq<ReplyModel>|
            if resolving {
                fail(BranchErrorModel::UnapplyWhileConflicted)
            } else {
                ask_unit(s, RequestModel::OpenSession).and_then(
                    |u: (), s: Seq<ReplyModel>|
                        ask_branch(s, RequestModel::ReadBranch(id)).and_then(
                            |branch: BranchModel, s: Seq<ReplyModel>|
                                if !branch.applied {
                                    fail(BranchErrorModel::NotApplied)
                                } else {
                                    flush_vbranch_as_tree_flow(
                                        s,
                                        BranchModel { applied: false, ..branch },
                                    ).and_then(
                                        |
                                            flushed: Option<(TargetModel, Seq<BranchStatusModel>)>,
                                            s: Seq<ReplyModel>,
                                        |
                                            match flushed {
                                                None => Flow::Done((), s),
                                                Some((target, statuses)) => check_out_statuses_flow(
                                                    s,
                                                    target,
                                                    other_statuses(statuses, id),
                                                ),
                                            },
                                    )
                                },
                        ),
                )
            },
    )
}

/// The statuses of the branches other than one.
fn keep_other_statuses(statuses: Vec<BranchStatus>, id: BranchId) -> (kept: Vec<BranchStatus>)
    ensures
        views(kept@) == other_statuses(views(statuses@), id),
{
    let ghost all = views(statuses@);
    let ghost other = |status: BranchStatusModel| status.branch.id != id;
    let mut statuses = statuses;
    let n: usize = statuses.len();
    let mut kept: Vec<BranchStatus> = Vec::new();
    let mut i: usize = 0;
    proof {
        lemma_filter_ends(all, other);
        assert(views(kept@) =~= seq![]);
        assert(views(statuses@) =~= all.skip(0));
    }
    while i < n
        invariant
            i <= n == all.len(),
            statuses@.len() == n - i,
            views(statuses@) == all.skip(i as int),
            other == (|status: BranchStatusModel| status.branch.id != id),
            views(kept@) == all.take(i as int).filter(other),
        decreases n - i,
    {
        let ghost rest = statuses@;
        let ghost before = kept@;
        let status: BranchStatus = statuses.remove(0);
        proof {
            assert(views(rest)[0] == all[i as int]);
            assert forall|j: int| 0 <= j < statuses@.len() implies #[trigger] views(statuses@)[j]
                == all.skip(i + 1)[j] by {
                assert(views(rest)[j + 1] == all.skip(i as int)[j + 1]);
            }
            assert(views(statuses@) =~= all.skip(i + 1));
            lemma_filter_next(all, i as int, other);
        }
        if status.branch.id != id {
            kept.push(status);
            proof {
                lemma_views_push(before, kept@.last());
            }
        }
        i = i + 1;
    }
    kept
}

/// Takes a branch out of the working directory, and keeps what it holds as its tree.
pub fn unapply_branch(tape: &mut Tape, branch_id: BranchId) -> (r: Result<(), Stop>)
    ensures
        outcome(r, final(tape)@) == unapply_branch_flow(old(tape)@, branch_id),
{
    let resolving: bool = tape.ask_flag(Request::IsResolving)?;
    if resolving {
        return Err(Stop::Fail(BranchError::UnapplyWhileConflicted));
    }
    tape.ask_unit(Request::OpenSession)?;
    let mut branch = tape.ask_branch(Request::ReadBranch(branch_id))?;
    if !branch.applied {
        return Err(Stop::Fail(BranchError::NotApplied));
    }
    branch.applied = false;
    match flush_vbranch_as_tree(tape, branch)? {
        None => Ok(()),
        Some((target, statuses)) => {
            let others = keep_other_statuses(statuses, branch_id);
            check_out_statuses(tape, &target, &others)
        },
    }
}

/// How unapplying the branches from the given one on comes out.
pub open spec fn unapply_each_flow(s: Seq<ReplyModel>, branches: Seq<BranchModel>, i: int) -> Flow<()>
    decreases branches.len() - i,
{
    if i < 0 || i >= branches.len() {
        Flow::Done((), s)
    } else {
        unapply_branch_flow(s, branches[i].id).and_then(
            |u: (), s: Seq<ReplyModel>| unapply_each_flow(s, branches, i + 1),
        )
    }
}

/// Takes some branches out of the working directory, one after the other.
pub(crate) fn unapply_each(tape: &mut Tape, branches: &Vec<Branch>) -> (r: Result<(), Stop>)
    ensures
        outcome(r, final(tape)@) == unapply_each_flow(old(tape)@, views(branches@), 0),
{
    let mut i: usize = 0;
    while i < branches.len()
        invariant
            i <= branches@.len(),
            unapply_each_flow(old(tape)@, views(branches@), 0) == unapply_each_flow(
                tape@,
                views(branches@),
                i as int,
            ),
        decreases branches@.len() - i,
    {
        unapply_branch(tape, branches[i].id)?;
        i = i + 1;
    }
    Ok(())
}

/// How unapplying all branches comes out.
pub open spec fn unapply_all_branches_flow(s: Seq<ReplyModel>) -> Flow<()> {
    list_applied_vbranches_flow(s).and_then(
        |branches: Seq<BranchModel>, s: Seq<ReplyModel>| unapply_each_flow(s, branches, 0),
    )
}

/// Takes all branches out of the working directory.
pub fn unapply_all_branches(tape: &mut Tape) -> (r: Result<(), Stop>)
    ensures
        outcome(r, final(tape)@) == unapply_all_branches_flow(old(tape)@),
{
    let branches = list_applied_vbranches(tape)?;
    unapply_each(tape, &branches)
}

/// How keeping what a branch holds as its tree comes out. A branch that is not applied is passed
/// over.
pub open spec fn flush_status_flow(
    s: Seq<ReplyModel>,
    target: TargetModel,
    status: BranchStatusModel,
) -> Flow<()> {
    if status.branch.applied {
        write_tree_flow(s, target, status.files).and_then(
            |tree: Oid, s: Seq<ReplyModel>|
                ask_unit(s, RequestModel::WriteBranch(BranchModel { tree, ..status.branch })),
        )
    } else {
        Flow::Done((), s)
    }
}

/// How keeping what the branches from the given one on hold as their trees comes out.
pub open spec fn flush_each_flow(
    s: Seq<ReplyModel>,
    target: TargetModel,
    statuses: Seq<BranchStatusModel>,
    i: int,
) -> Flow<()>
    decreases statuses.len() - i,
{
    if i < 0 || i >= statuses.len() {
        Flow::Done((), s)
    } else {
        flush_status_flow(s, target, statuses[i]).and_then(
            |u: (), s: Seq<ReplyModel>| flush_each_flow(s, target, statuses, i + 1),
        )
    }
}

/// How keeping what the applied branches hold as their trees comes out.
pub open spec fn flush_applied_vbranches_flow(s: Seq<ReplyModel>) -> Flow<()> {
    list_applied_vbranches_flow(s).and_then(
        |branches: Seq<BranchModel>, s: Seq<ReplyModel>|
            ask_unit(s, RequestModel::OpenSession).and_then(
                |u: (), s: Seq<ReplyModel>|
                    get_default_target_flow(s).and_then(
                        |target: Option<TargetModel>, s: Seq<ReplyModel>|
                            match target {
                                None => Flow::Done((), s),
                                Some(target) => get_applied_status_flow(s, target, branches).and_then(
                                    |statuses: Seq<BranchStatusModel>, s: Seq<ReplyModel>|
                                        flush_each_flow(s, target, statuses, 0).and_then(
                                            |u: (), s: Seq<ReplyModel>|
                                                ask_unit(s, RequestModel::UpdateIntegration),
                                        ),
                                ),
                            },
                    ),
            ),
    )
}

/// Keeps what some branches hold as their trees.
fn flush_each(tape: &mut Tape, target: &Target, statuses: &Vec<BranchStatus>) -> (r: Result<
    (),
    Stop,
>)
    ensures
        outcome(r, final(tape)@) == flush_each_flow(old(tape)@, target@, views(statuses@), 0),
{
    let mut i: usize = 0;
    while i < statuses.len()
        invariant
            i <= statuses@.len(),
            flush_each_flow(old(tape)@, target@, views(statuses@), 0) == flush_each_flow(
                tape@,
                target@,
                views(statuses@),
                i as int,
            ),
        decreases statuses@.len() - i,
    {
        if statuses[i].branch.applied {
            let mut branch = statuses[i].branch.clone();
            branch.tree = write_tree(tape, target, &statuses[i].files)?;
            tape.ask_unit(Request::WriteBranch(branch))?;
        }
        i = i + 1;
    }
    Ok(())
}

/// Keeps what the applied branches hold as their trees.
pub fn flush_applied_vbranches(tape: &mut Tape) -> (r: Result<(), Stop>)
    ensures
        outcome(r, final(tape)@) == flush_applied_vbranches_flow(old(tape)@),
{
    let branches = list_applied_vbranches(tape)?;
    tape.ask_unit(Request::OpenSession)?;
    let default_target = match get_default_target(tape)? {
        Some(target) => target,
        None => {
            return Ok(());
        },
    };
    let statuses = get_applied_status(tape, &default_target, branches)?;
    flush_each(tape, &default_target, &statuses)?;
    tape.ask_unit(Request::UpdateIntegration)
}

/// A branch, and its hunks, without what a claim takes from it.
pub open spec fn strip_claim(status: BranchStatusModel, claim: FileOwnershipModel) -> BranchStatusModel {
    let (taken, left) = take_from(status.branch.ownership, claim);
    BranchStatusModel {
        branch: BranchModel { ownership: left, ..status.branch },
        files: select(
            status.files,
            |path: Seq<char>, h: DiffHunkModel| !any_lists(taken, path, h),
        ),
    }
}

/// How taking the claims from the given one on from a branch comes out. The branch is stored each
/// time that it loses anything.
pub open spec fn strip_flow(
    s: Seq<ReplyModel>,
    status: BranchStatusModel,
    claims: Seq<FileOwnershipModel>,
    i: int,
) -> Flow<BranchStatusModel>
    decreases claims.len() - i,
{
    if i < 0 || i >= claims.len() {
        Flow::Done(status, s)
    } else if take_from(status.branch.ownership, claims[i]).0.len() == 0 {
        strip_flow(
            s,
            BranchStatusModel {
                branch: BranchModel {
                    ownership: take_from(status.branch.ownership, claims[i]).1,
                    ..status.branch
                },
                ..status
            },
            claims,
            i + 1,
        )
    } else {
        let stripped = strip_claim(status, claims[i]);
        ask_unit(s, RequestModel::WriteBranch(stripped.branch)).and_then(
            |u: (), s: Seq<ReplyModel>| strip_flow(s, stripped, claims, i + 1),
        )
    }
}

/// How taking some claims from the branches from the given one on comes out.
pub open spec fn strip_each_flow(
    s: Seq<ReplyModel>,
    statuses: Seq<BranchStatusModel>,
    claims: Seq<FileOwnershipModel>,
    i: int,
) -> Flow<Seq<BranchStatusModel>>
    decreases statuses.len() - i,
{
    if i < 0 || i >= statuses.len() {
        Flow::Done(statuses, s)
    } else {
        strip_flow(s, statuses[i], claims, 0).and_then(
            |status: BranchStatusModel, s: Seq<ReplyModel>|
                strip_each_flow(s, statuses.update(i, status), claims, i + 1),
        )
    }
}

/// Takes some claims from a branch.
fn strip(tape: &mut Tape, status: &BranchStatus, claims: &Vec<FileOwnership>) -> (r: Result<
    BranchStatus,
    Stop,
>)
    ensures
        outcome(r, final(tape)@) == strip_flow(old(tape)@, status@, views(claims@), 0),
{
    let mut branch: Branch = status.branch.clone();
    let mut files: Vec<FileDiff> = status.files.clone();
    let mut i: usize = 0;
    proof {
        assert(views(files@) =~= status@.files);
    }
    while i < claims.len()
        invariant
            i <= claims@.len(),
            strip_flow(old(tape)@, status@, views(claims@), 0) == strip_flow(
                tape@,
                (BranchStatusModel { branch: branch@, files: views(files@) }),
                views(claims@),
                i as int,
            ),
        decreases claims@.len() - i,
    {
        let taken: Vec<FileOwnership> = branch.ownership.take(&claims[i]);
        if taken.len() > 0 {
            tape.ask_unit(Request::WriteBranch(branch.clone()))?;
            files = without_listed(&files, &taken);
        }
        i = i + 1;
    }
    Ok(BranchStatus { branch, files })
}

/// How unapplying some ownership comes out. Every applied branch gives up what is claimed, and the
/// working directory is brought to the target and what the branches hold then.
pub open spec fn unapply_ownership_flow(
    s: Seq<ReplyModel>,
    ownership: Seq<FileOwnershipModel>,
) -> Flow<()> {
    ask_flag(s, RequestModel::IsResolving).and_then(
        |resolving: bool, s: Seq<ReplyModel>|
            if resolving {
                fail(BranchErrorModel::UnapplyWhileConflicted)
            } else {
                ask_unit(s, RequestModel::OpenSession).and_then(
                    |u: (), s: Seq<ReplyModel>|
                        get_default_target_flow(s).and_then(
                            |target: Option<TargetModel>, s: Seq<ReplyModel>|
                                match target {
                                    None => Flow::Done((), s),
                                    Some(target) => unapply_from_target_flow(s, target, ownership),
                                },
                        ),
                )
            },
    )
}

/// How unapplying some ownership comes out once the target is known.
pub open spec fn unapply_from_target_flow(
    s: Seq<ReplyModel>,
    target: TargetModel,
    ownership: Seq<FileOwnershipModel>,
) -> Flow<()> {
    ask_branches(s, RequestModel::ListBranches).and_then(
        |branches: Seq<BranchModel>, s: Seq<ReplyModel>|
            get_applied_status_flow(s, target, applied_only(branches)).and_then(
                |statuses: Seq<BranchStatusModel>, s: Seq<ReplyModel>|
                    strip_each_flow(s, statuses, ownership, 0).and_then(
                        |statuses: Seq<BranchStatusModel>, s: Seq<ReplyModel>|
                            check_out_statuses_flow(s, target, statuses),
                    ),
            ),
    )
}

/// Takes some claims from all branches.
fn strip_each(tape: &mut Tape, statuses: Vec<BranchStatus>, claims: &Vec<FileOwnership>) -> (r:
    Result<Vec<BranchStatus>, Stop>)
    ensures
        outcome_seq(r, final(tape)@) == strip_each_flow(
            old(tape)@,
            views(statuses@),
            views(claims@),
            0,
        ),
{
    let ghost all = views(statuses@);
    let mut current = statuses;
    let mut i: usize = 0;
    while i < current.len()
        invariant
            i <= current@.len(),
            all == views(statuses@),
            strip_each_flow(old(tape)@, all, views(claims@), 0) == strip_each_flow(
                tape@,
                views(current@),
                views(claims@),
                i as int,
            ),
        decreases current@.len() - i,
    {
        let ghost before = views(current@);
        let status = strip(tape, &current[i], claims)?;
        current.set(i, status);
        assert(views(current@) =~= before.update(i as int, status@));
        i = i + 1;
    }
    Ok(current)
}

/// Takes some ownership out of the working directory.
pub fn unapply_ownership(tape: &mut Tape, ownership: &Ownership) -> (r: Result<(), Stop>)
    ensures
        outcome(r, final(tape)@) == unapply_ownership_flow(old(tape)@, ownership@),
{
    let resolving: bool = tape.ask_flag(Request::IsResolving)?;
    if resolving {
        return Err(Stop::Fail(BranchError::UnapplyWhileConflicted));
    }
    tape.ask_unit(Request::OpenSession)?;
    let default_target = match get_default_target(tape)? {
        Some(target) => target,
        None => {
            return Ok(());
        },
    };
    let branches = tape.ask_branches(Request::ListBranches)?;
    let statuses = get_applied_status(tape, &default_target, keep_applied(&branches, true))?;
    let statuses = strip_each(tape, statuses, &ownership.files)?;
    check_out_statuses(tape, &default_target, &statuses)
}

/// How merging the target into a branch that is behind it comes out. Where there are conflicts, all
/// other branches are unapplied and the conflicts are checked out: then there is nothing more to
/// apply.
pub open spec fn catch_up_flow(
    s: Seq<ReplyModel>,
    branch: BranchModel,
    target: TargetModel,
    target_tree: Oid,
    merge_base: Oid,
    signed: bool,
) -> Flow<Option<BranchModel>> {
    ask_commit(s, RequestModel::FindCommit(merge_base)).and_then(
        |base: CommitModel, s: Seq<ReplyModel>|
            ask_index(
                s,
                RequestModel::MergeTrees {
                    base: base.tree,
                    ours: branch.tree,
                    theirs: target_tree,
                },
            ).and_then(
                |index: MergeIndex, s: Seq<ReplyModel>|
                    if index.conflicted {
                        unapply_all_branches_flow(s).and_then(
                            |u: (), s: Seq<ReplyModel>|
                                ask_unit(
                                    s,
                                    RequestModel::WriteBranch(
                                        BranchModel { applied: true, ..branch },
                                    ),
                                ).and_then(
                                    |u: (), s: Seq<ReplyModel>|
                                        check_out_conflicts_flow(s, index, target.sha).and_then(
                                            |u: (), s: Seq<ReplyModel>| Flow::Done(None, s),
                                        ),
                                ),
                        )
                    } else {
                        merge_target_flow(s, branch, target, index, signed).and_then(
                            |merged: BranchModel, s: Seq<ReplyModel>| Flow::Done(Some(merged), s),
                        )
                    },
            ),
    )
}

/// How committing a merge of the target to a branch comes out.
pub open spec fn merge_target_flow(
    s: Seq<ReplyModel>,
    branch: BranchModel,
    target: TargetModel,
    index: MergeIndex,
    signed: bool,
) -> Flow<BranchModel> {
    ask_commit(s, RequestModel::FindCommit(branch.head)).and_then(
        |head: CommitModel, s: Seq<ReplyModel>|
            ask_oid(s, RequestModel::WriteIndex(index.handle)).and_then(
                |tree: Oid, s: Seq<ReplyModel>|
                    ask_unit(s, RequestModel::FindTree(tree)).and_then(
                        |u: (), s: Seq<ReplyModel>|
                            ask_oid(
                                s,
                                RequestModel::CreateCommit {
                                    signatures: Signatures::User,
                                    message: "merge upstream"@,
                                    tree,
                                    parents: seq![branch.head, target.sha],
                                    signed,
                                },
                            ).and_then(
                                |head: Oid, s: Seq<ReplyModel>|
                                    {
                                        let merged = BranchModel { head, tree, ..branch };
                                        ask_unit(s, RequestModel::WriteBranch(merged)).and_then(
                                            |u: (), s: Seq<ReplyModel>| Flow::Done(merged, s),
                                        )
                                    },
                            ),
                    ),
            ),
    )
}

/// How bringing a branch that is up to date into the working directory comes out.
pub open spec fn bring_in_flow(s: Seq<ReplyModel>, branch: BranchModel, target_tree: Oid) -> Flow<()> {
    ask_oid(s, RequestModel::WorkdirTree).and_then(
        |workdir: Oid, s: Seq<ReplyModel>|
            ask_index(
                s,
                RequestModel::MergeTrees { base: target_tree, ours: workdir, theirs: branch.tree },
            ).and_then(
                |index: MergeIndex, s: Seq<ReplyModel>|
                    if index.conflicted {
                        fail(BranchErrorModel::ConflictsWithApplied)
                    } else {
                        ask_unit(
                            s,
                            RequestModel::WriteBranch(BranchModel { applied: true, ..branch }),
                        ).and_then(
                            |u: (), s: Seq<ReplyModel>|
                                ask_unit(
                                    s,
                                    RequestModel::CheckoutIndex {
                                        index: index.handle,
                                        with_conflicts: false,
                                    },
                                ).and_then(
                                    |u: (), s: Seq<ReplyModel>|
                                        ask_unit(s, RequestModel::UpdateIntegration),
                                ),
                        )
                    },
            ),
    )
}

/// How applying a branch comes out. Without a target nothing happens. A branch that is behind the
/// target gets the target merged first.
pub open spec fn apply_branch_flow(s: Seq<ReplyModel>, id: BranchId, signed: bool) -> Flow<()> {
    ask_flag(s, RequestModel::IsResolving).and_then(
        |resolving: bool, s: Seq<ReplyModel>|
            if resolving {
                fail(BranchErrorModel::ApplyWhileConflicted)
            } else {
                ask_unit(s, RequestModel::OpenSession).and_then(
                    |u: (), s: Seq<ReplyModel>|
                        get_default_target_flow(s).and_then(
                            |target: Option<TargetModel>, s: Seq<ReplyModel>|
                                match target {
                                    None => Flow::Done((), s),
                                    Some(target) => apply_onto_flow(s, id, target, signed),
                                },
                        ),
                )
            },
    )
}

/// How applying a branch comes out once the target is known.
pub open spec fn apply_onto_flow(
    s: Seq<ReplyModel>,
    id: BranchId,
    target: TargetModel,
    signed: bool,
) -> Flow<()> {
    ask_branch(s, RequestModel::ReadBranch(id)).and_then(
        |branch: BranchModel, s: Seq<ReplyModel>|
            ask_commit(s, RequestModel::FindCommit(target.sha)).and_then(
                |commit: CommitModel, s: Seq<ReplyModel>|
                    ask_unit(s, RequestModel::FindTree(branch.tree)).and_then(
                        |u: (), s: Seq<ReplyModel>|
                            ask_oid(s, RequestModel::MergeBase(target.sha, branch.head)).and_then(
                                |base: Oid, s: Seq<ReplyModel>|
                                    (if base == target.sha {
                                        Flow::Done(Some(branch), s)
                                    } else {
                                        catch_up_flow(s, branch, target, commit.tree, base, signed)
                                    }).and_then(
                                        |branch: Option<BranchModel>, s: Seq<ReplyModel>|
                                            match branch {
                                                None => Flow::Done((), s),
                                                Some(branch) => bring_in_flow(
                                                    s,
                                                    branch,
                                                    commit.tree,
                                                ),
                                            },
                                    ),
                            ),
                    ),
            ),
    )
}

/// Commits a merge of the target to a branch.
fn merge_target(
    tape: &mut Tape,
    branch: &Branch,
    target: &Target,
    index: MergeIndex,
    signed: bool,
) -> (r: Result<Branch, Stop>)
    ensures
        outcome(r, final(tape)@) == merge_target_flow(old(tape)@, branch@, target@, index, signed),
{
    tape.ask_commit(Request::FindCommit(branch.head))?;
    let tree = tape.ask_oid(Request::WriteIndex(index.handle))?;
    tape.ask_unit(Request::FindTree(tree))?;
    let parents: Vec<Oid> = vec![branch.head, target.sha];
    assert(parents@ =~= seq![branch@.head, target@.sha]);
    let head = tape.ask_oid(
        Request::CreateCommit {
            signatures: Signatures::User,
            message: "merge upstream".to_owned(),
            tree,
            parents,
            signed,
        },
    )?;
    let mut merged = branch.clone();
    merged.head = head;
    merged.tree = tree;
    tape.ask_unit(Request::WriteBranch(merged.clone()))?;
    Ok(merged)
}

/// Merges the target into a branch that is behind it, and gives the branch back unless there are
/// conflicts.
fn catch_up(
    tape: &mut Tape,
    branch: Branch,
    target: &Target,
    target_tree: Oid,
    merge_base: Oid,
    signed: bool,
) -> (r: Result<Option<Branch>, Stop>)
    ensures
        outcome_opt(r, final(tape)@) == catch_up_flow(
            old(tape)@,
            branch@,
            target@,
            target_tree,
            merge_base,
            signed,
        ),
{
    let base = tape.ask_commit(Request::FindCommit(merge_base))?;
    let index = tape.ask_index(
        Request::MergeTrees { base: base.tree, ours: branch.tree, theirs: target_tree },
    )?;
    if index.conflicted {
        unapply_all_branches(tape)?;
        let mut applied = branch;
        applied.applied = true;
        tape.ask_unit(Request::WriteBranch(applied))?;
        check_out_conflicts(tape, index, target.sha)?;
        return Ok(None);
    }
    let merged = merge_target(tape, &branch, target, index, signed)?;
    Ok(Some(merged))
}

/// Brings a branch that is up to date into the working directory.
fn bring_in(tape: &mut Tape, branch: Branch, target_tree: Oid) -> (r: Result<(), Stop>)
    ensures
        outcome(r, final(tape)@) == bring_in_flow(old(tape)@, branch@, target_tree),
{
    let workdir = tape.ask_oid(Request::WorkdirTree)?;
    let index = tape.ask_index(
        Request::MergeTrees { base: target_tree, ours: workdir, theirs: branch.tree },
    )?;
    if index.conflicted {
        return Err(Stop::Fail(BranchError::ConflictsWithApplied));
    }
    let mut applied = branch;
    applied.applied = true;
    tape.ask_unit(Request::WriteBranch(applied))?;
    tape.ask_unit(Request::CheckoutIndex { index: index.handle, with_conflicts: false })?;
    tape.ask_unit(Request::UpdateIntegration)
}

/// Brings a branch into the working directory. Merge commits are signed with the key of the user
/// where `signed` says so.
pub fn apply_branch(tape: &mut Tape, branch_id: BranchId, signed: bool) -> (r: Result<(), Stop>)
    ensures
        outcome(r, final(tape)@) == apply_branch_flow(old(tape)@, branch_id, signed),
{
    let resolving: bool = tape.ask_flag(Request::IsResolving)?;
    if resolving {
        return Err(Stop::Fail(BranchError::ApplyWhileConflicted));
    }
    tape.ask_unit(Request::OpenSession)?;
    let default_target = match get_default_target(tape)? {
        Some(target) => target,
        None => {
            return Ok(());
        },
    };
    let branch = tape.ask_branch(Request::ReadBranch(branch_id))?;
    let commit = tape.ask_commit(Request::FindCommit(default_target.sha))?;
    tape.ask_unit(Request::FindTree(branch.tree))?;
    let base = tape.ask_oid(Request::MergeBase(default_target.sha, branch.head))?;
    let branch = if base == default_target.sha {
        branch
    } else {
        match catch_up(tape, branch, &default_target, commit.tree, base, signed)? {
            Some(branch) => branch,
            None => {
                return Ok(());
            },
        }
    };
    bring_in(tape, branch, commit.tree)
}

} // verus!
