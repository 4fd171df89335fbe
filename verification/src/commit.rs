//! Committing, amending, cherry picking and resetting.

use crate::apply::{find_status, other_statuses, status_of, unapply_each, unapply_each_flow};
use crate::branch::{Branch, BranchModel, Commit, CommitModel, Target, TargetModel};
use crate::claims::{hunks_at, hunks_of_file, put_hunks, with_hunks};
use crate::conflicts::{check_out_conflicts, check_out_conflicts_flow};
use crate::diff::{
    is_listed, lists, only_owned, owns_lines, select, DiffHunk, DiffHunkModel, FileDiff,
    FileDiffModel,
};
use crate::merge::has_oid;
use crate::objects::{BranchId, Oid};
use crate::ownership::{covers, FileOwnership, FileOwnershipModel, Ownership};
use crate::protocol::{
    ask_branch, ask_branches, ask_commit, ask_flag, ask_index, ask_maybe_oid, ask_maybe_target,
    ask_oid, ask_oids, ask_unit, fail, outcome, outcome_opt, BranchError, BranchErrorModel, Flow,
    MergeIndex, ReplyModel, Request, RequestModel, Signatures, Stop, StopModel, Tape,
};
use crate::seqs::{lemma_filter_ends, lemma_filter_next, lemma_views_push, views};
use crate::session::{applied_only, get_default_target, get_default_target_flow, keep_applied};
use crate::status::{
    get_applied_status, get_applied_status_flow, get_status_by_branch, get_status_by_branch_flow,
    BranchStatus, BranchStatusModel,
};
use crate::tree::{write_tree, write_tree_flow, write_tree_onto_commit, write_tree_onto_commit_flow};
use crate::uncommitted::{calculate_non_commited_diffs, calculate_non_commited_diffs_flow};
use vstd::prelude::*;

verus! {

/// Why committing fails.
#[derive(Debug)]
pub enum CommitError {
    /// Conflicted files are not committed.
    Conflicted,
    /// Anything else.
    Other(BranchError),
}

/// Why committing stops.
#[derive(Debug)]
pub enum CommitStop {
    /// The request has no reply yet.
    Ask(Request),
    /// It fails.
    Fail(CommitError),
}

/// The hunks that go into a commit: all, or those that are asked for.
pub open spec fn to_commit(
    files: Seq<FileDiffModel>,
    ownership: Option<Seq<FileOwnershipModel>>,
) -> Seq<FileDiffModel> {
    match ownership {
        Some(ownership) => select(
            files,
            |path: Seq<char>, h: DiffHunkModel| owns_lines(ownership, path, h),
        ),
        None => files,
    }
}

/// How making the commit comes out. Where a merge is under way, its commit is a parent too, and the
/// conflicts are over.
pub open spec fn create_commit_flow(
    s: Seq<ReplyModel>,
    head: Oid,
    tree: Oid,
    message: Seq<char>,
    signed: bool,
) -> Flow<Oid> {
    ask_maybe_oid(s, RequestModel::MergeParent).and_then(
        |parent: Option<Oid>, s: Seq<ReplyModel>|
            match parent {
                Some(parent) => ask_commit(s, RequestModel::FindCommit(parent)).and_then(
                    |found: CommitModel, s: Seq<ReplyModel>|
                        ask_oid(
                            s,
                            RequestModel::CreateCommit {
                                signatures: Signatures::User,
                                message,
                                tree,
                                parents: seq![head, parent],
                                signed,
                            },
                        ).and_then(
                            |commit: Oid, s: Seq<ReplyModel>|
                                ask_unit(s, RequestModel::ClearConflicts).and_then(
                                    |u: (), s: Seq<ReplyModel>| Flow::Done(commit, s),
                                ),
                        ),
                ),
                None => ask_oid(
                    s,
                    RequestModel::CreateCommit {
                        signatures: Signatures::User,
                        message,
                        tree,
                        parents: seq![head],
                        signed,
                    },
                ),
            },
    )
}

/// How committing some hunks to a branch comes out: its head moves to the commit.
pub open spec fn commit_files_flow(
    s: Seq<ReplyModel>,
    branch: BranchModel,
    files: Seq<FileDiffModel>,
    message: Seq<char>,
    signed: bool,
) -> Flow<Oid> {
    write_tree_onto_commit_flow(s, branch.head, files).and_then(
        |tree: Oid, s: Seq<ReplyModel>|
            ask_commit(s, RequestModel::FindCommit(branch.head)).and_then(
                |parent: CommitModel, s: Seq<ReplyModel>|
                    ask_unit(s, RequestModel::FindTree(tree)).and_then(
                        |u: (), s: Seq<ReplyModel>|
                            create_commit_flow(s, branch.head, tree, message, signed).and_then(
                                |head: Oid, s: Seq<ReplyModel>|
                                    ask_unit(
                                        s,
                                        RequestModel::WriteBranch(
                                            BranchModel { tree, head, ..branch },
                                        ),
                                    ).and_then(
                                        |u: (), s: Seq<ReplyModel>|
                                            ask_unit(s, RequestModel::UpdateIntegration).and_then(
                                                |u: (), s: Seq<ReplyModel>| Flow::Done(head, s),
                                            ),
                                    ),
                            ),
                    ),
            ),
    )
}

/// How committing to a branch comes out; it comes to nothing while there are conflicts.
pub open spec fn commit_flow(
    s: Seq<ReplyModel>,
    id: BranchId,
    message: Seq<char>,
    ownership: Option<Seq<FileOwnershipModel>>,
    signed: bool,
) -> Flow<Option<Oid>> {
    ask_maybe_target(s, RequestModel::StoredDefaultTarget).and_then(
        |target: Option<TargetModel>, s: Seq<ReplyModel>|
            match target {
                None => fail(BranchErrorModel::NoDefaultTarget),
                Some(target) => get_status_by_branch_flow(s).and_then(
                    |statuses: Seq<BranchStatusModel>, s: Seq<ReplyModel>|
                        {
                            let at = status_of(statuses, id);
                            if at >= statuses.len() {
                                fail(BranchErrorModel::BranchNotFound(id))
                            } else {
                                commit_status_flow(
                                    s,
                                    target,
                                    statuses[at],
                                    message,
                                    ownership,
                                    signed,
                                )
                            }
                        },
                ),
            },
    )
}

/// How committing what a branch holds comes out.
pub open spec fn commit_status_flow(
    s: Seq<ReplyModel>,
    target: TargetModel,
    status: BranchStatusModel,
    message: Seq<char>,
    ownership: Option<Seq<FileOwnershipModel>>,
    signed: bool,
) -> Flow<Option<Oid>> {
    calculate_non_commited_diffs_flow(s, status.branch, target, status.files).and_then(
        |files: Seq<FileDiffModel>, s: Seq<ReplyModel>|
            ask_flag(s, RequestModel::IsConflicting(None)).and_then(
                |conflicting: bool, s: Seq<ReplyModel>|
                    if conflicting {
                        Flow::Done(None, s)
                    } else {
                        commit_files_flow(
                            s,
                            status.branch,
                            to_commit(files, ownership),
                            message,
                            signed,
                        ).and_then(|commit: Oid, s: Seq<ReplyModel>| Flow::Done(Some(commit), s))
                    },
            ),
    )
}

/// Makes the commit.
fn create_commit(tape: &mut Tape, head: Oid, tree: Oid, message: &str, signed: bool) -> (r: Result<
    Oid,
    Stop,
>)
    ensures
        outcome(r, final(tape)@) == create_commit_flow(old(tape)@, head, tree, message@, signed),
{
    match tape.ask_maybe_oid(Request::MergeParent)? {
        Some(parent) => {
            tape.ask_commit(Request::FindCommit(parent))?;
            let parents: Vec<Oid> = vec![head, parent];
            assert(parents@ =~= seq![head, parent]);
            let commit = tape.ask_oid(
                Request::CreateCommit {
                    signatures: Signatures::User,
                    message: message.to_owned(),
                    tree,
                    parents,
                    signed,
                },
            )?;
            tape.ask_unit(Request::ClearConflicts)?;
            Ok(commit)
        },
        None => {
            let parents: Vec<Oid> = vec![head];
            assert(parents@ =~= seq![head]);
            tape.ask_oid(
                Request::CreateCommit {
                    signatures: Signatures::User,
                    message: message.to_owned(),
                    tree,
                    parents,
                    signed,
                },
            )
        },
    }
}

/// Commits some hunks to a branch.
fn commit_files(
    tape: &mut Tape,
    branch: &Branch,
    files: &Vec<FileDiff>,
    message: &str,
    signed: bool,
) -> (r: Result<Oid, Stop>)
    ensures
        outcome(r, final(tape)@) == commit_files_flow(
            old(tape)@,
            branch@,
            views(files@),
            message@,
            signed,
        ),
{
    let tree = write_tree_onto_commit(tape, branch.head, files)?;
    tape.ask_commit(Request::FindCommit(branch.head))?;
    tape.ask_unit(Request::FindTree(tree))?;
    let head = create_commit(tape, branch.head, tree, message, signed)?;
    let mut committed = branch.clone();
    committed.tree = tree;
    committed.head = head;
    tape.ask_unit(Request::WriteBranch(committed))?;
    tape.ask_unit(Request::UpdateIntegration)?;
    Ok(head)
}

/// Commits to a branch, unless there are conflicts.
fn try_commit(
    tape: &mut Tape,
    branch_id: BranchId,
    message: &str,
    ownership: Option<&Ownership>,
    signed: bool,
) -> (r: Result<Option<Oid>, Stop>)
    ensures
        outcome_opt(r, final(tape)@) == commit_flow(
            old(tape)@,
            branch_id,
            message@,
            (match ownership {
                Some(ownership) => Some(ownership@),
                None => None,
            }),
            signed,
        ),
{
    let default_target = match tape.ask_maybe_target(Request::StoredDefaultTarget)? {
        Some(target) => target,
        None => {
            return Err(Stop::Fail(BranchError::NoDefaultTarget));
        },
    };
    let statuses = get_status_by_branch(tape)?;
    let at: usize = find_status(&statuses, branch_id);
    if at >= statuses.len() {
        return Err(Stop::Fail(BranchError::BranchNotFound(branch_id)));
    }
    let status = &statuses[at];
    let files = calculate_non_commited_diffs(tape, &status.branch, &default_target, &status.files)?;
    let conflicting: bool = tape.ask_flag(Request::IsConflicting(None))?;
    if conflicting {
        return Ok(None);
    }
    let files = match ownership {
        Some(ownership) => only_owned(&files, ownership),
        None => files,
    };
    let commit = commit_files(tape, &status.branch, &files, message, signed)?;
    Ok(Some(commit))
}

/// Commits what a branch holds, or that part of it which `ownership` lists.
pub fn commit(
    tape: &mut Tape,
    branch_id: BranchId,
    message: &str,
    ownership: Option<&Ownership>,
    signed: bool,
) -> (r: Result<Oid, CommitStop>)
    ensures
        (match r {
            Ok(commit) => Flow::Done(Some(commit), final(tape)@),
            Err(CommitStop::Fail(CommitError::Conflicted)) => Flow::Done(None, final(tape)@),
            Err(CommitStop::Fail(CommitError::Other(error))) => fail(error@),
            Err(CommitStop::Ask(request)) => Flow::Stop(StopModel::Ask(request@)),
        }) == commit_flow(
            old(tape)@,
            branch_id,
            message@,
            (match ownership {
                Some(ownership) => Some(ownership@),
                None => None,
            }),
            signed,
        ),
{
    match try_commit(tape, branch_id, message, ownership, signed) {
        Ok(Some(commit)) => Ok(commit),
        Ok(None) => Err(CommitStop::Fail(CommitError::Conflicted)),
        Err(Stop::Ask(request)) => Err(CommitStop::Ask(request)),
        Err(Stop::Fail(error)) => Err(CommitStop::Fail(CommitError::Other(error))),
    }
}

/// The hunks to amend a commit by: those of each file in turn that are asked for. A file that is
/// asked for again gives those of the last time.
pub open spec fn to_amend(
    files: Seq<FileDiffModel>,
    ownership: Seq<FileOwnershipModel>,
) -> Seq<FileDiffModel>
    decreases ownership.len(),
{
    if ownership.len() == 0 {
        seq![]
    } else {
        let before = to_amend(files, ownership.drop_last());
        let wanted = ownership.last();
        let hunks = hunks_at(files, wanted.file_path).filter(
            |h: DiffHunkModel| lists(wanted.hunks, h),
        );
        if hunks.len() == 0 {
            before
        } else {
            with_hunks(before, wanted.file_path, hunks)
        }
    }
}

/// Whether one of some branches has the id.
pub open spec fn has_branch(branches: Seq<BranchModel>, id: BranchId) -> bool {
    exists|i: int| 0 <= i < branches.len() && (#[trigger] branches[i]).id == id
}

/// The message of a commit; nothing where it is not text.
pub open spec fn message_of(commit: CommitModel) -> Seq<char> {
    match commit.message {
        Some(message) => message,
        None => seq![],
    }
}

/// How amending the head of a branch by some hunks comes out: a new commit takes the place of the
/// head, with its author, its message and its parents.
pub open spec fn amend_head_flow(
    s: Seq<ReplyModel>,
    branch: BranchModel,
    head: CommitModel,
    files: Seq<FileDiffModel>,
    signed: bool,
) -> Flow<Oid> {
    write_tree_onto_commit_flow(s, branch.head, files).and_then(
        |tree: Oid, s: Seq<ReplyModel>|
            ask_unit(s, RequestModel::FindTree(tree)).and_then(
                |u: (), s: Seq<ReplyModel>|
                    ask_oid(
                        s,
                        RequestModel::CreateCommit {
                            signatures: Signatures::Of(head.id),
                            message: message_of(head),
                            tree,
                            parents: head.parents,
                            signed,
                        },
                    ).and_then(
                        |commit: Oid, s: Seq<ReplyModel>|
                            ask_unit(
                                s,
                                RequestModel::WriteBranch(BranchModel { head: commit, ..branch }),
                            ).and_then(
                                |u: (), s: Seq<ReplyModel>|
                                    ask_unit(s, RequestModel::UpdateIntegration).and_then(
                                        |u: (), s: Seq<ReplyModel>| Flow::Done(commit, s),
                                    ),
                            ),
                    ),
            ),
    )
}

/// How amending a branch comes out. The branch must own what is asked for, and have a commit to
/// amend.
pub open spec fn amend_status_flow(
    s: Seq<ReplyModel>,
    target: TargetModel,
    status: BranchStatusModel,
    ownership: Seq<FileOwnershipModel>,
    signed: bool,
) -> Flow<Oid> {
    if !covers(status.branch.ownership, ownership) {
        fail(BranchErrorModel::OwnershipNotFound)
    } else {
        ask_oids(
            s,
            RequestModel::LogIds { from: status.branch.head, until: target.sha },
        ).and_then(
            |commits: Seq<Oid>, s: Seq<ReplyModel>|
                if commits.len() == 0 {
                    fail(BranchErrorModel::NoCommits)
                } else {
                    calculate_non_commited_diffs_flow(s, status.branch, target, status.files).and_then(
                        |files: Seq<FileDiffModel>, s: Seq<ReplyModel>|
                            ask_commit(s, RequestModel::FindCommit(status.branch.head)).and_then(
                                |head: CommitModel, s: Seq<ReplyModel>|
                                    amend_head_flow(
                                        s,
                                        status.branch,
                                        head,
                                        to_amend(files, ownership),
                                        signed,
                                    ),
                            ),
                    )
                },
        )
    }
}

/// How amending a branch comes out. Only an applied branch is amended, and none while there are
/// conflicts.
pub open spec fn amend_flow(
    s: Seq<ReplyModel>,
    id: BranchId,
    ownership: Seq<FileOwnershipModel>,
    signed: bool,
) -> Flow<Oid> {
    ask_flag(s, RequestModel::IsConflicting(None)).and_then(
        |conflicting: bool, s: Seq<ReplyModel>|
            if conflicting {
                fail(BranchErrorModel::AmendWhileConflicted)
            } else {
                ask_unit(s, RequestModel::OpenSession).and_then(
                    |u: (), s: Seq<ReplyModel>|
                        ask_branches(s, RequestModel::ListBranches).and_then(
                            |branches: Seq<BranchModel>, s: Seq<ReplyModel>|
                                if !has_branch(branches, id) {
                                    fail(BranchErrorModel::BranchNotFound(id))
                                } else if !has_branch(applied_only(branches), id) {
                                    fail(BranchErrorModel::NotApplied)
                                } else {
                                    amend_applied_flow(
                                        s,
                                        id,
                                        applied_only(branches),
                                        ownership,
                                        signed,
                                    )
                                },
                        ),
                )
            },
    )
}

/// How amending an applied branch comes out.
pub open spec fn amend_applied_flow(
    s: Seq<ReplyModel>,
    id: BranchId,
    applied: Seq<BranchModel>,
    ownership: Seq<FileOwnershipModel>,
    signed: bool,
) -> Flow<Oid> {
    get_default_target_flow(s).and_then(
        |target: Option<TargetModel>, s: Seq<ReplyModel>|
            match target {
                None => fail(BranchErrorModel::NoDefaultTarget),
                Some(target) => get_applied_status_flow(s, target, applied).and_then(
                    |statuses: Seq<BranchStatusModel>, s: Seq<ReplyModel>|
                        {
                            let at = status_of(statuses, id);
                            if at >= statuses.len() {
                                fail(BranchErrorModel::BranchNotFound(id))
                            } else {
                                amend_status_flow(s, target, statuses[at], ownership, signed)
                            }
                        },
                ),
            },
    )
}

/// The hunks of a file that are asked for.
fn keep_listed(hunks: &Vec<DiffHunk>, wanted: &FileOwnership) -> (kept: Vec<DiffHunk>)
    ensures
        views(kept@) == views(hunks@).filter(|h: DiffHunkModel| lists(wanted@.hunks, h)),
{
    let ghost all = views(hunks@);
    let ghost keep = |h: DiffHunkModel| lists(wanted@.hunks, h);
    let mut kept: Vec<DiffHunk> = Vec::new();
    let mut i: usize = 0;
    proof {
        lemma_filter_ends(all, keep);
        assert(views(kept@) =~= seq![]);
    }
    while i < hunks.len()
        invariant
            i <= hunks@.len(),
            all == views(hunks@),
            keep == (|h: DiffHunkModel| lists(wanted@.hunks, h)),
            views(kept@) == all.take(i as int).filter(keep),
        decreases hunks@.len() - i,
    {
        let ghost before = kept@;
        proof {
            lemma_filter_next(all, i as int, keep);
        }
        if is_listed(&wanted.hunks, &hunks[i]) {
            kept.push(hunks[i].clone());
            proof {
                lemma_views_push(before, kept@.last());
            }
        }
        i = i + 1;
    }
    kept
}

/// The hunks to amend a commit by.
pub fn hunks_to_amend(files: &Vec<FileDiff>, ownership: &Ownership) -> (kept: Vec<FileDiff>)
    ensures
        views(kept@) == to_amend(views(files@), ownership@),
{
    let ghost all = ownership@;
    let mut kept: Vec<FileDiff> = Vec::new();
    let mut i: usize = 0;
    proof {
        assert(all.take(0) =~= seq![]);
        assert(views(kept@) =~= seq![]);
    }
    while i < ownership.files.len()
        invariant
            i <= ownership.files@.len(),
            all == ownership@,
            views(kept@) == to_amend(views(files@), all.take(i as int)),
        decreases ownership.files@.len() - i,
    {
        assert(all.take(i + 1).drop_last() =~= all.take(i as int));
        let wanted = &ownership.files[i];
        let hunks = keep_listed(&hunks_of_file(files, &wanted.file_path), wanted);
        if hunks.len() > 0 {
            put_hunks(&mut kept, &wanted.file_path, hunks);
        }
        i = i + 1;
    }
    assert(all.take(i as int) =~= all);
    kept
}

/// Whether one of some branches has the id.
fn is_among(branches: &Vec<Branch>, id: BranchId) -> (r: bool)
    ensures
        r == has_branch(views(branches@), id),
{
    let mut i: usize = 0;
    while i < branches.len()
        invariant
            i <= branches@.len(),
            forall|k: int| 0 <= k < i ==> (#[trigger] views(branches@)[k]).id != id,
        decreases branches@.len() - i,
    {
        if branches[i].id == id {
            assert(views(branches@)[i as int].id == id);
            return true;
        }
        i = i + 1;
    }
    false
}

/// The message of a commit; nothing where it is not text.
fn message_or_nothing(commit: &Commit) -> (message: String)
    ensures
        message@ == message_of(commit@),
{
    match &commit.message {
        Some(message) => message.clone(),
        None => {
            let nothing = String::new();
            assert(nothing@ =~= seq![]);
            nothing
        },
    }
}

/// Amends the head of a branch by some hunks.
fn amend_head(
    tape: &mut Tape,
    branch: &Branch,
    head: &Commit,
    files: &Vec<FileDiff>,
    signed: bool,
) -> (r: Result<Oid, Stop>)
    ensures
        outcome(r, final(tape)@) == amend_head_flow(
            old(tape)@,
            branch@,
            head@,
            views(files@),
            signed,
        ),
{
    let tree = write_tree_onto_commit(tape, branch.head, files)?;
    tape.ask_unit(Request::FindTree(tree))?;
    let commit = tape.ask_oid(
        Request::CreateCommit {
            signatures: Signatures::Of(head.id),
            message: message_or_nothing(head),
            tree,
            parents: head.parents.clone(),
            signed,
        },
    )?;
    let mut amended = branch.clone();
    amended.head = commit;
    tape.ask_unit(Request::WriteBranch(amended))?;
    tape.ask_unit(Request::UpdateIntegration)?;
    Ok(commit)
}

/// Amends the head of a branch by what the branch owns of `target_ownership`.
pub fn amend(tape: &mut Tape, branch_id: BranchId, target_ownership: &Ownership, signed: bool) -> (r:
    Result<Oid, Stop>)
    ensures
        outcome(r, final(tape)@) == amend_flow(
            old(tape)@,
            branch_id,
            target_ownership@,
            signed,
        ),
{
    let conflicting: bool = tape.ask_flag(Request::IsConflicting(None))?;
    if conflicting {
        return Err(Stop::Fail(BranchError::AmendWhileConflicted));
    }
    tape.ask_unit(Request::OpenSession)?;
    let branches = tape.ask_branches(Request::ListBranches)?;
    if !is_among(&branches, branch_id) {
        return Err(Stop::Fail(BranchError::BranchNotFound(branch_id)));
    }
    let applied = keep_applied(&branches, true);
    if !is_among(&applied, branch_id) {
        return Err(Stop::Fail(BranchError::NotApplied));
    }
    let target = match get_default_target(tape)? {
        Some(target) => target,
        None => {
            return Err(Stop::Fail(BranchError::NoDefaultTarget));
        },
    };
    let statuses = get_applied_status(tape, &target, applied)?;
    let at: usize = find_status(&statuses, branch_id);
    if at >= statuses.len() {
        return Err(Stop::Fail(BranchError::BranchNotFound(branch_id)));
    }
    let status = &statuses[at];
    if !status.branch.ownership.contains(target_ownership) {
        return Err(Stop::Fail(BranchError::OwnershipNotFound));
    }
    let commits = tape.ask_oids(Request::LogIds { from: status.branch.head, until: target.sha })?;
    if commits.len() == 0 {
        return Err(Stop::Fail(BranchError::NoCommits));
    }
    let files = calculate_non_commited_diffs(tape, &status.branch, &target, &status.files)?;
    let head = tape.ask_commit(Request::FindCommit(status.branch.head))?;
    let files = hunks_to_amend(&files, target_ownership);
    amend_head(tape, &status.branch, &head, &files, signed)
}

/// The branches of some statuses.
pub open spec fn branches_of(statuses: Seq<BranchStatusModel>) -> Seq<BranchModel> {
    Seq::new(statuses.len(), |i: int| statuses[i].branch)
}

/// How making the commit that stands for what a branch holds comes out. A pick onto it shows the
/// conflicts with what is not committed.
pub open spec fn wip_commit_flow(
    s: Seq<ReplyModel>,
    target: TargetModel,
    head: Oid,
    files: Seq<FileDiffModel>,
) -> Flow<Oid> {
    write_tree_flow(s, target, files).and_then(
        |tree: Oid, s: Seq<ReplyModel>|
            ask_unit(s, RequestModel::FindTree(tree)).and_then(
                |u: (), s: Seq<ReplyModel>|
                    ask_oid(
                        s,
                        RequestModel::CreateCommit {
                            signatures: Signatures::Program,
                            message: "wip cherry picking commit"@,
                            tree,
                            parents: seq![head],
                            signed: false,
                        },
                    ).and_then(
                        |wip: Oid, s: Seq<ReplyModel>|
                            ask_commit(s, RequestModel::FindCommit(wip)).and_then(
                                |found: CommitModel, s: Seq<ReplyModel>| Flow::Done(wip, s),
                            ),
                    ),
            ),
    )
}

/// How committing a pick without conflicts comes out: the branch and the working directory move to
/// it.
pub open spec fn commit_pick_flow(
    s: Seq<ReplyModel>,
    branch: BranchModel,
    picked: CommitModel,
    index: MergeIndex,
) -> Flow<Oid> {
    ask_oid(s, RequestModel::WriteIndex(index.handle)).and_then(
        |tree: Oid, s: Seq<ReplyModel>|
            ask_unit(s, RequestModel::FindTree(tree)).and_then(
                |u: (), s: Seq<ReplyModel>|
                    ask_commit(s, RequestModel::FindCommit(branch.head)).and_then(
                        |head: CommitModel, s: Seq<ReplyModel>|
                            ask_oid(
                                s,
                                RequestModel::CreateCommit {
                                    signatures: Signatures::Of(picked.id),
                                    message: message_of(picked),
                                    tree,
                                    parents: seq![branch.head],
                                    signed: false,
                                },
                            ).and_then(
                                |commit: Oid, s: Seq<ReplyModel>|
                                    ask_unit(
                                        s,
                                        RequestModel::CheckoutTree {
                                            tree,
                                            remove_untracked: true,
                                        },
                                    ).and_then(
                                        |u: (), s: Seq<ReplyModel>|
                                            ask_unit(
                                                s,
                                                RequestModel::WriteBranch(
                                                    BranchModel { head: commit, ..branch },
                                                ),
                                            ).and_then(
                                                |u: (), s: Seq<ReplyModel>| Flow::Done(commit, s),
                                            ),
                                    ),
                            ),
                    ),
            ),
    )
}

/// How finishing a pick comes out: with conflicts it is checked out for them to be resolved, and
/// there is no commit.
pub open spec fn finish_pick_flow(
    s: Seq<ReplyModel>,
    branch: BranchModel,
    picked: CommitModel,
    index: MergeIndex,
) -> Flow<Option<Oid>> {
    (if index.conflicted {
        check_out_conflicts_flow(s, index, branch.head).and_then(
            |u: (), s: Seq<ReplyModel>| Flow::Done(None, s),
        )
    } else {
        commit_pick_flow(s, branch, picked, index).and_then(
            |commit: Oid, s: Seq<ReplyModel>| Flow::Done(Some(commit), s),
        )
    }).and_then(
        |commit: Option<Oid>, s: Seq<ReplyModel>|
            ask_unit(s, RequestModel::UpdateIntegration).and_then(
                |u: (), s: Seq<ReplyModel>| Flow::Done(commit, s),
            ),
    )
}

/// How picking a commit onto a branch comes out once the target is known. The other branches are
/// unapplied.
pub open spec fn pick_onto_flow(
    s: Seq<ReplyModel>,
    branch: BranchModel,
    id: BranchId,
    picked: CommitModel,
    target: TargetModel,
) -> Flow<Option<Oid>> {
    ask_branches(s, RequestModel::ListBranches).and_then(
        |branches: Seq<BranchModel>, s: Seq<ReplyModel>|
            get_applied_status_flow(s, target, applied_only(branches)).and_then(
                |statuses: Seq<BranchStatusModel>, s: Seq<ReplyModel>|
                    {
                        let at = status_of(statuses, id);
                        if at >= statuses.len() {
                            fail(BranchErrorModel::BranchNotFound(id))
                        } else {
                            wip_commit_flow(s, target, branch.head, statuses[at].files).and_then(
                                |wip: Oid, s: Seq<ReplyModel>|
                                    ask_index(
                                        s,
                                        RequestModel::CherryPick { onto: wip, commit: picked.id },
                                    ).and_then(
                                        |index: MergeIndex, s: Seq<ReplyModel>|
                                            unapply_each_flow(
                                                s,
                                                branches_of(other_statuses(statuses, branch.id)),
                                                0,
                                            ).and_then(
                                                |u: (), s: Seq<ReplyModel>|
                                                    finish_pick_flow(s, branch, picked, index),
                                            ),
                                    ),
                            )
                        }
                    },
            ),
    )
}

/// How picking a commit onto a branch comes out. Nothing is picked onto an unapplied branch, or
/// while there are conflicts.
pub open spec fn cherry_pick_flow(s: Seq<ReplyModel>, id: BranchId, oid: Oid) -> Flow<Option<Oid>> {
    ask_flag(s, RequestModel::IsConflicting(None)).and_then(
        |conflicting: bool, s: Seq<ReplyModel>|
            if conflicting {
                fail(BranchErrorModel::CherryPickWhileConflicted)
            } else {
                ask_unit(s, RequestModel::OpenSession).and_then(
                    |u: (), s: Seq<ReplyModel>|
                        ask_branch(s, RequestModel::ReadBranch(id)).and_then(
                            |branch: BranchModel, s: Seq<ReplyModel>|
                                if !branch.applied {
                                    fail(BranchErrorModel::CherryPickUnapplied)
                                } else {
                                    cherry_pick_applied_flow(s, branch, id, oid)
                                },
                        ),
                )
            },
    )
}

/// How picking a commit onto an applied branch comes out.
pub open spec fn cherry_pick_applied_flow(
    s: Seq<ReplyModel>,
    branch: BranchModel,
    id: BranchId,
    oid: Oid,
) -> Flow<Option<Oid>> {
    ask_commit(s, RequestModel::FindCommit(oid)).and_then(
        |picked: CommitModel, s: Seq<ReplyModel>|
            ask_commit(s, RequestModel::FindCommit(branch.head)).and_then(
                |head: CommitModel, s: Seq<ReplyModel>|
                    get_default_target_flow(s).and_then(
                        |target: Option<TargetModel>, s: Seq<ReplyModel>|
                            match target {
                                None => fail(BranchErrorModel::NoDefaultTarget),
                                Some(target) => pick_onto_flow(s, branch, id, picked, target),
                            },
                    ),
            ),
    )
}

/// Makes the commit that stands for what a branch holds.
fn wip_commit(tape: &mut Tape, target: &Target, head: Oid, files: &Vec<FileDiff>) -> (r: Result<
    Oid,
    Stop,
>)
    ensures
        outcome(r, final(tape)@) == wip_commit_flow(old(tape)@, target@, head, views(files@)),
{
    let tree = write_tree(tape, target, files)?;
    tape.ask_unit(Request::FindTree(tree))?;
    let parents: Vec<Oid> = vec![head];
    assert(parents@ =~= seq![head]);
    let wip = tape.ask_oid(
        Request::CreateCommit {
            signatures: Signatures::Program,
            message: "wip cherry picking commit".to_owned(),
            tree,
            parents,
            signed: false,
        },
    )?;
    tape.ask_commit(Request::FindCommit(wip))?;
    Ok(wip)
}

/// Commits a pick without conflicts.
fn commit_pick(tape: &mut Tape, branch: Branch, picked: &Commit, index: MergeIndex) -> (r: Result<
    Oid,
    Stop,
>)
    ensures
        outcome(r, final(tape)@) == commit_pick_flow(old(tape)@, branch@, picked@, index),
{
    let tree = tape.ask_oid(Request::WriteIndex(index.handle))?;
    tape.ask_unit(Request::FindTree(tree))?;
    tape.ask_commit(Request::FindCommit(branch.head))?;
    let parents: Vec<Oid> = vec![branch.head];
    assert(parents@ =~= seq![branch@.head]);
    let commit = tape.ask_oid(
        Request::CreateCommit {
            signatures: Signatures::Of(picked.id),
            message: message_or_nothing(picked),
            tree,
            parents,
            signed: false,
        },
    )?;
    tape.ask_unit(Request::CheckoutTree { tree, remove_untracked: true })?;
    let mut moved = branch;
    moved.head = commit;
    tape.ask_unit(Request::WriteBranch(moved))?;
    Ok(commit)
}

/// Finishes a pick.
fn finish_pick(tape: &mut Tape, branch: Branch, picked: &Commit, index: MergeIndex) -> (r: Result<
    Option<Oid>,
    Stop,
>)
    ensures
        outcome_opt(r, final(tape)@) == finish_pick_flow(old(tape)@, branch@, picked@, index),
{
    let commit = if index.conflicted {
        check_out_conflicts(tape, index, branch.head)?;
        None
    } else {
        let commit = commit_pick(tape, branch, picked, index)?;
        Some(commit)
    };
    tape.ask_unit(Request::UpdateIntegration)?;
    Ok(commit)
}

/// The branches of the statuses other than one.
fn other_branches(statuses: &Vec<BranchStatus>, id: BranchId) -> (branches: Vec<Branch>)
    ensures
        views(branches@) == branches_of(other_statuses(views(statuses@), id)),
{
    let ghost all = views(statuses@);
    let ghost other = |status: BranchStatusModel| status.branch.id != id;
    let mut branches: Vec<Branch> = Vec::new();
    let mut i: usize = 0;
    proof {
        lemma_filter_ends(all, other);
        assert(views(branches@) =~= branches_of(all.take(0).filter(other)));
    }
    while i < statuses.len()
        invariant
            i <= statuses@.len(),
            all == views(statuses@),
            other == (|status: BranchStatusModel| status.branch.id != id),
            views(branches@) == branches_of(all.take(i as int).filter(other)),
        decreases statuses@.len() - i,
    {
        let ghost before = branches@;
        proof {
            lemma_filter_next(all, i as int, other);
        }
        if statuses[i].branch.id != id {
            branches.push(statuses[i].branch.clone());
            proof {
                lemma_views_push(before, branches@.last());
                assert(views(branches@) =~= branches_of(all.take(i + 1).filter(other)));
            }
        }
        i = i + 1;
    }
    branches
}

/// Applies the changes of a commit to a branch.
pub fn cherry_pick(tape: &mut Tape, branch_id: BranchId, target_commit_oid: Oid) -> (r: Result<
    Option<Oid>,
    Stop,
>)
    ensures
        outcome_opt(r, final(tape)@) == cherry_pick_flow(old(tape)@, branch_id, target_commit_oid),
{
    let conflicting: bool = tape.ask_flag(Request::IsConflicting(None))?;
    if conflicting {
        return Err(Stop::Fail(BranchError::CherryPickWhileConflicted));
    }
    tape.ask_unit(Request::OpenSession)?;
    let branch = tape.ask_branch(Request::ReadBranch(branch_id))?;
    if !branch.applied {
        return Err(Stop::Fail(BranchError::CherryPickUnapplied));
    }
    let picked = tape.ask_commit(Request::FindCommit(target_commit_oid))?;
    tape.ask_commit(Request::FindCommit(branch.head))?;
    let target = match get_default_target(tape)? {
        Some(target) => target,
        None => {
            return Err(Stop::Fail(BranchError::NoDefaultTarget));
        },
    };
    let branches = tape.ask_branches(Request::ListBranches)?;
    let statuses = get_applied_status(tape, &target, keep_applied(&branches, true))?;
    let at: usize = find_status(&statuses, branch_id);
    if at >= statuses.len() {
        return Err(Stop::Fail(BranchError::BranchNotFound(branch_id)));
    }
    let wip = wip_commit(tape, &target, branch.head, &statuses[at].files)?;
    let index = tape.ask_index(Request::CherryPick { onto: wip, commit: picked.id })?;
    let others = other_branches(&statuses, branch.id);
    unapply_each(tape, &others)?;
    finish_pick(tape, branch, &picked, index)
}

/// How resetting a branch comes out: its head moves to the commit, which must be one of its own or
/// the target.
pub open spec fn reset_branch_flow(s: Seq<ReplyModel>, id: BranchId, oid: Oid) -> Flow<()> {
    ask_unit(s, RequestModel::OpenSession).and_then(
        |u: (), s: Seq<ReplyModel>|
            get_default_target_flow(s).and_then(
                |target: Option<TargetModel>, s: Seq<ReplyModel>|
                    match target {
                        None => fail(BranchErrorModel::NoDefaultTarget),
                        Some(target) => ask_branch(s, RequestModel::ReadBranch(id)).and_then(
                            |branch: BranchModel, s: Seq<ReplyModel>|
                                if branch.head == oid {
                                    Flow::Done((), s)
                                } else {
                                    check_reset_flow(s, target, branch, oid).and_then(
                                        |u: (), s: Seq<ReplyModel>|
                                            ask_unit(
                                                s,
                                                RequestModel::WriteBranch(
                                                    BranchModel { head: oid, ..branch },
                                                ),
                                            ).and_then(
                                                |u: (), s: Seq<ReplyModel>|
                                                    ask_unit(s, RequestModel::UpdateIntegration),
                                            ),
                                    )
                                },
                        ),
                    },
            ),
    )
}

/// How checking that a branch can be reset to a commit comes out.
pub open spec fn check_reset_flow(
    s: Seq<ReplyModel>,
    target: TargetModel,
    branch: BranchModel,
    oid: Oid,
) -> Flow<()> {
    if target.sha == oid {
        Flow::Done((), s)
    } else {
        ask_oids(s, RequestModel::LogIds { from: branch.head, until: target.sha }).and_then(
            |commits: Seq<Oid>, s: Seq<ReplyModel>|
                if commits.contains(oid) {
                    Flow::Done((), s)
                } else {
                    fail(BranchErrorModel::CommitNotInBranch { commit: oid, branch: branch.name })
                },
        )
    }
}

/// Resets a branch to one of its commits.
pub fn reset_branch(tape: &mut Tape, branch_id: BranchId, target_commit_oid: Oid) -> (r: Result<
    (),
    Stop,
>)
    ensures
        outcome(r, final(tape)@) == reset_branch_flow(old(tape)@, branch_id, target_commit_oid),
{
    tape.ask_unit(Request::OpenSession)?;
    let target = match get_default_target(tape)? {
        Some(target) => target,
        None => {
            return Err(Stop::Fail(BranchError::NoDefaultTarget));
        },
    };
    let branch = tape.ask_branch(Request::ReadBranch(branch_id))?;
    if branch.head == target_commit_oid {
        return Ok(());
    }
    if target.sha != target_commit_oid {
        let commits = tape.ask_oids(Request::LogIds { from: branch.head, until: target.sha })?;
        if !has_oid(commits, target_commit_oid) {
            return Err(
                Stop::Fail(
                    BranchError::CommitNotInBranch {
                        commit: target_commit_oid,
                        branch: branch.name.clone(),
                    },
                ),
            );
        }
    }
    let mut moved = branch;
    moved.head = target_commit_oid;
    tape.ask_unit(Request::WriteBranch(moved))?;
    tape.ask_unit(Request::UpdateIntegration)
}

} // verus!
