//! Listing the virtual branches as they are shown.

use crate::author::{author_of, Author};
use crate::branch::{
    Branch, BranchModel, Commit, CommitModel, RemoteBranch, RemoteBranchInfo, Target, TargetModel,
};
use crate::diff::{distinct_paths, find_file, lemma_place_of, place_of, FileDiff, FileDiffModel};
use crate::files::{
    diffs_to_virtual_files, diffs_to_virtual_files_flow, list_virtual_commit_files,
    list_virtual_commit_files_flow,
};
use crate::merge::{
    has_oid, is_commit_integrated, is_commit_integrated_flow, is_requires_force,
    is_requires_force_flow,
};
use crate::objects::Oid;
use crate::ownership::{lemma_position_of, position_of, FileOwnershipModel, Ownership};
use crate::presentation::{
    VirtualBranch, VirtualBranchCommit, VirtualBranchFile, VirtualBranchHunk, VirtualBranchModel,
    VirtualCommitModel, VirtualFileModel, VirtualHunkModel,
};
use crate::protocol::{
    ask_commit, ask_commits, ask_flag, ask_oid, ask_oids, ask_remote, ask_unit, fail, outcome,
    outcome_opt, outcome_seq, reply_to, BranchError, BranchErrorModel, FailureKind, Flow, Reply,
    ReplyModel, Request, RequestModel, Stop, Tape,
};
use crate::seqs::{
    is_ordered, lemma_views_push, sort_with_keys, sorted_by_key, sorting_orders_the_elements,
    view_opt, views,
};
use crate::session::{get_default_target, get_default_target_flow};
use crate::status::{
    get_status_by_branch, get_status_by_branch_flow, BranchStatus, BranchStatusModel,
};
use crate::uncommitted::{calculate_non_commited_diffs, calculate_non_commited_diffs_flow};
use vstd::prelude::*;

verus! {

/// Whether a commit counts as pushed: it is among the pushed commits, or these are not known.
pub open spec fn is_pushed(pushed: Option<Seq<Oid>>, oid: Oid) -> bool {
    match pushed {
        Some(pushed) => pushed.contains(oid),
        None => true,
    }
}

/// How showing a commit comes out.
pub open spec fn commit_to_vbranch_commit_flow(
    s: Seq<ReplyModel>,
    target: TargetModel,
    commit: CommitModel,
    pushed: Option<Seq<Oid>>,
) -> Flow<VirtualCommitModel> {
    if commit.seconds < 0 {
        fail(BranchErrorModel::TimeBefore1970)
    } else {
        match commit.message {
            None => fail(BranchErrorModel::MessageNotUtf8),
            Some(description) => list_virtual_commit_files_flow(s, commit).and_then(
                |files: Seq<VirtualFileModel>, s: Seq<ReplyModel>|
                    is_commit_integrated_flow(s, target, commit).and_then(
                        |is_integrated: bool, s: Seq<ReplyModel>|
                            Flow::Done(
                                VirtualCommitModel {
                                    id: commit.id,
                                    description,
                                    created_at: (commit.seconds * 1000) as u128,
                                    author: author_of(commit.author),
                                    is_remote: is_pushed(pushed, commit.id),
                                    files,
                                    is_integrated,
                                },
                                s,
                            ),
                    ),
            ),
        }
    }
}

/// A commit as it is shown.
pub fn commit_to_vbranch_commit(
    tape: &mut Tape,
    target: &Target,
    commit: &Commit,
    upstream_commits: Option<&Vec<Oid>>,
) -> (r: Result<VirtualBranchCommit, Stop>)
    ensures
        outcome(r, final(tape)@) == commit_to_vbranch_commit_flow(
            old(tape)@,
            target@,
            commit@,
            (match upstream_commits {
                Some(pushed) => Some(pushed@),
                None => None,
            }),
        ),
{
    if commit.seconds < 0 {
        return Err(Stop::Fail(BranchError::TimeBefore1970));
    }
    let created_at: u128 = commit.seconds as u128 * 1000;
    let description: String = match &commit.message {
        Some(message) => message.clone(),
        None => {
            return Err(Stop::Fail(BranchError::MessageNotUtf8));
        },
    };
    let is_remote: bool = match upstream_commits {
        Some(pushed) => has_oid(pushed, commit.id),
        None => true,
    };
    let files = list_virtual_commit_files(tape, commit)?;
    let is_integrated: bool = is_commit_integrated(tape, target, commit)?;
    Ok(
        VirtualBranchCommit {
            id: commit.id,
            description,
            created_at,
            author: Author::from(&commit.author),
            is_remote,
            files,
            is_integrated,
        },
    )
}

/// How showing some commits comes out, behind those shown already.
pub open spec fn show_commits_flow(
    s: Seq<ReplyModel>,
    target: TargetModel,
    commits: Seq<CommitModel>,
    pushed: Seq<Oid>,
    shown: Seq<VirtualCommitModel>,
) -> Flow<Seq<VirtualCommitModel>>
    decreases commits.len() - shown.len(),
{
    let i = shown.len() as int;
    if i >= commits.len() {
        Flow::Done(shown, s)
    } else {
        commit_to_vbranch_commit_flow(s, target, commits[i], Some(pushed)).and_then(
            |commit: VirtualCommitModel, s: Seq<ReplyModel>|
                show_commits_flow(s, target, commits, pushed, shown.push(commit)),
        )
    }
}

/// Shows some commits.
fn show_commits(tape: &mut Tape, target: &Target, commits: &Vec<Commit>, pushed: &Vec<Oid>) -> (r:
    Result<Vec<VirtualBranchCommit>, Stop>)
    ensures
        outcome_seq(r, final(tape)@) == show_commits_flow(
            old(tape)@,
            target@,
            views(commits@),
            pushed@,
            seq![],
        ),
{
    let mut shown: Vec<VirtualBranchCommit> = Vec::new();
    let mut i: usize = 0;
    assert(views(shown@) =~= seq![]);
    while i < commits.len()
        invariant
            i == shown@.len() <= commits@.len(),
            show_commits_flow(old(tape)@, target@, views(commits@), pushed@, seq![])
                == show_commits_flow(tape@, target@, views(commits@), pushed@, views(shown@)),
        decreases commits@.len() - i,
    {
        let ghost before = shown@;
        let commit = commit_to_vbranch_commit(tape, target, &commits[i], Some(pushed))?;
        shown.push(commit);
        proof {
            lemma_views_push(before, shown@.last());
        }
        i = i + 1;
    }
    Ok(shown)
}

/// How looking for the upstream branch of a branch comes out: the commit at its head, or nothing
/// where there is no such branch.
pub open spec fn find_upstream_flow(s: Seq<ReplyModel>, branch: BranchModel) -> Flow<
    Option<CommitModel>,
> {
    match branch.upstream {
        None => Flow::Done(None, s),
        Some(upstream) => reply_to(s, RequestModel::FindBranch(upstream.refname())).and_then(
            |reply: ReplyModel, s: Seq<ReplyModel>|
                match reply {
                    ReplyModel::MaybeOid(_) => ask_commit(
                        s,
                        RequestModel::PeelBranch(upstream.refname()),
                    ).and_then(
                        |commit: CommitModel, s: Seq<ReplyModel>| Flow::Done(Some(commit), s),
                    ),
                    ReplyModel::Failed(failure) => if failure.kind == FailureKind::NotFound {
                        Flow::Done(None, s)
                    } else {
                        fail(BranchErrorModel::Outside(failure))
                    },
                    _ => fail(BranchErrorModel::UnexpectedReply),
                },
        ),
    }
}

/// The commit at the head of the upstream branch of a branch.
fn find_upstream(tape: &mut Tape, branch: &Branch) -> (r: Result<Option<Commit>, Stop>)
    ensures
        outcome_opt(r, final(tape)@) == find_upstream_flow(old(tape)@, branch@),
{
    let refname: String = match &branch.upstream {
        Some(upstream) => upstream.refname(),
        None => {
            return Ok(None);
        },
    };
    match tape.reply_to(Request::FindBranch(refname.clone()))? {
        Reply::MaybeOid(_) => {
            let commit = tape.ask_commit(Request::PeelBranch(refname))?;
            Ok(Some(commit))
        },
        Reply::Failed(failure) => {
            if failure.kind == FailureKind::NotFound {
                Ok(None)
            } else {
                Err(Stop::Fail(BranchError::Outside(failure.clone())))
            }
        },
        _ => Err(Stop::Fail(BranchError::UnexpectedReply)),
    }
}

/// How finding the commits that have been pushed comes out: those of the upstream branch that the
/// target has not.
pub open spec fn pushed_commits_flow(
    s: Seq<ReplyModel>,
    target: TargetModel,
    upstream: Option<CommitModel>,
) -> Flow<Seq<Oid>> {
    match upstream {
        None => Flow::Done(seq![], s),
        Some(upstream) => ask_oid(s, RequestModel::MergeBase(upstream.id, target.sha)).and_then(
            |base: Oid, s: Seq<ReplyModel>|
                ask_oids(s, RequestModel::LogIds { from: upstream.id, until: base }),
        ),
    }
}

/// The commits that have been pushed.
fn pushed_commits(tape: &mut Tape, target: &Target, upstream: &Option<Commit>) -> (r: Result<
    Vec<Oid>,
    Stop,
>)
    ensures
        (match r {
            Ok(oids) => Flow::Done(oids@, final(tape)@),
            Err(stop) => Flow::Stop(stop@),
        }) == pushed_commits_flow(old(tape)@, target@, view_opt(*upstream)),
{
    match upstream {
        None => {
            let none: Vec<Oid> = Vec::new();
            assert(none@ =~= seq![]);
            Ok(none)
        },
        Some(upstream) => {
            let base = tape.ask_oid(Request::MergeBase(upstream.id, target.sha))?;
            let oids = tape.ask_oids(Request::LogIds { from: upstream.id, until: base })?;
            let copy = oids.clone();
            assert(copy@ =~= oids@);
            Ok(copy)
        },
    }
}

/// How finding out whether a branch is up to date with the target comes out. An applied branch is.
pub open spec fn base_current_flow(s: Seq<ReplyModel>, target: TargetModel, branch: BranchModel) -> Flow<
    bool,
> {
    if branch.applied {
        Flow::Done(true, s)
    } else {
        ask_oid(s, RequestModel::MergeBase(target.sha, branch.head)).and_then(
            |base: Oid, s: Seq<ReplyModel>| Flow::Done(base == target.sha, s),
        )
    }
}

/// How describing the upstream branch of a branch comes out, where it has been found.
pub open spec fn describe_upstream_flow(
    s: Seq<ReplyModel>,
    branch: BranchModel,
    found: bool,
) -> Flow<Option<RemoteBranchInfo>> {
    match branch.upstream {
        Some(upstream) => if found {
            ask_remote(
                s,
                RequestModel::DescribeRemote { name: upstream.refname(), head: branch.head },
            )
        } else {
            Flow::Done(None, s)
        },
        None => Flow::Done(None, s),
    }
}

/// The upstream branch of a branch as it is shown.
fn describe_upstream(tape: &mut Tape, branch: &Branch, found: bool) -> (r: Result<
    Option<RemoteBranch>,
    Stop,
>)
    ensures
        outcome_opt(r, final(tape)@) == describe_upstream_flow(old(tape)@, branch@, found),
{
    match &branch.upstream {
        Some(upstream) => {
            if found {
                tape.ask_remote(
                    Request::DescribeRemote { name: upstream.refname(), head: branch.head },
                )
            } else {
                Ok(None)
            }
        },
        None => Ok(None),
    }
}

/// The place of a file that the branch does not own.
pub const LAST_PLACE: usize = 999;

/// The place of a file among the files of a branch: that among the owned files.
pub open spec fn place_among(owned: Seq<FileOwnershipModel>, path: Seq<char>) -> int {
    let at = position_of(owned, path);
    if at < owned.len() {
        at
    } else {
        LAST_PLACE as int
    }
}

/// Some files in the order in which a branch owns them.
pub open spec fn by_ownership(files: Seq<VirtualFileModel>, owned: Seq<FileOwnershipModel>) -> Seq<
    VirtualFileModel,
> {
    sorted_by_key(files, |f: VirtualFileModel| place_among(owned, f.path))
}

/// Sorts some files into the order in which a branch owns them.
fn sort_by_ownership(files: Vec<VirtualBranchFile>, ownership: &Ownership) -> (sorted: Vec<
    VirtualBranchFile,
>)
    ensures
        views(sorted@) == by_ownership(views(files@), ownership@),
{
    let mut keys: Vec<usize> = Vec::new();
    let mut i: usize = 0;
    while i < files.len()
        invariant
            i <= files@.len(),
            keys@.len() == i,
            forall|k: int|
                0 <= k < i ==> keys@[k] == place_among(ownership@, (#[trigger] files@[k])@.path),
        decreases files@.len() - i,
    {
        let at: usize = ownership.position(&files[i].path);
        proof {
            lemma_position_of(ownership@, files@[i as int]@.path);
        }
        let key: usize = if at < ownership.files.len() {
            at
        } else {
            LAST_PLACE
        };
        keys.push(key);
        i = i + 1;
    }
    sort_with_keys(
        files,
        keys,
        Ghost(|f: VirtualFileModel| place_among(ownership@, f.path)),
    )
}

/// Whether a diff is, as it stands, that of one of the hunks of a file.
pub open spec fn is_seen(files: Seq<FileDiffModel>, path: Seq<char>, diff: Seq<char>) -> bool {
    let at = place_of(files, path);
    at < files.len() && exists|i: int|
        0 <= i < files[at].hunks.len() && (#[trigger] files[at].hunks[i]).diff == diff
}

/// Whether a hunk is locked: it is not seen, as it stands, among the hunks that differ from the
/// target. Part of it is committed then, and hunks are not moved in part.
pub open spec fn is_locked(files: Seq<FileDiffModel>, path: Seq<char>, diff: Seq<char>) -> bool {
    !is_seen(files, path, diff)
}

/// A hunk that says whether it is locked.
pub open spec fn with_lock(
    hunk: VirtualHunkModel,
    files: Seq<FileDiffModel>,
    path: Seq<char>,
) -> VirtualHunkModel {
    VirtualHunkModel { locked: is_locked(files, path, hunk.diff), ..hunk }
}

/// A file whose hunks say whether they are locked.
pub open spec fn with_locks(file: VirtualFileModel, files: Seq<FileDiffModel>) -> VirtualFileModel {
    VirtualFileModel {
        hunks: Seq::new(file.hunks.len(), |i: int| with_lock(file.hunks[i], files, file.path)),
        ..file
    }
}

/// Whether a hunk is locked.
fn locked(files: &Vec<FileDiff>, path: &String, diff: &String) -> (r: bool)
    ensures
        r == is_locked(views(files@), path@, diff@),
{
    let at: usize = find_file(files, path);
    if at >= files.len() {
        return true;
    }
    let ghost hunks = views(files@)[at as int].hunks;
    let mut i: usize = 0;
    while i < files[at].hunks.len()
        invariant
            at < files@.len(),
            at == place_of(views(files@), path@),
            hunks == views(files@)[at as int].hunks,
            i <= hunks.len(),
            forall|k: int| 0 <= k < i ==> (#[trigger] hunks[k]).diff != diff@,
        decreases hunks.len() - i,
    {
        if *files[at].hunks[i].diff() == *diff {
            assert(hunks[i as int].diff == diff@);
            return false;
        }
        i = i + 1;
    }
    true
}

/// A file whose hunks say whether they are locked.
fn mark_locked(file: &VirtualBranchFile, files: &Vec<FileDiff>) -> (r: VirtualBranchFile)
    ensures
        r@ == with_locks(file@, views(files@)),
{
    let mut hunks: Vec<VirtualBranchHunk> = Vec::new();
    let mut i: usize = 0;
    while i < file.hunks.len()
        invariant
            i <= file.hunks@.len(),
            hunks@.len() == i,
            forall|k: int|
                0 <= k < i ==> (#[trigger] hunks@[k])@ == with_lock(
                    file@.hunks[k],
                    views(files@),
                    file@.path,
                ),
        decreases file.hunks@.len() - i,
    {
        let mut hunk: VirtualBranchHunk = file.hunks[i].clone();
        hunk.locked = locked(files, &file.path, &hunk.diff);
        hunks.push(hunk);
        i = i + 1;
    }
    assert(views(hunks@) =~= with_locks(file@, views(files@)).hunks);
    VirtualBranchFile {
        id: file.id.clone(),
        path: file.path.clone(),
        hunks,
        modified_at: file.modified_at,
        conflicted: file.conflicted,
        binary: file.binary,
    }
}

/// Some files whose hunks say whether they are locked.
pub open spec fn all_with_locks(shown: Seq<VirtualFileModel>, files: Seq<FileDiffModel>) -> Seq<
    VirtualFileModel,
> {
    Seq::new(shown.len(), |i: int| with_locks(shown[i], files))
}

/// Some files whose hunks say whether they are locked.
fn mark_all_locked(shown: &Vec<VirtualBranchFile>, files: &Vec<FileDiff>) -> (r: Vec<
    VirtualBranchFile,
>)
    ensures
        views(r@) == all_with_locks(views(shown@), views(files@)),
{
    let mut marked: Vec<VirtualBranchFile> = Vec::new();
    let mut i: usize = 0;
    while i < shown.len()
        invariant
            i <= shown@.len(),
            marked@.len() == i,
            forall|k: int|
                0 <= k < i ==> (#[trigger] marked@[k])@ == with_locks(
                    views(shown@)[k],
                    views(files@),
                ),
        decreases shown@.len() - i,
    {
        marked.push(mark_locked(&shown[i], files));
        i = i + 1;
    }
    assert(views(marked@) =~= all_with_locks(views(shown@), views(files@)));
    marked
}

/// What is known of a branch before its files are shown.
pub struct BranchFacts {
    pub commits: Vec<VirtualBranchCommit>,
    pub base_current: bool,
    pub upstream: Option<RemoteBranch>,
}

/// What is known of a branch before its files are shown.
pub struct BranchFactsModel {
    pub commits: Seq<VirtualCommitModel>,
    pub base_current: bool,
    pub upstream: Option<RemoteBranchInfo>,
}

impl View for BranchFacts {
    type V = BranchFactsModel;

    open spec fn view(&self) -> BranchFactsModel {
        BranchFactsModel {
            commits: views(self.commits@),
            base_current: self.base_current,
            upstream: view_opt(self.upstream),
        }
    }
}

/// How finding the commits of a branch and what is upstream of it comes out.
pub open spec fn branch_facts_flow(s: Seq<ReplyModel>, target: TargetModel, branch: BranchModel) -> Flow<
    BranchFactsModel,
> {
    find_upstream_flow(s, branch).and_then(
        |upstream: Option<CommitModel>, s: Seq<ReplyModel>|
            pushed_commits_flow(s, target, upstream).and_then(
                |pushed: Seq<Oid>, s: Seq<ReplyModel>|
                    ask_commits(
                        s,
                        RequestModel::Log { from: branch.head, until: target.sha },
                    ).and_then(
                        |commits: Seq<CommitModel>, s: Seq<ReplyModel>|
                            show_commits_flow(s, target, commits, pushed, seq![]).and_then(
                                |commits: Seq<VirtualCommitModel>, s: Seq<ReplyModel>|
                                    base_current_flow(s, target, branch).and_then(
                                        |base_current: bool, s: Seq<ReplyModel>|
                                            describe_upstream_flow(
                                                s,
                                                branch,
                                                upstream is Some,
                                            ).and_then(
                                                |
                                                    upstream: Option<RemoteBranchInfo>,
                                                    s: Seq<ReplyModel>,
                                                |
                                                    Flow::Done(
                                                        BranchFactsModel {
                                                            commits,
                                                            base_current,
                                                            upstream,
                                                        },
                                                        s,
                                                    ),
                                            ),
                                    ),
                            ),
                    ),
            ),
    )
}

/// The commits of a branch, and what is upstream of it.
fn branch_facts(tape: &mut Tape, target: &Target, branch: &Branch) -> (r: Result<BranchFacts, Stop>)
    ensures
        outcome(r, final(tape)@) == branch_facts_flow(old(tape)@, target@, branch@),
{
    let upstream = find_upstream(tape, branch)?;
    let pushed = pushed_commits(tape, target, &upstream)?;
    let log = tape.ask_commits(Request::Log { from: branch.head, until: target.sha })?;
    let commits = show_commits(tape, target, &log, &pushed)?;
    let base_current: bool = if branch.applied {
        true
    } else {
        let base = tape.ask_oid(Request::MergeBase(target.sha, branch.head))?;
        base == target.sha
    };
    let upstream = describe_upstream(tape, branch, upstream.is_some())?;
    Ok(BranchFacts { commits, base_current, upstream })
}

/// How showing a branch comes out.
pub open spec fn show_branch_flow(s: Seq<ReplyModel>, target: TargetModel, status: BranchStatusModel) -> Flow<
    VirtualBranchModel,
> {
    calculate_non_commited_diffs_flow(s, status.branch, target, status.files).and_then(
        |diffs: Seq<FileDiffModel>, s: Seq<ReplyModel>|
            branch_facts_flow(s, target, status.branch).and_then(
                |facts: BranchFactsModel, s: Seq<ReplyModel>|
                    diffs_to_virtual_files_flow(s, diffs).and_then(
                        |files: Seq<VirtualFileModel>, s: Seq<ReplyModel>|
                            is_requires_force_flow(s, status.branch).and_then(
                                |requires_force: bool, s: Seq<ReplyModel>|
                                    ask_flag(s, RequestModel::IsResolving).and_then(
                                        |resolving: bool, s: Seq<ReplyModel>|
                                            Flow::Done(
                                                shown_branch(
                                                    status,
                                                    facts,
                                                    files,
                                                    requires_force,
                                                    resolving,
                                                ),
                                                s,
                                            ),
                                    ),
                            ),
                    ),
            ),
    )
}

/// A branch as it is shown. Only one that is applied is in a conflicted state while conflicts are
/// being resolved.
pub open spec fn shown_branch(
    status: BranchStatusModel,
    facts: BranchFactsModel,
    files: Seq<VirtualFileModel>,
    requires_force: bool,
    resolving: bool,
) -> VirtualBranchModel {
    VirtualBranchModel {
        id: status.branch.id,
        name: status.branch.name,
        notes: status.branch.notes,
        active: status.branch.applied,
        files: all_with_locks(by_ownership(files, status.branch.ownership), status.files),
        commits: facts.commits,
        requires_force,
        conflicted: status.branch.applied && resolving,
        order: status.branch.order,
        upstream: facts.upstream,
        base_current: facts.base_current,
        ownership: status.branch.ownership,
    }
}

/// A branch as it is shown.
fn show_branch(tape: &mut Tape, target: &Target, status: &BranchStatus) -> (r: Result<
    VirtualBranch,
    Stop,
>)
    ensures
        outcome(r, final(tape)@) == show_branch_flow(old(tape)@, target@, status@),
{
    let branch = &status.branch;
    let diffs = calculate_non_commited_diffs(tape, branch, target, &status.files)?;
    let facts = branch_facts(tape, target, branch)?;
    let files = diffs_to_virtual_files(tape, &diffs)?;
    let sorted = sort_by_ownership(files, &branch.ownership);
    let files = mark_all_locked(&sorted, &status.files);
    let requires_force: bool = is_requires_force(tape, branch)?;
    let resolving: bool = tape.ask_flag(Request::IsResolving)?;
    Ok(
        VirtualBranch {
            id: branch.id,
            name: branch.name.clone(),
            notes: branch.notes.clone(),
            active: branch.applied,
            files,
            commits: facts.commits,
            requires_force,
            conflicted: branch.applied && resolving,
            order: branch.order,
            upstream: facts.upstream,
            base_current: facts.base_current,
            ownership: branch.ownership.clone(),
        },
    )
}

/// How showing some branches comes out, behind those shown already.
pub open spec fn show_branches_flow(
    s: Seq<ReplyModel>,
    target: TargetModel,
    statuses: Seq<BranchStatusModel>,
    shown: Seq<VirtualBranchModel>,
) -> Flow<Seq<VirtualBranchModel>>
    decreases statuses.len() - shown.len(),
{
    let i = shown.len() as int;
    if i >= statuses.len() {
        Flow::Done(shown, s)
    } else {
        show_branch_flow(s, target, statuses[i]).and_then(
            |branch: VirtualBranchModel, s: Seq<ReplyModel>|
                show_branches_flow(s, target, statuses, shown.push(branch)),
        )
    }
}

/// Some branches in the order in which they are shown.
pub open spec fn in_order(branches: Seq<VirtualBranchModel>) -> Seq<VirtualBranchModel> {
    sorted_by_key(branches, |b: VirtualBranchModel| b.order as int)
}

/// How listing the branches comes out. Without a target there are none.
pub open spec fn list_virtual_branches_flow(s: Seq<ReplyModel>) -> Flow<Seq<VirtualBranchModel>> {
    ask_unit(s, RequestModel::OpenSession).and_then(
        |u: (), s: Seq<ReplyModel>|
            get_default_target_flow(s).and_then(
                |target: Option<TargetModel>, s: Seq<ReplyModel>|
                    match target {
                        None => Flow::Done(seq![], s),
                        Some(target) => get_status_by_branch_flow(s).and_then(
                            |statuses: Seq<BranchStatusModel>, s: Seq<ReplyModel>|
                                show_branches_flow(s, target, statuses, seq![]).and_then(
                                    |shown: Seq<VirtualBranchModel>, s: Seq<ReplyModel>|
                                        Flow::Done(in_order(shown), s),
                                ),
                        ),
                    },
            ),
    )
}

/// Shows some branches.
fn show_branches(tape: &mut Tape, target: &Target, statuses: &Vec<BranchStatus>) -> (r: Result<
    Vec<VirtualBranch>,
    Stop,
>)
    ensures
        outcome_seq(r, final(tape)@) == show_branches_flow(
            old(tape)@,
            target@,
            views(statuses@),
            seq![],
        ),
{
    let mut shown: Vec<VirtualBranch> = Vec::new();
    let mut i: usize = 0;
    assert(views(shown@) =~= seq![]);
    while i < statuses.len()
        invariant
            i == shown@.len() <= statuses@.len(),
            show_branches_flow(old(tape)@, target@, views(statuses@), seq![])
                == show_branches_flow(tape@, target@, views(statuses@), views(shown@)),
        decreases statuses@.len() - i,
    {
        let ghost before = shown@;
        let branch = show_branch(tape, target, &statuses[i])?;
        shown.push(branch);
        proof {
            lemma_views_push(before, shown@.last());
        }
        i = i + 1;
    }
    Ok(shown)
}

/// Sorts some branches into the order in which they are shown.
fn sort_in_order(branches: Vec<VirtualBranch>) -> (sorted: Vec<VirtualBranch>)
    ensures
        views(sorted@) == in_order(views(branches@)),
{
    let mut keys: Vec<usize> = Vec::new();
    let mut i: usize = 0;
    while i < branches.len()
        invariant
            i <= branches@.len(),
            keys@.len() == i,
            forall|k: int| 0 <= k < i ==> keys@[k] == (#[trigger] branches@[k])@.order,
        decreases branches@.len() - i,
    {
        keys.push(branches[i].order);
        i = i + 1;
    }
    sort_with_keys(branches, keys, Ghost(|b: VirtualBranchModel| b.order as int))
}

/// The virtual branches as they are shown.
pub fn list_virtual_branches(tape: &mut Tape) -> (r: Result<Vec<VirtualBranch>, Stop>)
    ensures
        outcome_seq(r, final(tape)@) == list_virtual_branches_flow(old(tape)@),
{
    tape.ask_unit(Request::OpenSession)?;
    let default_target = match get_default_target(tape)? {
        Some(target) => target,
        None => {
            let none: Vec<VirtualBranch> = Vec::new();
            assert(views(none@) =~= seq![]);
            return Ok(none);
        },
    };
    let statuses = get_status_by_branch(tape)?;
    let shown = show_branches(tape, &default_target, &statuses)?;
    Ok(sort_in_order(shown))
}

/// The branches are listed in their order.
pub proof fn branches_come_in_order(s: Seq<ReplyModel>)
    ensures
        list_virtual_branches_flow(s) matches Flow::Done(shown, _) ==> is_ordered(
            shown,
            |b: VirtualBranchModel| b.order as int,
        ),
{
    match ask_unit(s, RequestModel::OpenSession) {
        Flow::Done(_, rest) => {
            match get_default_target_flow(rest) {
                Flow::Done(Some(target), rest) => {
                    match get_status_by_branch_flow(rest) {
                        Flow::Done(statuses, rest) => {
                            match show_branches_flow(rest, target, statuses, seq![]) {
                                Flow::Done(shown, _) => {
                                    sorting_orders_the_elements(
                                        shown,
                                        |b: VirtualBranchModel| b.order as int,
                                    );
                                },
                                Flow::Stop(_) => {},
                            }
                        },
                        Flow::Stop(_) => {},
                    }
                },
                _ => {},
            }
        },
        Flow::Stop(_) => {},
    }
}

/// The files of a branch are shown in the order in which the branch owns them; those that it does
/// not own stand at a fixed place.
pub proof fn files_come_in_the_order_of_ownership(
    files: Seq<VirtualFileModel>,
    owned: Seq<FileOwnershipModel>,
)
    ensures
        is_ordered(
            by_ownership(files, owned),
            |f: VirtualFileModel| place_among(owned, f.path),
        ),
        by_ownership(files, owned).to_multiset() == files.to_multiset(),
{
    sorting_orders_the_elements(files, |f: VirtualFileModel| place_among(owned, f.path));
}

/// A hunk is locked if and only if it is not seen, as it stands, among the hunks that differ from
/// the target.
pub proof fn a_hunk_is_locked_unless_it_is_seen_verbatim(
    files: Seq<FileDiffModel>,
    path: Seq<char>,
    diff: Seq<char>,
)
    requires
        distinct_paths(files),
    ensures
        is_locked(files, path, diff) <==> !exists|k: int, i: int|
            #![trigger files[k].hunks[i]]
            0 <= k < files.len() && files[k].path == path && 0 <= i < files[k].hunks.len()
                && files[k].hunks[i].diff == diff,
{
    lemma_place_of(files, path);
}

/// Whether the hunks of some files are marked as locked just where they are not seen, as they
/// stand, among the given ones.
pub open spec fn has_right_locks(
    shown: Seq<VirtualFileModel>,
    files: Seq<FileDiffModel>,
) -> bool {
    forall|f: int, h: int|
        #![trigger shown[f].hunks[h]]
        0 <= f < shown.len() && 0 <= h < shown[f].hunks.len() ==> (shown[f].hunks[h].locked
            <==> !is_seen(files, shown[f].path, shown[f].hunks[h].diff))
}

/// Whether a branch is shown as its status has it: as active where it is applied, in a conflicted
/// state only then, and with the hunks locked that are not seen in its status.
pub open spec fn is_shown_from(shown: VirtualBranchModel, status: BranchStatusModel) -> bool {
    &&& shown.id == status.branch.id
    &&& shown.active == status.branch.applied
    &&& shown.conflicted ==> shown.active
    &&& has_right_locks(shown.files, status.files)
}

/// Whether a branch is shown as one of the statuses has it.
pub open spec fn is_shown_from_one(
    shown: VirtualBranchModel,
    statuses: Seq<BranchStatusModel>,
) -> bool {
    exists|k: int| 0 <= k < statuses.len() && is_shown_from(shown, #[trigger] statuses[k])
}

proof fn lemma_show_branches(
    s: Seq<ReplyModel>,
    target: TargetModel,
    statuses: Seq<BranchStatusModel>,
    shown: Seq<VirtualBranchModel>,
)
    requires
        shown.len() <= statuses.len(),
        forall|i: int|
            0 <= i < shown.len() ==> is_shown_from(#[trigger] shown[i], statuses[i]),
    ensures
        show_branches_flow(s, target, statuses, shown) matches Flow::Done(r, _) ==> {
            &&& r.len() == statuses.len()
            &&& forall|i: int| 0 <= i < r.len() ==> is_shown_from(#[trigger] r[i], statuses[i])
        },
    decreases statuses.len() - shown.len(),
{
    if shown.len() < statuses.len() {
        let status = statuses[shown.len() as int];
        match show_branch_flow(s, target, status) {
            Flow::Done(branch, rest) => {
                assert(is_shown_from(branch, status));
                lemma_show_branches(rest, target, statuses, shown.push(branch));
            },
            Flow::Stop(_) => {},
        }
    }
}

proof fn lemma_sorting_keeps_shown(
    shown: Seq<VirtualBranchModel>,
    statuses: Seq<BranchStatusModel>,
)
    requires
        shown.len() == statuses.len(),
        forall|i: int|
            0 <= i < shown.len() ==> is_shown_from(#[trigger] shown[i], statuses[i]),
    ensures
        in_order(shown).len() == statuses.len(),
        forall|i: int|
            0 <= i < statuses.len() ==> is_shown_from_one(#[trigger] in_order(shown)[i], statuses),
{
    broadcast use vstd::seq_lib::group_to_multiset_ensures;

    let sorted = in_order(shown);
    sorting_orders_the_elements(shown, |b: VirtualBranchModel| b.order as int);
    assert forall|i: int| 0 <= i < sorted.len() implies is_shown_from_one(
        #[trigger] sorted[i],
        statuses,
    ) by {
        assert(sorted.to_multiset().count(sorted[i]) > 0);
        assert(shown.contains(sorted[i]));
        let k = choose|k: int| 0 <= k < shown.len() && shown[k] == sorted[i];
        assert(is_shown_from(shown[k], statuses[k]));
    }
}

/// Every branch is listed as its status has it: it is in a conflicted state only where it is
/// applied, and a hunk of it is locked if and only if it is not seen, as it stands, in the status.
pub proof fn branches_are_listed_as_their_status_has_them(s: Seq<ReplyModel>)
    ensures
        list_virtual_branches_flow(s) matches Flow::Done(shown, _) ==> {
            ||| shown.len() == 0
            ||| {
                &&& s.len() > 1
                &&& get_status_by_branch_flow(s.drop_first().drop_first()) matches Flow::Done(statuses, _)
                &&& shown.len() == statuses.len()
                &&& forall|i: int|
                    0 <= i < shown.len() ==> is_shown_from_one(#[trigger] shown[i], statuses)
            }
        },
{
    if let Flow::Done(Some(target), rest) = get_default_target_flow(s.drop_first()) {
        if let Flow::Done(statuses, rest) = get_status_by_branch_flow(rest) {
            if let Flow::Done(shown, _) = show_branches_flow(rest, target, statuses, seq![]) {
                lemma_show_branches(rest, target, statuses, seq![]);
                lemma_sorting_keeps_shown(shown, statuses);
            }
        }
    }
}

} // verus!
