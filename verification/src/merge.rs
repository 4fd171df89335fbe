//! Merging from upstream, and whether something is or can be merged.

use crate::apply::{unapply_each, unapply_each_flow};
use crate::branch::{Branch, BranchModel, Commit, CommitModel, Target, TargetModel};
use crate::conflicts::{check_out_conflicts, check_out_conflicts_flow};
use crate::create::{keep_other_applied, other_applied};
use crate::objects::{BranchId, Oid};
use crate::protocol::{
    ask_branch, ask_branches, ask_commit, ask_flag, ask_index, ask_maybe_oid, ask_oid, ask_oids,
    ask_unit, fail, outcome, outcome_opt, reply_to, BranchError, BranchErrorModel, FailureKind,
    Flow, MergeIndex, Reply, ReplyModel, Request, RequestModel, Signatures, Stop, Tape,
};
use crate::session::{get_default_target, get_default_target_flow};
use vstd::prelude::*;

verus! {

/// How finding the tree that two commits have in common comes out.
pub open spec fn find_base_tree_flow(s: Seq<ReplyModel>, branch_commit: Oid, target_commit: Oid) -> Flow<
    Oid,
> {
    ask_oid(s, RequestModel::MergeBase(target_commit, branch_commit)).and_then(
        |base: Oid, s: Seq<ReplyModel>|
            ask_commit(s, RequestModel::FindCommit(base)).and_then(
                |commit: CommitModel, s: Seq<ReplyModel>| Flow::Done(commit.tree, s),
            ),
    )
}

/// The tree of the merge base of two commits.
fn find_base_tree(tape: &mut Tape, branch_commit: Oid, target_commit: Oid) -> (r: Result<Oid, Stop>)
    ensures
        outcome(r, final(tape)@) == find_base_tree_flow(old(tape)@, branch_commit, target_commit),
{
    let base = tape.ask_oid(Request::MergeBase(target_commit, branch_commit))?;
    let commit = tape.ask_commit(Request::FindCommit(base))?;
    Ok(commit.tree)
}

/// How looking for the commit at a reference comes out: there is none where the reference or the
/// commit cannot be found, for whatever reason.
pub open spec fn commit_at_flow(s: Seq<ReplyModel>, refname: Seq<char>) -> Flow<Option<CommitModel>> {
    reply_to(s, RequestModel::FindReference(refname)).and_then(
        |reply: ReplyModel, s: Seq<ReplyModel>|
            match reply {
                ReplyModel::Oid(oid) => reply_to(s, RequestModel::FindCommit(oid)).and_then(
                    |reply: ReplyModel, s: Seq<ReplyModel>|
                        match reply {
                            ReplyModel::Commit(commit) => Flow::Done(Some(commit), s),
                            ReplyModel::Failed(_) => Flow::Done(None, s),
                            _ => fail(BranchErrorModel::UnexpectedReply),
                        },
                ),
                ReplyModel::Failed(_) => Flow::Done(None, s),
                _ => fail(BranchErrorModel::UnexpectedReply),
            },
    )
}

/// The commit at a reference, where it can be found.
fn commit_at(tape: &mut Tape, refname: String) -> (r: Result<Option<Commit>, Stop>)
    ensures
        outcome_opt(r, final(tape)@) == commit_at_flow(old(tape)@, refname@),
{
    let oid: Oid = match tape.reply_to(Request::FindReference(refname))? {
        Reply::Oid(oid) => *oid,
        Reply::Failed(_) => {
            return Ok(None);
        },
        _ => {
            return Err(Stop::Fail(BranchError::UnexpectedReply));
        },
    };
    match tape.reply_to(Request::FindCommit(oid))? {
        Reply::Commit(commit) => Ok(Some(commit.clone())),
        Reply::Failed(_) => Ok(None),
        _ => Err(Stop::Fail(BranchError::UnexpectedReply)),
    }
}

/// How committing a merge with upstream comes out: the branch moves to the merge, and so does the
/// working directory.
pub open spec fn commit_upstream_flow(
    s: Seq<ReplyModel>,
    branch: BranchModel,
    upstream: CommitModel,
    index: MergeIndex,
    signed: bool,
) -> Flow<()> {
    ask_oid(s, RequestModel::WriteIndex(index.handle)).and_then(
        |tree: Oid, s: Seq<ReplyModel>|
            ask_commit(s, RequestModel::FindCommit(branch.head)).and_then(
                |head: CommitModel, s: Seq<ReplyModel>|
                    ask_unit(s, RequestModel::FindTree(tree)).and_then(
                        |u: (), s: Seq<ReplyModel>|
                            ask_oid(
                                s,
                                RequestModel::CreateCommit {
                                    signatures: Signatures::User,
                                    message: "merged from upstream"@,
                                    tree,
                                    parents: seq![branch.head, upstream.id],
                                    signed,
                                },
                            ).and_then(
                                |head: Oid, s: Seq<ReplyModel>|
                                    ask_unit(
                                        s,
                                        RequestModel::CheckoutTree {
                                            tree,
                                            remove_untracked: false,
                                        },
                                    ).and_then(
                                        |u: (), s: Seq<ReplyModel>|
                                            ask_unit(
                                                s,
                                                RequestModel::WriteBranch(
                                                    BranchModel { head, tree, ..branch },
                                                ),
                                            ),
                                    ),
                            ),
                    ),
            ),
    )
}

/// How merging an upstream commit into a branch comes out. All other branches are unapplied first.
pub open spec fn merge_commit_flow(
    s: Seq<ReplyModel>,
    branch: BranchModel,
    id: BranchId,
    upstream: CommitModel,
    signed: bool,
) -> Flow<()> {
    ask_branches(s, RequestModel::ListBranches).and_then(
        |branches: Seq<BranchModel>, s: Seq<ReplyModel>|
            unapply_each_flow(s, other_applied(branches, id), 0).and_then(
                |u: (), s: Seq<ReplyModel>|
                    find_base_tree_flow(s, branch.head, upstream.id).and_then(
                        |base: Oid, s: Seq<ReplyModel>|
                            ask_oid(s, RequestModel::WorkdirTree).and_then(
                                |workdir: Oid, s: Seq<ReplyModel>|
                                    ask_index(
                                        s,
                                        RequestModel::MergeTrees {
                                            base,
                                            ours: workdir,
                                            theirs: upstream.tree,
                                        },
                                    ).and_then(
                                        |index: MergeIndex, s: Seq<ReplyModel>|
                                            (if index.conflicted {
                                                check_out_conflicts_flow(s, index, upstream.id)
                                            } else {
                                                commit_upstream_flow(
                                                    s,
                                                    branch,
                                                    upstream,
                                                    index,
                                                    signed,
                                                )
                                            }).and_then(
                                                |u: (), s: Seq<ReplyModel>|
                                                    ask_unit(s, RequestModel::UpdateIntegration),
                                            ),
                                    ),
                            ),
                    ),
            ),
    )
}

/// How merging from upstream comes out. Where there is nothing upstream, or nothing new, nothing
/// happens.
pub open spec fn merge_virtual_branch_upstream_flow(
    s: Seq<ReplyModel>,
    id: BranchId,
    signed: bool,
) -> Flow<()> {
    ask_flag(s, RequestModel::IsConflicting(None)).and_then(
        |conflicting: bool, s: Seq<ReplyModel>|
            if conflicting {
                fail(BranchErrorModel::MergeWhileConflicted)
            } else {
                ask_unit(s, RequestModel::OpenSession).and_then(
                    |u: (), s: Seq<ReplyModel>|
                        ask_branch(s, RequestModel::ReadBranch(id)).and_then(
                            |branch: BranchModel, s: Seq<ReplyModel>|
                                match branch.upstream {
                                    None => fail(BranchErrorModel::NoUpstream),
                                    Some(upstream) => commit_at_flow(s, upstream.refname()).and_then(
                                        |commit: Option<CommitModel>, s: Seq<ReplyModel>|
                                            match commit {
                                                None => Flow::Done((), s),
                                                Some(commit) => if commit.id == branch.head {
                                                    Flow::Done((), s)
                                                } else {
                                                    merge_commit_flow(
                                                        s,
                                                        branch,
                                                        id,
                                                        commit,
                                                        signed,
                                                    )
                                                },
                                            },
                                    ),
                                },
                        ),
                )
            },
    )
}

/// Commits a merge with upstream.
fn commit_upstream(
    tape: &mut Tape,
    branch: Branch,
    upstream: &Commit,
    index: MergeIndex,
    signed: bool,
) -> (r: Result<(), Stop>)
    ensures
        outcome(r, final(tape)@) == commit_upstream_flow(
            old(tape)@,
            branch@,
            upstream@,
            index,
            signed,
        ),
{
    let tree = tape.ask_oid(Request::WriteIndex(index.handle))?;
    tape.ask_commit(Request::FindCommit(branch.head))?;
    tape.ask_unit(Request::FindTree(tree))?;
    let parents: Vec<Oid> = vec![branch.head, upstream.id];
    assert(parents@ =~= seq![branch@.head, upstream@.id]);
    let head = tape.ask_oid(
        Request::CreateCommit {
            signatures: Signatures::User,
            message: "merged from upstream".to_owned(),
            tree,
            parents,
            signed,
        },
    )?;
    tape.ask_unit(Request::CheckoutTree { tree, remove_untracked: false })?;
    let mut merged = branch;
    merged.head = head;
    merged.tree = tree;
    tape.ask_unit(Request::WriteBranch(merged))
}

/// Merges what is upstream of a branch into it.
pub fn merge_virtual_branch_upstream(tape: &mut Tape, branch_id: BranchId, signed: bool) -> (r: Result<
    (),
    Stop,
>)
    ensures
        outcome(r, final(tape)@) == merge_virtual_branch_upstream_flow(
            old(tape)@,
            branch_id,
            signed,
        ),
{
    let conflicting: bool = tape.ask_flag(Request::IsConflicting(None))?;
    if conflicting {
        return Err(Stop::Fail(BranchError::MergeWhileConflicted));
    }
    tape.ask_unit(Request::OpenSession)?;
    let branch = tape.ask_branch(Request::ReadBranch(branch_id))?;
    let refname: String = match &branch.upstream {
        Some(upstream) => upstream.refname(),
        None => {
            return Err(Stop::Fail(BranchError::NoUpstream));
        },
    };
    let upstream = match commit_at(tape, refname)? {
        Some(commit) => commit,
        None => {
            return Ok(());
        },
    };
    if upstream.id == branch.head {
        return Ok(());
    }
    let branches = tape.ask_branches(Request::ListBranches)?;
    let others = keep_other_applied(&branches, branch_id);
    unapply_each(tape, &others)?;
    let base = find_base_tree(tape, branch.head, upstream.id)?;
    let workdir = tape.ask_oid(Request::WorkdirTree)?;
    let index = tape.ask_index(
        Request::MergeTrees { base, ours: workdir, theirs: upstream.tree },
    )?;
    if index.conflicted {
        check_out_conflicts(tape, index, upstream.id)?;
    } else {
        commit_upstream(tape, branch, &upstream, index, signed)?;
    }
    tape.ask_unit(Request::UpdateIntegration)
}

/// How finding out whether a branch can be pushed by force only comes out: it can where its
/// upstream branch is there and has commits that the branch has not.
pub open spec fn is_requires_force_flow(s: Seq<ReplyModel>, branch: BranchModel) -> Flow<bool> {
    match branch.upstream {
        None => Flow::Done(false, s),
        Some(upstream) => reply_to(s, RequestModel::FindReference(upstream.refname())).and_then(
            |reply: ReplyModel, s: Seq<ReplyModel>|
                match reply {
                    ReplyModel::Oid(oid) => ask_commit(s, RequestModel::FindCommit(oid)).and_then(
                        |commit: CommitModel, s: Seq<ReplyModel>|
                            ask_oid(s, RequestModel::MergeBase(commit.id, branch.head)).and_then(
                                |base: Oid, s: Seq<ReplyModel>| Flow::Done(base != commit.id, s),
                            ),
                    ),
                    ReplyModel::Failed(failure) => if failure.kind == FailureKind::NotFound {
                        Flow::Done(false, s)
                    } else {
                        fail(BranchErrorModel::Outside(failure))
                    },
                    _ => fail(BranchErrorModel::UnexpectedReply),
                },
        ),
    }
}

/// Whether a branch can be pushed by force only.
pub fn is_requires_force(tape: &mut Tape, branch: &Branch) -> (r: Result<bool, Stop>)
    ensures
        outcome(r, final(tape)@) == is_requires_force_flow(old(tape)@, branch@),
{
    let refname: String = match &branch.upstream {
        Some(upstream) => upstream.refname(),
        None => {
            return Ok(false);
        },
    };
    let oid: Oid = match tape.reply_to(Request::FindReference(refname))? {
        Reply::Oid(oid) => *oid,
        Reply::Failed(failure) => {
            if failure.kind == FailureKind::NotFound {
                return Ok(false);
            }
            return Err(Stop::Fail(BranchError::Outside(failure.clone())));
        },
        _ => {
            return Err(Stop::Fail(BranchError::UnexpectedReply));
        },
    };
    let commit = tape.ask_commit(Request::FindCommit(oid))?;
    let base = tape.ask_oid(Request::MergeBase(commit.id, branch.head))?;
    Ok(base != commit.id)
}

/// How finding out whether merging a commit would change nothing upstream comes out.
pub open spec fn adds_nothing_flow(
    s: Seq<ReplyModel>,
    merge_base: Oid,
    remote_head: Oid,
    commit: CommitModel,
) -> Flow<bool> {
    ask_commit(s, RequestModel::FindCommit(merge_base)).and_then(
        |base: CommitModel, s: Seq<ReplyModel>|
            ask_commit(s, RequestModel::FindCommit(remote_head)).and_then(
                |upstream: CommitModel, s: Seq<ReplyModel>|
                    ask_index(
                        s,
                        RequestModel::MergeTrees {
                            base: base.tree,
                            ours: upstream.tree,
                            theirs: commit.tree,
                        },
                    ).and_then(
                        |index: MergeIndex, s: Seq<ReplyModel>|
                            if index.conflicted {
                                Flow::Done(false, s)
                            } else {
                                ask_oid(s, RequestModel::WriteIndex(index.handle)).and_then(
                                    |tree: Oid, s: Seq<ReplyModel>|
                                        Flow::Done(tree == upstream.tree, s),
                                )
                            },
                    ),
            ),
    )
}

/// How finding out whether a commit is integrated upstream comes out. Where there is nothing new
/// upstream it is not; where it is among the new commits, or below the target, it is; otherwise
/// it is where merging it would change nothing.
pub open spec fn is_commit_integrated_flow(
    s: Seq<ReplyModel>,
    target: TargetModel,
    commit: CommitModel,
) -> Flow<bool> {
    ask_maybe_oid(s, RequestModel::FindBranch(target.branch.refname())).and_then(
        |found: Option<Oid>, s: Seq<ReplyModel>|
            ask_commit(s, RequestModel::PeelBranch(target.branch.refname())).and_then(
                |remote_head: CommitModel, s: Seq<ReplyModel>|
                    ask_oids(
                        s,
                        RequestModel::LogIds { from: remote_head.id, until: target.sha },
                    ).and_then(
                        |upstream: Seq<Oid>, s: Seq<ReplyModel>|
                            if target.sha == commit.id || upstream.len() == 0 {
                                Flow::Done(false, s)
                            } else if upstream.contains(commit.id) {
                                Flow::Done(true, s)
                            } else {
                                ask_oid(s, RequestModel::MergeBase(target.sha, commit.id)).and_then(
                                    |base: Oid, s: Seq<ReplyModel>|
                                        if base == commit.id {
                                            Flow::Done(true, s)
                                        } else {
                                            adds_nothing_flow(s, base, remote_head.id, commit)
                                        },
                                )
                            },
                    ),
            ),
    )
}

/// Whether an id is among some ids.
pub(crate) fn has_oid(oids: &Vec<Oid>, oid: Oid) -> (r: bool)
    ensures
        r == oids@.contains(oid),
{
    let mut i: usize = 0;
    while i < oids.len()
        invariant
            i <= oids@.len(),
            forall|k: int| 0 <= k < i ==> oids@[k] != oid,
        decreases oids@.len() - i,
    {
        if oids[i] == oid {
            return true;
        }
        i = i + 1;
    }
    false
}

/// Whether a commit is integrated upstream.
pub fn is_commit_integrated(tape: &mut Tape, target: &Target, commit: &Commit) -> (r: Result<
    bool,
    Stop,
>)
    ensures
        outcome(r, final(tape)@) == is_commit_integrated_flow(old(tape)@, target@, commit@),
{
    tape.ask_maybe_oid(Request::FindBranch(target.branch.refname()))?;
    let remote_head = tape.ask_commit(Request::PeelBranch(target.branch.refname()))?;
    let upstream = tape.ask_oids(Request::LogIds { from: remote_head.id, until: target.sha })?;
    if target.sha == commit.id || upstream.len() == 0 {
        return Ok(false);
    }
    if has_oid(upstream, commit.id) {
        return Ok(true);
    }
    let merge_base = tape.ask_oid(Request::MergeBase(target.sha, commit.id))?;
    if merge_base == commit.id {
        return Ok(true);
    }
    let base = tape.ask_commit(Request::FindCommit(merge_base))?;
    let upstream = tape.ask_commit(Request::FindCommit(remote_head.id))?;
    let index = tape.ask_index(
        Request::MergeTrees { base: base.tree, ours: upstream.tree, theirs: commit.tree },
    )?;
    if index.conflicted {
        return Ok(false);
    }
    let tree = tape.ask_oid(Request::WriteIndex(index.handle))?;
    Ok(tree == upstream.tree)
}

/// How finding out whether a tree can be merged into the working directory without conflicts comes
/// out, once the working directory has been asked for.
pub open spec fn merges_cleanly_flow(s: Seq<ReplyModel>, base: Oid, ours: Oid, theirs: Oid) -> Flow<bool> {
    ask_index(s, RequestModel::MergeTrees { base, ours, theirs }).and_then(
        |index: MergeIndex, s: Seq<ReplyModel>| Flow::Done(!index.conflicted, s),
    )
}

/// How finding out whether a remote branch can be merged comes out.
pub open spec fn is_remote_branch_mergeable_flow(s: Seq<ReplyModel>, name: Seq<char>) -> Flow<bool> {
    ask_unit(s, RequestModel::OpenSession).and_then(
        |u: (), s: Seq<ReplyModel>|
            get_default_target_flow(s).and_then(
                |target: Option<TargetModel>, s: Seq<ReplyModel>|
                    match target {
                        None => fail(BranchErrorModel::NoDefaultTarget),
                        Some(target) => remote_mergeable_flow(s, target, name),
                    },
            ),
    )
}

/// How finding out whether a remote branch can be merged comes out once the target is known.
pub open spec fn remote_mergeable_flow(s: Seq<ReplyModel>, target: TargetModel, name: Seq<char>) -> Flow<
    bool,
> {
    ask_commit(s, RequestModel::FindCommit(target.sha)).and_then(
        |target_commit: CommitModel, s: Seq<ReplyModel>|
            ask_maybe_oid(s, RequestModel::FindBranch(name)).and_then(
                |oid: Option<Oid>, s: Seq<ReplyModel>|
                    match oid {
                        None => fail(BranchErrorModel::DetachedHead),
                        Some(oid) => ask_commit(s, RequestModel::FindCommit(oid)).and_then(
                            |commit: CommitModel, s: Seq<ReplyModel>|
                                find_base_tree_flow(s, commit.id, target_commit.id).and_then(
                                    |base: Oid, s: Seq<ReplyModel>|
                                        ask_oid(s, RequestModel::WorkdirTree).and_then(
                                            |workdir: Oid, s: Seq<ReplyModel>|
                                                merges_cleanly_flow(s, base, commit.tree, workdir),
                                        ),
                                ),
                        ),
                    },
            ),
    )
}

/// Whether a remote branch, given by its full name, can be merged into the working directory.
pub fn is_remote_branch_mergeable(tape: &mut Tape, branch_name: &String) -> (r: Result<bool, Stop>)
    ensures
        outcome(r, final(tape)@) == is_remote_branch_mergeable_flow(old(tape)@, branch_name@),
{
    tape.ask_unit(Request::OpenSession)?;
    let target = match get_default_target(tape)? {
        Some(target) => target,
        None => {
            return Err(Stop::Fail(BranchError::NoDefaultTarget));
        },
    };
    let target_commit = tape.ask_commit(Request::FindCommit(target.sha))?;
    let oid = match tape.ask_maybe_oid(Request::FindBranch(branch_name.clone()))? {
        Some(oid) => oid,
        None => {
            return Err(Stop::Fail(BranchError::DetachedHead));
        },
    };
    let commit = tape.ask_commit(Request::FindCommit(oid))?;
    let base = find_base_tree(tape, commit.id, target_commit.id)?;
    let workdir = tape.ask_oid(Request::WorkdirTree)?;
    let index = tape.ask_index(
        Request::MergeTrees { base, ours: commit.tree, theirs: workdir },
    )?;
    Ok(!index.conflicted)
}

/// How finding out whether an unapplied branch can be merged comes out. One that is behind the
/// target cannot.
pub open spec fn virtual_mergeable_flow(
    s: Seq<ReplyModel>,
    target: TargetModel,
    branch: BranchModel,
) -> Flow<bool> {
    ask_oid(s, RequestModel::MergeBase(target.sha, branch.head)).and_then(
        |merge_base: Oid, s: Seq<ReplyModel>|
            if merge_base != target.sha {
                Flow::Done(false, s)
            } else {
                ask_commit(s, RequestModel::FindCommit(branch.head)).and_then(
                    |branch_commit: CommitModel, s: Seq<ReplyModel>|
                        ask_commit(s, RequestModel::FindCommit(target.sha)).and_then(
                            |target_commit: CommitModel, s: Seq<ReplyModel>|
                                find_base_tree_flow(s, branch_commit.id, target_commit.id).and_then(
                                    |base: Oid, s: Seq<ReplyModel>|
                                        ask_oid(s, RequestModel::WorkdirTree).and_then(
                                            |workdir: Oid, s: Seq<ReplyModel>|
                                                ask_unit(
                                                    s,
                                                    RequestModel::FindTree(branch.tree),
                                                ).and_then(
                                                    |u: (), s: Seq<ReplyModel>|
                                                        merges_cleanly_flow(
                                                            s,
                                                            base,
                                                            branch.tree,
                                                            workdir,
                                                        ),
                                                ),
                                        ),
                                ),
                        ),
                )
            },
    )
}

/// How finding out whether a virtual branch can be merged comes out. One that is applied can.
pub open spec fn is_virtual_branch_mergeable_flow(s: Seq<ReplyModel>, id: BranchId) -> Flow<bool> {
    ask_unit(s, RequestModel::OpenSession).and_then(
        |u: (), s: Seq<ReplyModel>|
            ask_branch(s, RequestModel::ReadBranch(id)).and_then(
                |branch: BranchModel, s: Seq<ReplyModel>|
                    if branch.applied {
                        Flow::Done(true, s)
                    } else {
                        get_default_target_flow(s).and_then(
                            |target: Option<TargetModel>, s: Seq<ReplyModel>|
                                match target {
                                    None => fail(BranchErrorModel::NoDefaultTarget),
                                    Some(target) => virtual_mergeable_flow(s, target, branch),
                                },
                        )
                    },
            ),
    )
}

/// Whether a virtual branch can be merged into the working directory.
pub fn is_virtual_branch_mergeable(tape: &mut Tape, branch_id: BranchId) -> (r: Result<bool, Stop>)
    ensures
        outcome(r, final(tape)@) == is_virtual_branch_mergeable_flow(old(tape)@, branch_id),
{
    tape.ask_unit(Request::OpenSession)?;
    let branch = tape.ask_branch(Request::ReadBranch(branch_id))?;
    if branch.applied {
        return Ok(true);
    }
    let target = match get_default_target(tape)? {
        Some(target) => target,
        None => {
            return Err(Stop::Fail(BranchError::NoDefaultTarget));
        },
    };
    let merge_base = tape.ask_oid(Request::MergeBase(target.sha, branch.head))?;
    if merge_base != target.sha {
        return Ok(false);
    }
    let branch_commit = tape.ask_commit(Request::FindCommit(branch.head))?;
    let target_commit = tape.ask_commit(Request::FindCommit(target.sha))?;
    let base = find_base_tree(tape, branch_commit.id, target_commit.id)?;
    let workdir = tape.ask_oid(Request::WorkdirTree)?;
    tape.ask_unit(Request::FindTree(branch.tree))?;
    let index = tape.ask_index(
        Request::MergeTrees { base, ours: branch.tree, theirs: workdir },
    )?;
    Ok(!index.conflicted)
}

/// A branch that is applied can be merged.
pub proof fn an_applied_branch_is_mergeable(s: Seq<ReplyModel>, id: BranchId)
    requires
        s.len() > 1,
        s[0] == ReplyModel::Unit,
        s[1] matches ReplyModel::Branch(branch) && branch.applied,
    ensures
        is_virtual_branch_mergeable_flow(s, id) == Flow::Done(true, s.skip(2)),
{
    assert(s.skip(1).skip(1) =~= s.skip(2));
}

/// Without an upstream branch, no branch needs to be pushed by force.
pub proof fn no_upstream_needs_no_force(s: Seq<ReplyModel>, branch: BranchModel)
    requires
        branch.upstream is None,
    ensures
        is_requires_force_flow(s, branch) == Flow::Done(false, s),
{
}

} // verus!
