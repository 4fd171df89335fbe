//! That values and requests are seen as what they are.

use crate::branch::{Branch, Commit, RemoteBranch, Target};
use crate::naming::RemoteBranchName;
use crate::objects::Oid;
use crate::ownership::{FileOwnership, Hunk};
use crate::presentation::{VirtualBranch, VirtualBranchCommit, VirtualBranchFile, VirtualBranchHunk};
use crate::protocol::{Request, RequestModel, Signatures, TreeEdit};
use crate::seqs::{view_opt, views};
use vstd::prelude::*;

verus! {

/// A stored branch is seen with what it holds, each thing in its place.
pub proof fn a_branch_is_seen_as_it_is(branch: Branch)
    ensures
        branch@.id == branch.id,
        branch@.name == branch.name@,
        branch@.notes == branch.notes@,
        branch@.applied == branch.applied,
        branch@.upstream == view_opt(branch.upstream),
        branch@.upstream_head == branch.upstream_head,
        branch@.created_timestamp_ms == branch.created_timestamp_ms,
        branch@.updated_timestamp_ms == branch.updated_timestamp_ms,
        branch@.tree == branch.tree,
        branch@.head == branch.head,
        branch@.ownership == views(branch.ownership.files@),
        branch@.order == branch.order,
{
}

/// A commit, a target, a remote branch and what is owned are seen with what they hold.
pub proof fn commits_and_ranges_are_seen_as_they_are(
    commit: Commit,
    target: Target,
    name: RemoteBranchName,
    remote: RemoteBranch,
    hunk: Hunk,
    owned: FileOwnership,
)
    ensures
        commit@.id == commit.id,
        commit@.tree == commit.tree,
        commit@.parents == commit.parents@,
        commit@.seconds == commit.seconds,
        commit@.author.name == view_opt(commit.author.name),
        commit@.author.email == view_opt(commit.author.email),
        commit@.message == view_opt(commit.message),
        target@.sha == target.sha,
        target@.branch == target.branch@,
        name@.remote == name.remote@,
        name@.branch == name.branch@,
        remote@.name == remote.name@,
        remote@.sha == remote.sha,
        hunk@.start == hunk.start,
        hunk@.end == hunk.end,
        hunk@.hash == view_opt(hunk.hash),
        hunk@.timestamp_ms == hunk.timestamp_ms,
        owned@.file_path == owned.file_path@,
        owned@.hunks == views(owned.hunks@),
{
}

/// What is shown is seen with what it holds.
pub proof fn what_is_shown_is_seen_as_it_is(
    branch: VirtualBranch,
    commit: VirtualBranchCommit,
    file: VirtualBranchFile,
    hunk: VirtualBranchHunk,
)
    ensures
        branch@.id == branch.id,
        branch@.name == branch.name@,
        branch@.notes == branch.notes@,
        branch@.active == branch.active,
        branch@.files == views(branch.files@),
        branch@.commits == views(branch.commits@),
        branch@.requires_force == branch.requires_force,
        branch@.conflicted == branch.conflicted,
        branch@.order == branch.order,
        branch@.base_current == branch.base_current,
        branch@.ownership == views(branch.ownership.files@),
        commit@.id == commit.id,
        commit@.description == commit.description@,
        commit@.created_at == commit.created_at,
        commit@.is_remote == commit.is_remote,
        commit@.is_integrated == commit.is_integrated,
        commit@.files == views(commit.files@),
        file@.id == file.id@,
        file@.path == file.path@,
        file@.hunks == views(file.hunks@),
        file@.modified_at == file.modified_at,
        file@.conflicted == file.conflicted,
        file@.binary == file.binary,
        hunk@.id == hunk.id@,
        hunk@.diff == hunk.diff@,
        hunk@.modified_at == hunk.modified_at,
        hunk@.file_path == hunk.file_path@,
        hunk@.hash == hunk.hash@,
        hunk@.start == hunk.start,
        hunk@.end == hunk.end,
        hunk@.binary == hunk.binary,
        hunk@.locked == hunk.locked,
{
}

/// A request is seen with what it holds, each thing in its place.
pub proof fn a_request_is_seen_as_it_is(
    a: Oid,
    b: Oid,
    c: Oid,
    flag: bool,
    handle: u64,
    text: String,
    texts: Vec<String>,
    oids: Vec<Oid>,
    branch: Branch,
    name: RemoteBranchName,
    signatures: Signatures,
    edits: Vec<TreeEdit>,
)
    ensures
        (Request::MarkConflicts { paths: texts, parent: a })@ == (RequestModel::MarkConflicts {
            paths: views(texts@),
            parent: a,
        }),
        Request::WriteBranch(branch)@ == RequestModel::WriteBranch(branch@),
        Request::DeleteBranch(branch)@ == RequestModel::DeleteBranch(branch@),
        Request::AddBranchReference(branch)@ == RequestModel::AddBranchReference(branch@),
        Request::DeleteBranchReference(branch)@ == RequestModel::DeleteBranchReference(branch@),
        Request::FindCommit(a)@ == RequestModel::FindCommit(a),
        Request::FindStoreCommit(a)@ == RequestModel::FindStoreCommit(a),
        Request::FindTree(a)@ == RequestModel::FindTree(a),
        Request::MergeBase(a, b)@ == RequestModel::MergeBase(a, b),
        (Request::MergeTrees { base: a, ours: b, theirs: c })@ == (RequestModel::MergeTrees {
            base: a,
            ours: b,
            theirs: c,
        }),
        (Request::CherryPick { onto: a, commit: b })@ == (RequestModel::CherryPick {
            onto: a,
            commit: b,
        }),
        (Request::CheckoutIndex { index: handle, with_conflicts: flag })@ == (
        RequestModel::CheckoutIndex { index: handle, with_conflicts: flag }),
        (Request::CheckoutTree { tree: a, remove_untracked: flag })@ == (
        RequestModel::CheckoutTree { tree: a, remove_untracked: flag }),
        (Request::CreateCommit { signatures, message: text, tree: a, parents: oids, signed: flag })@
            == (RequestModel::CreateCommit {
            signatures,
            message: text@,
            tree: a,
            parents: oids@,
            signed: flag,
        }),
        Request::DiffWorkdir(a)@ == RequestModel::DiffWorkdir(a),
        Request::DiffTrees(a, b)@ == RequestModel::DiffTrees(a, b),
        (Request::Log { from: a, until: b })@ == (RequestModel::Log { from: a, until: b }),
        (Request::LogIds { from: a, until: b })@ == (RequestModel::LogIds { from: a, until: b }),
        (Request::FileTimes { in_repository: flag, path: text })@ == (RequestModel::FileTimes {
            in_repository: flag,
            path: text@,
        }),
        (Request::HasEntry { tree: a, path: text })@ == (RequestModel::HasEntry {
            tree: a,
            path: text@,
        }),
        (Request::ReadBlob { tree: a, path: text })@ == (RequestModel::ReadBlob {
            tree: a,
            path: text@,
        }),
        (Request::WriteTree { base: a, edits })@ == (RequestModel::WriteTree {
            base: a,
            edits: views(edits@),
        }),
        (Request::Push { head: a, branch: name, force: flag })@ == (RequestModel::Push {
            head: a,
            branch: name@,
            force: flag,
        }),
        (Request::DescribeRemote { name: text, head: a })@ == (RequestModel::DescribeRemote {
            name: text@,
            head: a,
        }),
{
}

} // verus!
