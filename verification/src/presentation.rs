//! The virtual branches as they are shown.

use crate::author::{Author, AuthorModel};
use crate::branch::{RemoteBranch, RemoteBranchInfo};
use crate::objects::{BranchId, Oid};
use crate::ownership::{FileOwnershipModel, Ownership};
use crate::seqs::{view_opt, views};
use vstd::prelude::*;

verus! {

/// A hunk of a virtual branch.
#[derive(Debug)]
pub struct VirtualBranchHunk {
    pub id: String,
    pub diff: String,
    pub modified_at: u128,
    pub file_path: String,
    pub hash: String,
    pub start: u32,
    pub end: u32,
    pub binary: bool,
    /// whether the hunk is partly committed, so that it cannot be moved to another branch
    pub locked: bool,
}

/// A hunk of a virtual branch.
pub struct VirtualHunkModel {
    pub id: Seq<char>,
    pub diff: Seq<char>,
    pub modified_at: u128,
    pub file_path: Seq<char>,
    pub hash: Seq<char>,
    pub start: u32,
    pub end: u32,
    pub binary: bool,
    pub locked: bool,
}

impl View for VirtualBranchHunk {
    type V = VirtualHunkModel;

    open spec fn view(&self) -> VirtualHunkModel {
        VirtualHunkModel {
            id: self.id@,
            diff: self.diff@,
            modified_at: self.modified_at,
            file_path: self.file_path@,
            hash: self.hash@,
            start: self.start,
            end: self.end,
            binary: self.binary,
            locked: self.locked,
        }
    }
}

impl Clone for VirtualBranchHunk {
    fn clone(&self) -> (copy: Self)
        ensures
            copy@ == self@,
    {
        let copy = VirtualBranchHunk {
            id: self.id.clone(),
            diff: self.diff.clone(),
            modified_at: self.modified_at,
            file_path: self.file_path.clone(),
            hash: self.hash.clone(),
            start: self.start,
            end: self.end,
            binary: self.binary,
            locked: self.locked,
        };
        copy
    }
}

/// A file of a virtual branch.
#[derive(Debug)]
pub struct VirtualBranchFile {
    pub id: String,
    pub path: String,
    pub hunks: Vec<VirtualBranchHunk>,
    pub modified_at: u128,
    pub conflicted: bool,
    pub binary: bool,
}

/// A file of a virtual branch.
pub struct VirtualFileModel {
    pub id: Seq<char>,
    pub path: Seq<char>,
    pub hunks: Seq<VirtualHunkModel>,
    pub modified_at: u128,
    pub conflicted: bool,
    pub binary: bool,
}

impl View for VirtualBranchFile {
    type V = VirtualFileModel;

    open spec fn view(&self) -> VirtualFileModel {
        VirtualFileModel {
            id: self.id@,
            path: self.path@,
            hunks: views(self.hunks@),
            modified_at: self.modified_at,
            conflicted: self.conflicted,
            binary: self.binary,
        }
    }
}

impl Clone for VirtualBranchFile {
    fn clone(&self) -> (copy: Self)
        ensures
            copy@ == self@,
    {
        let copy = VirtualBranchFile {
            id: self.id.clone(),
            path: self.path.clone(),
            hunks: self.hunks.clone(),
            modified_at: self.modified_at,
            conflicted: self.conflicted,
            binary: self.binary,
        };
        assert(copy@.hunks =~= self@.hunks);
        copy
    }
}

/// A commit of a virtual branch.
#[derive(Debug)]
pub struct VirtualBranchCommit {
    pub id: Oid,
    pub description: String,
    pub created_at: u128,
    pub author: Author,
    /// whether the commit has been pushed
    pub is_remote: bool,
    pub files: Vec<VirtualBranchFile>,
    /// whether the commit is part of the target branch
    pub is_integrated: bool,
}

/// A commit of a virtual branch.
pub struct VirtualCommitModel {
    pub id: Oid,
    pub description: Seq<char>,
    pub created_at: u128,
    pub author: AuthorModel,
    pub is_remote: bool,
    pub files: Seq<VirtualFileModel>,
    pub is_integrated: bool,
}

impl View for VirtualBranchCommit {
    type V = VirtualCommitModel;

    open spec fn view(&self) -> VirtualCommitModel {
        VirtualCommitModel {
            id: self.id,
            description: self.description@,
            created_at: self.created_at,
            author: self.author@,
            is_remote: self.is_remote,
            files: views(self.files@),
            is_integrated: self.is_integrated,
        }
    }
}

impl Clone for VirtualBranchCommit {
    fn clone(&self) -> (copy: Self)
        ensures
            copy@ == self@,
    {
        let copy = VirtualBranchCommit {
            id: self.id,
            description: self.description.clone(),
            created_at: self.created_at,
            author: self.author.clone(),
            is_remote: self.is_remote,
            files: self.files.clone(),
            is_integrated: self.is_integrated,
        };
        assert(copy@.files =~= self@.files);
        copy
    }
}

/// A virtual branch.
#[derive(Debug)]
pub struct VirtualBranch {
    pub id: BranchId,
    pub name: String,
    pub notes: String,
    pub active: bool,
    pub files: Vec<VirtualBranchFile>,
    pub commits: Vec<VirtualBranchCommit>,
    /// whether the branch can be pushed by force only
    pub requires_force: bool,
    /// whether the branch is in a conflicted state: it is applied, and conflicts are being resolved
    pub conflicted: bool,
    /// the place of the branch among the branches
    pub order: usize,
    /// the remote branch that the branch is pushed to, if any
    pub upstream: Option<RemoteBranch>,
    /// whether the branch is up to date with the target
    pub base_current: bool,
    pub ownership: Ownership,
}

/// A virtual branch.
pub struct VirtualBranchModel {
    pub id: BranchId,
    pub name: Seq<char>,
    pub notes: Seq<char>,
    pub active: bool,
    pub files: Seq<VirtualFileModel>,
    pub commits: Seq<VirtualCommitModel>,
    pub requires_force: bool,
    pub conflicted: bool,
    pub order: usize,
    pub upstream: Option<RemoteBranchInfo>,
    pub base_current: bool,
    pub ownership: Seq<FileOwnershipModel>,
}

impl View for VirtualBranch {
    type V = VirtualBranchModel;

    open spec fn view(&self) -> VirtualBranchModel {
        VirtualBranchModel {
            id: self.id,
            name: self.name@,
            notes: self.notes@,
            active: self.active,
            files: views(self.files@),
            commits: views(self.commits@),
            requires_force: self.requires_force,
            conflicted: self.conflicted,
            order: self.order,
            upstream: view_opt(self.upstream),
            base_current: self.base_current,
            ownership: self.ownership@,
        }
    }
}

impl Clone for VirtualBranch {
    fn clone(&self) -> (copy: Self)
        ensures
            copy@ == self@,
    {
        let copy = VirtualBranch {
            id: self.id,
            name: self.name.clone(),
            notes: self.notes.clone(),
            active: self.active,
            files: self.files.clone(),
            commits: self.commits.clone(),
            requires_force: self.requires_force,
            conflicted: self.conflicted,
            order: self.order,
            upstream: self.upstream.clone(),
            base_current: self.base_current,
            ownership: self.ownership.clone(),
        };
        assert(copy@.files =~= self@.files);
        assert(copy@.commits =~= self@.commits);
        copy
    }
}

} // verus!
