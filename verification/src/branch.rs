//! Virtual branches, the target they build on, and commits.

use crate::naming::{RemoteBranchModel, RemoteBranchName};
use crate::objects::{BranchId, Oid};
use crate::ownership::{FileOwnershipModel, Ownership};
use crate::seqs::view_opt;
use vstd::prelude::*;

verus! {

/// What the virtual branches of a project build on.
#[derive(Debug)]
pub struct Target {
    /// the remote branch
    pub branch: RemoteBranchName,
    /// the commit of it that the virtual branches build on
    pub sha: Oid,
}

/// What the virtual branches of a project build on.
pub struct TargetModel {
    pub branch: RemoteBranchModel,
    pub sha: Oid,
}

impl View for Target {
    type V = TargetModel;

    open spec fn view(&self) -> TargetModel {
        TargetModel {
            branch: self.branch@,
            sha: self.sha,
        }
    }
}

impl Clone for Target {
    fn clone(&self) -> (copy: Self)
        ensures
            copy@ == self@,
    {
        let copy = Target {
            branch: self.branch.clone(),
            sha: self.sha,
        };
        copy
    }
}

/// A virtual branch, as it is stored.
#[derive(Debug)]
pub struct Branch {
    pub id: BranchId,
    pub name: String,
    pub notes: String,
    /// whether the changes of the branch are in the working directory
    pub applied: bool,
    /// the remote branch that the branch is pushed to
    pub upstream: Option<RemoteBranchName>,
    /// the commit that was pushed last
    pub upstream_head: Option<Oid>,
    pub created_timestamp_ms: u128,
    pub updated_timestamp_ms: u128,
    /// the tree of the branch, uncommitted changes included
    pub tree: Oid,
    /// the last commit of the branch
    pub head: Oid,
    /// the hunks of the working directory that belong to the branch
    pub ownership: Ownership,
    /// the place of the branch among the branches
    pub order: usize,
}

/// A virtual branch, as it is stored.
pub struct BranchModel {
    pub id: BranchId,
    pub name: Seq<char>,
    pub notes: Seq<char>,
    pub applied: bool,
    pub upstream: Option<RemoteBranchModel>,
    pub upstream_head: Option<Oid>,
    pub created_timestamp_ms: u128,
    pub updated_timestamp_ms: u128,
    pub tree: Oid,
    pub head: Oid,
    pub ownership: Seq<FileOwnershipModel>,
    pub order: usize,
}

impl View for Branch {
    type V = BranchModel;

    open spec fn view(&self) -> BranchModel {
        BranchModel {
            id: self.id,
            name: self.name@,
            notes: self.notes@,
            applied: self.applied,
            upstream: view_opt(self.upstream),
            upstream_head: self.upstream_head,
            created_timestamp_ms: self.created_timestamp_ms,
            updated_timestamp_ms: self.updated_timestamp_ms,
            tree: self.tree,
            head: self.head,
            ownership: self.ownership@,
            order: self.order,
        }
    }
}

impl Clone for Branch {
    fn clone(&self) -> (copy: Self)
        ensures
            copy@ == self@,
    {
        let copy = Branch {
            id: self.id,
            name: self.name.clone(),
            notes: self.notes.clone(),
            applied: self.applied,
            upstream: self.upstream.clone(),
            upstream_head: self.upstream_head,
            created_timestamp_ms: self.created_timestamp_ms,
            updated_timestamp_ms: self.updated_timestamp_ms,
            tree: self.tree,
            head: self.head,
            ownership: self.ownership.clone(),
            order: self.order,
        };
        copy
    }
}

/// What a new branch is asked to be.
#[derive(Debug)]
pub struct BranchCreateRequest {
    pub name: Option<String>,
    pub ownership: Option<Ownership>,
    pub order: Option<usize>,
}

/// What a new branch is asked to be.
pub struct BranchCreateModel {
    pub name: Option<Seq<char>>,
    pub ownership: Option<Seq<FileOwnershipModel>>,
    pub order: Option<usize>,
}

impl View for BranchCreateRequest {
    type V = BranchCreateModel;

    open spec fn view(&self) -> BranchCreateModel {
        BranchCreateModel {
            name: view_opt(self.name),
            ownership: view_opt(self.ownership),
            order: self.order,
        }
    }
}

impl BranchCreateRequest {
    /// Asks for nothing in particular.
    pub fn new() -> (r: BranchCreateRequest)
        ensures
            r@ == (BranchCreateModel { name: None, ownership: None, order: None }),
    {
        BranchCreateRequest { name: None, ownership: None, order: None }
    }
}

/// What is to change of a branch.
#[derive(Debug)]
pub struct BranchUpdateRequest {
    pub id: BranchId,
    pub name: Option<String>,
    pub notes: Option<String>,
    pub ownership: Option<Ownership>,
    pub order: Option<usize>,
    /// the name of the upstream branch, yet without a remote
    pub upstream: Option<String>,
}

/// What is to change of a branch.
pub struct BranchUpdateModel {
    pub id: BranchId,
    pub name: Option<Seq<char>>,
    pub notes: Option<Seq<char>>,
    pub ownership: Option<Seq<FileOwnershipModel>>,
    pub order: Option<usize>,
    pub upstream: Option<Seq<char>>,
}

impl View for BranchUpdateRequest {
    type V = BranchUpdateModel;

    open spec fn view(&self) -> BranchUpdateModel {
        BranchUpdateModel {
            id: self.id,
            name: view_opt(self.name),
            notes: view_opt(self.notes),
            ownership: view_opt(self.ownership),
            order: self.order,
            upstream: view_opt(self.upstream),
        }
    }
}

/// Who made a commit, as far as the commit says so in UTF-8.
#[derive(Debug)]
pub struct Signature {
    pub name: Option<String>,
    pub email: Option<String>,
}

/// Who made a commit, as far as the commit says so in UTF-8.
pub struct SignatureModel {
    pub name: Option<Seq<char>>,
    pub email: Option<Seq<char>>,
}

impl View for Signature {
    type V = SignatureModel;

    open spec fn view(&self) -> SignatureModel {
        SignatureModel {
            name: view_opt(self.name),
            email: view_opt(self.email),
        }
    }
}

impl Clone for Signature {
    fn clone(&self) -> (copy: Self)
        ensures
            copy@ == self@,
    {
        let copy = Signature {
            name: self.name.clone(),
            email: self.email.clone(),
        };
        copy
    }
}

/// A commit.
#[derive(Debug)]
pub struct Commit {
    pub id: Oid,
    pub tree: Oid,
    pub parents: Vec<Oid>,
    /// when it was made, in seconds since 1970
    pub seconds: i64,
    pub author: Signature,
    /// the message, where it is UTF-8
    pub message: Option<String>,
}

/// A commit.
pub struct CommitModel {
    pub id: Oid,
    pub tree: Oid,
    pub parents: Seq<Oid>,
    pub seconds: i64,
    pub author: SignatureModel,
    pub message: Option<Seq<char>>,
}

impl View for Commit {
    type V = CommitModel;

    open spec fn view(&self) -> CommitModel {
        CommitModel {
            id: self.id,
            tree: self.tree,
            parents: self.parents@,
            seconds: self.seconds,
            author: self.author@,
            message: view_opt(self.message),
        }
    }
}

impl Clone for Commit {
    fn clone(&self) -> (copy: Self)
        ensures
            copy@ == self@,
    {
        let copy = Commit {
            id: self.id,
            tree: self.tree,
            parents: self.parents.clone(),
            seconds: self.seconds,
            author: self.author.clone(),
            message: self.message.clone(),
        };
        assert(copy@.parents =~= self@.parents);
        copy
    }
}

/// A branch of a remote, as it is shown.
#[derive(Debug)]
pub struct RemoteBranch {
    pub name: String,
    pub sha: Oid,
}

/// A branch of a remote, as it is shown.
pub struct RemoteBranchInfo {
    pub name: Seq<char>,
    pub sha: Oid,
}

impl View for RemoteBranch {
    type V = RemoteBranchInfo;

    open spec fn view(&self) -> RemoteBranchInfo {
        RemoteBranchInfo {
            name: self.name@,
            sha: self.sha,
        }
    }
}

impl Clone for RemoteBranch {
    fn clone(&self) -> (copy: Self)
        ensures
            copy@ == self@,
    {
        let copy = RemoteBranch {
            name: self.name.clone(),
            sha: self.sha,
        };
        copy
    }
}

} // verus!
