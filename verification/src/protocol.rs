//! The conversation between an operation and the world outside.
//!
//! An operation on virtual branches alternates between decisions and work on the repository.
//! The operations of this crate make the decisions only. Each runs against the replies that the
//! outside has given so far: it either comes to an end, or it stops at the first request that has
//! no reply yet. Whoever runs it does what is asked, adds the reply, and runs it again.

use crate::branch::{
    Branch, BranchModel, Commit, CommitModel, RemoteBranch, RemoteBranchInfo, Target, TargetModel,
};
use crate::diff::{FileDiff, FileDiffModel};
use crate::naming::{RemoteBranchModel, RemoteBranchName};
use crate::objects::{BranchId, Oid};
use crate::seqs::{view_opt, views};
use vstd::prelude::*;

verus! {

/// Why something outside failed, as far as an operation cares.
#[derive(Clone, Copy, PartialEq, Eq, Structural, Debug)]
pub enum FailureKind {
    /// What was looked for is not there.
    NotFound,
    /// Anything else.
    Other,
}

/// A failure outside.
#[derive(Debug)]
pub struct Failure {
    pub kind: FailureKind,
    pub message: String,
}

/// A failure outside.
pub struct FailureModel {
    pub kind: FailureKind,
    pub message: Seq<char>,
}

impl View for Failure {
    type V = FailureModel;

    open spec fn view(&self) -> FailureModel {
        FailureModel {
            kind: self.kind,
            message: self.message@,
        }
    }
}

impl Clone for Failure {
    fn clone(&self) -> (copy: Self)
        ensures
            copy@ == self@,
    {
        let copy = Failure {
            kind: self.kind,
            message: self.message.clone(),
        };
        copy
    }
}

/// What kind of file an entry of a tree is.
#[derive(Clone, Copy, PartialEq, Eq, Structural, Debug)]
pub enum FileMode {
    Blob,
    Executable,
    Link,
}

/// What is known of a file in the working directory.
#[derive(Clone, Copy, PartialEq, Eq, Structural, Debug)]
pub struct FileStat {
    /// The permission bits.
    pub mode: u32,
    pub is_symlink: bool,
}

/// When a file was changed and when it was made, in milliseconds since 1970, as far as known.
#[derive(Clone, Copy, PartialEq, Eq, Structural, Debug)]
pub struct FileTimes {
    pub modified: Option<u128>,
    pub created: Option<u128>,
}

impl View for FileTimes {
    type V = FileTimes;

    open spec fn view(&self) -> FileTimes {
        *self
    }
}

/// The outcome of a merge that is not yet a tree: a handle by which it is spoken of, and whether
/// there are conflicts in it.
#[derive(Clone, Copy, PartialEq, Eq, Structural, Debug)]
pub struct MergeIndex {
    pub handle: u64,
    pub conflicted: bool,
}

impl View for MergeIndex {
    type V = MergeIndex;

    open spec fn view(&self) -> MergeIndex {
        *self
    }
}

/// By whom a new commit is said to be made.
#[derive(Clone, Copy, PartialEq, Eq, Structural, Debug)]
pub enum Signatures {
    /// The user.
    User,
    /// The author and the committer of another commit.
    Of(Oid),
    /// The program itself.
    Program,
}

/// A change of one entry of a tree.
#[derive(Debug)]
pub enum TreeEdit {
    /// The path leads to the blob.
    Upsert { path: String, blob: Oid, mode: FileMode },
    /// The path is gone.
    Remove(String),
}

/// A change of one entry of a tree.
pub enum TreeEditModel {
    Upsert { path: Seq<char>, blob: Oid, mode: FileMode },
    Remove(Seq<char>),
}

impl View for TreeEdit {
    type V = TreeEditModel;

    open spec fn view(&self) -> TreeEditModel {
        match self {
            TreeEdit::Upsert { path, blob, mode } => TreeEditModel::Upsert {
                path: path@,
                blob: *blob,
                mode: *mode,
            },
            TreeEdit::Remove(a) => TreeEditModel::Remove(a@),
        }
    }
}

/// An entry of a merge that is in conflict.
#[derive(Debug)]
pub enum Conflict {
    /// It could not be read.
    Unreadable,
    /// Our side has no such file.
    NotOurs,
    /// The path of the file on our side, in bytes.
    Ours(Vec<u8>),
}

/// An entry of a merge that is in conflict.
pub enum ConflictModel {
    Unreadable,
    NotOurs,
    Ours(Seq<u8>),
}

impl View for Conflict {
    type V = ConflictModel;

    open spec fn view(&self) -> ConflictModel {
        match self {
            Conflict::Unreadable => ConflictModel::Unreadable,
            Conflict::NotOurs => ConflictModel::NotOurs,
            Conflict::Ours(a) => ConflictModel::Ours(a@),
        }
    }
}

/// Where a symbolic link leads, in bytes.
#[derive(Debug)]
pub struct LinkTarget {
    /// the target as the link has it
    pub raw: Vec<u8>,
    /// the target from the root of the project on, where it lies inside the project
    pub inside: Option<Vec<u8>>,
}

/// Where a symbolic link leads, in bytes.
pub struct LinkTargetModel {
    pub raw: Seq<u8>,
    pub inside: Option<Seq<u8>>,
}

impl View for LinkTarget {
    type V = LinkTargetModel;

    open spec fn view(&self) -> LinkTargetModel {
        LinkTargetModel {
            raw: self.raw@,
            inside: view_opt(self.inside),
        }
    }
}

/// Something that an operation asks of the outside. Behind each request stands the reply that
/// answers it.
#[derive(Debug)]
pub enum Request {
    /// Is the project resolving conflicts? (`Flag`)
    IsResolving,
    /// Is the file, or any file, in conflict? (`Flag`)
    IsConflicting(Option<String>),
    /// Which files are in conflict, if the project is resolving? (`Paths`)
    ConflictingFiles,
    /// Note that the file is no longer in conflict. (`Unit`)
    ResolveConflict(String),
    /// Note which files are in conflict, and the commit that is being merged. (`Unit`)
    MarkConflicts { paths: Vec<String>, parent: Oid },
    /// Note that nothing is in conflict. (`Unit`)
    ClearConflicts,
    /// Which commit is being merged? (`MaybeOid`)
    MergeParent,
    /// Open the current session. (`Unit`)
    OpenSession,
    /// Read the default target of the session. (`Target`)
    ReadDefaultTarget,
    /// The default target, if one is set. (`MaybeTarget`)
    StoredDefaultTarget,
    /// Read a branch. (`Branch`)
    ReadBranch(BranchId),
    /// Read all branches. (`Branches`)
    ListBranches,
    /// Store a branch. (`Unit`)
    WriteBranch(Branch),
    /// Remove a branch from the store. (`Unit`)
    DeleteBranch(Branch),
    /// Add the git reference of a branch. (`Unit`)
    AddBranchReference(Branch),
    /// Remove the git reference of a branch. (`Unit`)
    DeleteBranchReference(Branch),
    /// A fresh id. (`Id`)
    NewBranchId,
    /// The time, in milliseconds since 1970. (`Millis`)
    Now,
    /// Find a commit. (`Commit`)
    FindCommit(Oid),
    /// Find a commit, in the repository of the store. (`Commit`)
    FindStoreCommit(Oid),
    /// Make sure that a tree is there. (`Unit`)
    FindTree(Oid),
    /// The merge base of two commits. (`Oid`)
    MergeBase(Oid, Oid),
    /// Merge two trees. (`Index`)
    MergeTrees { base: Oid, ours: Oid, theirs: Oid },
    /// Apply the changes of a commit onto another. (`Index`)
    CherryPick { onto: Oid, commit: Oid },
    /// The conflicts of a merge. (`Conflicts`)
    IndexConflicts(u64),
    /// Write a merge out as a tree. (`Oid`)
    WriteIndex(u64),
    /// Check a merge out, with conflict markers or without conflicts. (`Unit`)
    CheckoutIndex { index: u64, with_conflicts: bool },
    /// Check a tree out. (`Unit`)
    CheckoutTree { tree: Oid, remove_untracked: bool },
    /// The working directory as a tree. (`Oid`)
    WorkdirTree,
    /// Make a commit. (`Oid`)
    CreateCommit {
        signatures: Signatures,
        message: String,
        tree: Oid,
        parents: Vec<Oid>,
        signed: bool,
    },
    /// The object that a reference leads to. (`Oid`)
    FindReference(String),
    /// Find a git branch by its full name. (`MaybeOid`: where it leads, if it does directly)
    FindBranch(String),
    /// The commit at the head of a git branch. (`Commit`)
    PeelBranch(String),
    /// A remote branch as seen from a commit. (`Remote`)
    DescribeRemote { name: String, head: Oid },
    /// What differs between a commit and the working directory. (`Diffs`)
    DiffWorkdir(Oid),
    /// What differs between two trees. (`Diffs`)
    DiffTrees(Oid, Oid),
    /// The commits from one on, newest first, up to and without another. (`Commits`)
    Log { from: Oid, until: Oid },
    /// The ids of those commits. (`Oids`)
    LogIds { from: Oid, until: Oid },
    /// When a file was changed and made; the path is one below the git directory, or as it stands.
    /// (`Times`)
    FileTimes { in_repository: bool, path: String },
    /// Is there such a path in the project? (`Flag`)
    PathExists(String),
    /// What is known of a file of the project. (`Stat`)
    FileStat(String),
    /// Where a symbolic link of the project leads. (`Link`)
    ReadLink(String),
    /// Has the tree such an entry? (`Flag`)
    HasEntry { tree: Oid, path: String },
    /// The content of a file of a tree. (`Bytes`)
    ReadBlob { tree: Oid, path: String },
    /// Store some content. (`Oid`)
    WriteBlob(Vec<u8>),
    /// Store the content of a file of the project. (`Oid`)
    WriteFileBlob(String),
    /// Store a tree with some entries changed. (`Oid`)
    WriteTree { base: Oid, edits: Vec<TreeEdit> },
    /// Push a commit to a remote branch. (`Unit`)
    Push { head: Oid, branch: RemoteBranchName, force: bool },
    /// Fetch from a remote. (`Unit`)
    Fetch(String),
    /// The branches of all remotes. (`RemoteBranches`)
    ListRemoteBranches,
    /// Bring the integration commit up to date with the branches. (`Unit`)
    UpdateIntegration,
}

/// Something that an operation asks of the outside.
pub enum RequestModel {
    IsResolving,
    IsConflicting(Option<Seq<char>>),
    ConflictingFiles,
    ResolveConflict(Seq<char>),
    MarkConflicts { paths: Seq<Seq<char>>, parent: Oid },
    ClearConflicts,
    MergeParent,
    OpenSession,
    ReadDefaultTarget,
    StoredDefaultTarget,
    ReadBranch(BranchId),
    ListBranches,
    WriteBranch(BranchModel),
    DeleteBranch(BranchModel),
    AddBranchReference(BranchModel),
    DeleteBranchReference(BranchModel),
    NewBranchId,
    Now,
    FindCommit(Oid),
    FindStoreCommit(Oid),
    FindTree(Oid),
    MergeBase(Oid, Oid),
    MergeTrees { base: Oid, ours: Oid, theirs: Oid },
    CherryPick { onto: Oid, commit: Oid },
    IndexConflicts(u64),
    WriteIndex(u64),
    CheckoutIndex { index: u64, with_conflicts: bool },
    CheckoutTree { tree: Oid, remove_untracked: bool },
    WorkdirTree,
    CreateCommit {
        signatures: Signatures,
        message: Seq<char>,
        tree: Oid,
        parents: Seq<Oid>,
        signed: bool,
    },
    FindReference(Seq<char>),
    FindBranch(Seq<char>),
    PeelBranch(Seq<char>),
    DescribeRemote { name: Seq<char>, head: Oid },
    DiffWorkdir(Oid),
    DiffTrees(Oid, Oid),
    Log { from: Oid, until: Oid },
    LogIds { from: Oid, until: Oid },
    FileTimes { in_repository: bool, path: Seq<char> },
    PathExists(Seq<char>),
    FileStat(Seq<char>),
    ReadLink(Seq<char>),
    HasEntry { tree: Oid, path: Seq<char> },
    ReadBlob { tree: Oid, path: Seq<char> },
    WriteBlob(Seq<u8>),
    WriteFileBlob(Seq<char>),
    WriteTree { base: Oid, edits: Seq<TreeEditModel> },
    Push { head: Oid, branch: RemoteBranchModel, force: bool },
    Fetch(Seq<char>),
    ListRemoteBranches,
    UpdateIntegration,
}

impl View for Request {
    type V = RequestModel;

    open spec fn view(&self) -> RequestModel {
        match self {
            Request::IsResolving => RequestModel::IsResolving,
            Request::IsConflicting(a) => RequestModel::IsConflicting(view_opt(*a)),
            Request::ConflictingFiles => RequestModel::ConflictingFiles,
            Request::ResolveConflict(a) => RequestModel::ResolveConflict(a@),
            Request::MarkConflicts { paths, parent } => RequestModel::MarkConflicts {
                paths: views(paths@),
                parent: *parent,
            },
            Request::ClearConflicts => RequestModel::ClearConflicts,
            Request::MergeParent => RequestModel::MergeParent,
            Request::OpenSession => RequestModel::OpenSession,
            Request::ReadDefaultTarget => RequestModel::ReadDefaultTarget,
            Request::StoredDefaultTarget => RequestModel::StoredDefaultTarget,
            Request::ReadBranch(a) => RequestModel::ReadBranch(*a),
            Request::ListBranches => RequestModel::ListBranches,
            Request::WriteBranch(a) => RequestModel::WriteBranch(a@),
            Request::DeleteBranch(a) => RequestModel::DeleteBranch(a@),
            Request::AddBranchReference(a) => RequestModel::AddBranchReference(a@),
            Request::DeleteBranchReference(a) => RequestModel::DeleteBranchReference(a@),
            Request::NewBranchId => RequestModel::NewBranchId,
            Request::Now => RequestModel::Now,
            Request::FindCommit(a) => RequestModel::FindCommit(*a),
            Request::FindStoreCommit(a) => RequestModel::FindStoreCommit(*a),
            Request::FindTree(a) => RequestModel::FindTree(*a),
            Request::MergeBase(a, b) => RequestModel::MergeBase(*a, *b),
            Request::MergeTrees { base, ours, theirs } => RequestModel::MergeTrees {
                base: *base,
                ours: *ours,
                theirs: *theirs,
            },
            Request::CherryPick { onto, commit } => RequestModel::CherryPick {
                onto: *onto,
                commit: *commit,
            },
            Request::IndexConflicts(a) => RequestModel::IndexConflicts(*a),
            Request::WriteIndex(a) => RequestModel::WriteIndex(*a),
            Request::CheckoutIndex { index, with_conflicts } => RequestModel::CheckoutIndex {
                index: *index,
                with_conflicts: *with_conflicts,
            },
            Request::CheckoutTree { tree, remove_untracked } => RequestModel::CheckoutTree {
                tree: *tree,
                remove_untracked: *remove_untracked,
            },
            Request::WorkdirTree => RequestModel::WorkdirTree,
            Request::CreateCommit { signatures, message, tree, parents, signed } => RequestModel::CreateCommit {
                signatures: *signatures,
                message: message@,
                tree: *tree,
                parents: parents@,
                signed: *signed,
            },
            Request::FindReference(a) => RequestModel::FindReference(a@),
            Request::FindBranch(a) => RequestModel::FindBranch(a@),
            Request::PeelBranch(a) => RequestModel::PeelBranch(a@),
            Request::DescribeRemote { name, head } => RequestModel::DescribeRemote {
                name: name@,
                head: *head,
            },
            Request::DiffWorkdir(a) => RequestModel::DiffWorkdir(*a),
            Request::DiffTrees(a, b) => RequestModel::DiffTrees(*a, *b),
            Request::Log { from, until } => RequestModel::Log { from: *from, until: *until },
            Request::LogIds { from, until } => RequestModel::LogIds { from: *from, until: *until },
            Request::FileTimes { in_repository, path } => RequestModel::FileTimes {
                in_repository: *in_repository,
                path: path@,
            },
            Request::PathExists(a) => RequestModel::PathExists(a@),
            Request::FileStat(a) => RequestModel::FileStat(a@),
            Request::ReadLink(a) => RequestModel::ReadLink(a@),
            Request::HasEntry { tree, path } => RequestModel::HasEntry { tree: *tree, path: path@ },
            Request::ReadBlob { tree, path } => RequestModel::ReadBlob { tree: *tree, path: path@ },
            Request::WriteBlob(a) => RequestModel::WriteBlob(a@),
            Request::WriteFileBlob(a) => RequestModel::WriteFileBlob(a@),
            Request::WriteTree { base, edits } => RequestModel::WriteTree {
                base: *base,
                edits: views(edits@),
            },
            Request::Push { head, branch, force } => RequestModel::Push {
                head: *head,
                branch: branch@,
                force: *force,
            },
            Request::Fetch(a) => RequestModel::Fetch(a@),
            Request::ListRemoteBranches => RequestModel::ListRemoteBranches,
            Request::UpdateIntegration => RequestModel::UpdateIntegration,
        }
    }
}

/// What the outside replies.
#[derive(Debug)]
pub enum Reply {
    /// Done.
    Unit,
    /// Yes or no.
    Flag(bool),
    /// An object.
    Oid(Oid),
    /// An object, or none.
    MaybeOid(Option<Oid>),
    /// The id of a branch.
    Id(BranchId),
    /// A time in milliseconds since 1970.
    Millis(u128),
    /// A target.
    Target(Target),
    /// A target, or none.
    MaybeTarget(Option<Target>),
    /// A branch.
    Branch(Branch),
    /// Branches.
    Branches(Vec<Branch>),
    /// A commit.
    Commit(Commit),
    /// Commits.
    Commits(Vec<Commit>),
    /// Objects.
    Oids(Vec<Oid>),
    /// The outcome of a merge.
    Index(MergeIndex),
    /// The conflicts of a merge.
    Conflicts(Vec<Conflict>),
    /// Paths, or none at all.
    Paths(Option<Vec<String>>),
    /// A diff, each file once.
    Diffs(Vec<FileDiff>),
    /// The times of a file.
    Times(FileTimes),
    /// What is known of a file, or nothing.
    Stat(Option<FileStat>),
    /// Where a link leads.
    Link(LinkTarget),
    /// Some content.
    Bytes(Vec<u8>),
    /// A remote branch, or none.
    Remote(Option<RemoteBranch>),
    /// Remote branches.
    RemoteBranches(Vec<RemoteBranchName>),
    /// It failed.
    Failed(Failure),
}

/// What the outside replies.
pub enum ReplyModel {
    Unit,
    Flag(bool),
    Oid(Oid),
    MaybeOid(Option<Oid>),
    Id(BranchId),
    Millis(u128),
    Target(TargetModel),
    MaybeTarget(Option<TargetModel>),
    Branch(BranchModel),
    Branches(Seq<BranchModel>),
    Commit(CommitModel),
    Commits(Seq<CommitModel>),
    Oids(Seq<Oid>),
    Index(MergeIndex),
    Conflicts(Seq<ConflictModel>),
    Paths(Option<Seq<Seq<char>>>),
    Diffs(Seq<FileDiffModel>),
    Times(FileTimes),
    Stat(Option<FileStat>),
    Link(LinkTargetModel),
    Bytes(Seq<u8>),
    Remote(Option<RemoteBranchInfo>),
    RemoteBranches(Seq<RemoteBranchModel>),
    Failed(FailureModel),
}

impl View for Reply {
    type V = ReplyModel;

    open spec fn view(&self) -> ReplyModel {
        match self {
            Reply::Unit => ReplyModel::Unit,
            Reply::Flag(a) => ReplyModel::Flag(*a),
            Reply::Oid(a) => ReplyModel::Oid(*a),
            Reply::MaybeOid(a) => ReplyModel::MaybeOid(*a),
            Reply::Id(a) => ReplyModel::Id(*a),
            Reply::Millis(a) => ReplyModel::Millis(*a),
            Reply::Target(a) => ReplyModel::Target(a@),
            Reply::MaybeTarget(a) => ReplyModel::MaybeTarget(view_opt(*a)),
            Reply::Branch(a) => ReplyModel::Branch(a@),
            Reply::Branches(a) => ReplyModel::Branches(views(a@)),
            Reply::Commit(a) => ReplyModel::Commit(a@),
            Reply::Commits(a) => ReplyModel::Commits(views(a@)),
            Reply::Oids(a) => ReplyModel::Oids(a@),
            Reply::Index(a) => ReplyModel::Index(*a),
            Reply::Conflicts(a) => ReplyModel::Conflicts(views(a@)),
            Reply::Paths(a) => ReplyModel::Paths(
                (match a { Some(v) => Some(views(v@)), None => None }),
            ),
            Reply::Diffs(a) => ReplyModel::Diffs(views(a@)),
            Reply::Times(a) => ReplyModel::Times(*a),
            Reply::Stat(a) => ReplyModel::Stat(*a),
            Reply::Link(a) => ReplyModel::Link(a@),
            Reply::Bytes(a) => ReplyModel::Bytes(a@),
            Reply::Remote(a) => ReplyModel::Remote(view_opt(*a)),
            Reply::RemoteBranches(a) => ReplyModel::RemoteBranches(views(a@)),
            Reply::Failed(a) => ReplyModel::Failed(a@),
        }
    }
}

/// Why an operation fails.
#[derive(Debug)]
pub enum BranchError {
    /// Nothing is applied while the project is in a conflicted state.
    ApplyWhileConflicted,
    /// Nothing is unapplied while the project is in a conflicted state.
    UnapplyWhileConflicted,
    /// Nothing is merged from upstream while the project is in a conflicted state.
    MergeWhileConflicted,
    /// Nothing is amended while the project is in a conflicted state.
    AmendWhileConflicted,
    /// Nothing is cherry picked while the project is in a conflicted state.
    CherryPickWhileConflicted,
    /// The branch is in conflict with other applied branches.
    ConflictsWithApplied,
    /// The branch is not applied.
    NotApplied,
    /// The named branch is applied.
    BranchIsApplied(String),
    /// The named branch is not applied.
    BranchIsNotApplied(String),
    /// Nothing is cherry picked onto an unapplied branch.
    CherryPickUnapplied,
    /// There is no such branch.
    BranchNotFound(BranchId),
    /// The branch does not own what it should.
    OwnershipNotFound,
    /// The branch has no commits.
    NoCommits,
    /// The commit is not in the named branch.
    CommitNotInBranch { commit: Oid, branch: String },
    /// No default target is set.
    NoDefaultTarget,
    /// There is no remote to name an upstream branch of.
    NoRemote,
    /// The branch has no upstream branch.
    NoUpstream,
    /// The git branch leads to no commit directly.
    DetachedHead,
    /// A path in conflict is not UTF-8.
    PathNotUtf8,
    /// A commit is dated before 1970.
    TimeBefore1970,
    /// The message of a commit is not UTF-8.
    MessageNotUtf8,
    /// The diff of a binary file is not the id of its content.
    NotAnOid(String),
    /// The diff of a hunk cannot be read.
    PatchUnreadable(String),
    /// The diff of a hunk does not fit the file.
    PatchRejected(String),
    /// A reply does not answer the request.
    UnexpectedReply,
    /// Something outside failed.
    Outside(Failure),
}

/// Why an operation fails.
pub enum BranchErrorModel {
    ApplyWhileConflicted,
    UnapplyWhileConflicted,
    MergeWhileConflicted,
    AmendWhileConflicted,
    CherryPickWhileConflicted,
    ConflictsWithApplied,
    NotApplied,
    BranchIsApplied(Seq<char>),
    BranchIsNotApplied(Seq<char>),
    CherryPickUnapplied,
    BranchNotFound(BranchId),
    OwnershipNotFound,
    NoCommits,
    CommitNotInBranch { commit: Oid, branch: Seq<char> },
    NoDefaultTarget,
    NoRemote,
    NoUpstream,
    DetachedHead,
    PathNotUtf8,
    TimeBefore1970,
    MessageNotUtf8,
    NotAnOid(Seq<char>),
    PatchUnreadable(Seq<char>),
    PatchRejected(Seq<char>),
    UnexpectedReply,
    Outside(FailureModel),
}

impl View for BranchError {
    type V = BranchErrorModel;

    open spec fn view(&self) -> BranchErrorModel {
        match self {
            BranchError::ApplyWhileConflicted => BranchErrorModel::ApplyWhileConflicted,
            BranchError::UnapplyWhileConflicted => BranchErrorModel::UnapplyWhileConflicted,
            BranchError::MergeWhileConflicted => BranchErrorModel::MergeWhileConflicted,
            BranchError::AmendWhileConflicted => BranchErrorModel::AmendWhileConflicted,
            BranchError::CherryPickWhileConflicted => BranchErrorModel::CherryPickWhileConflicted,
            BranchError::ConflictsWithApplied => BranchErrorModel::ConflictsWithApplied,
            BranchError::NotApplied => BranchErrorModel::NotApplied,
            BranchError::BranchIsApplied(a) => BranchErrorModel::BranchIsApplied(a@),
            BranchError::BranchIsNotApplied(a) => BranchErrorModel::BranchIsNotApplied(a@),
            BranchError::CherryPickUnapplied => BranchErrorModel::CherryPickUnapplied,
            BranchError::BranchNotFound(a) => BranchErrorModel::BranchNotFound(*a),
            BranchError::OwnershipNotFound => BranchErrorModel::OwnershipNotFound,
            BranchError::NoCommits => BranchErrorModel::NoCommits,
            BranchError::CommitNotInBranch { commit, branch } => BranchErrorModel::CommitNotInBranch {
                commit: *commit,
                branch: branch@,
            },
            BranchError::NoDefaultTarget => BranchErrorModel::NoDefaultTarget,
            BranchError::NoRemote => BranchErrorModel::NoRemote,
            BranchError::NoUpstream => BranchErrorModel::NoUpstream,
            BranchError::DetachedHead => BranchErrorModel::DetachedHead,
            BranchError::PathNotUtf8 => BranchErrorModel::PathNotUtf8,
            BranchError::TimeBefore1970 => BranchErrorModel::TimeBefore1970,
            BranchError::MessageNotUtf8 => BranchErrorModel::MessageNotUtf8,
            BranchError::NotAnOid(a) => BranchErrorModel::NotAnOid(a@),
            BranchError::PatchUnreadable(a) => BranchErrorModel::PatchUnreadable(a@),
            BranchError::PatchRejected(a) => BranchErrorModel::PatchRejected(a@),
            BranchError::UnexpectedReply => BranchErrorModel::UnexpectedReply,
            BranchError::Outside(a) => BranchErrorModel::Outside(a@),
        }
    }
}

/// Why an operation stops short of its result.
#[derive(Debug)]
pub enum Stop {
    /// It needs a reply to this request.
    Ask(Request),
    /// It failed.
    Fail(BranchError),
}

/// Why an operation stops short of its result.
pub enum StopModel {
    Ask(RequestModel),
    Fail(BranchErrorModel),
}

impl View for Stop {
    type V = StopModel;

    open spec fn view(&self) -> StopModel {
        match self {
            Stop::Ask(request) => StopModel::Ask(request@),
            Stop::Fail(error) => StopModel::Fail(error@),
        }
    }
}

/// The replies that the outside has given and that are not yet used.
pub struct Tape<'a> {
    replies: &'a Vec<Reply>,
    next: usize,
}

impl<'a> View for Tape<'a> {
    type V = Seq<ReplyModel>;

    closed spec fn view(&self) -> Seq<ReplyModel> {
        views(self.replies@.skip(self.next as int))
    }
}

/// How an operation, or a part of one, comes out against some replies: with a value and the
/// replies that are left, or short of a value.
pub enum Flow<T> {
    Done(T, Seq<ReplyModel>),
    Stop(StopModel),
}

impl<T> Flow<T> {
    /// What comes out when the value and the replies that are left are handed on.
    pub open spec fn and_then<U>(self, next: spec_fn(T, Seq<ReplyModel>) -> Flow<U>) -> Flow<U> {
        match self {
            Flow::Done(value, rest) => next(value, rest),
            Flow::Stop(stop) => Flow::Stop(stop),
        }
    }
}

/// The failure of an operation.
pub open spec fn fail<T>(error: BranchErrorModel) -> Flow<T> {
    Flow::Stop(StopModel::Fail(error))
}

/// How a result, with the replies that are left, comes out.
pub open spec fn outcome<T: View>(r: Result<T, Stop>, rest: Seq<ReplyModel>) -> Flow<T::V> {
    match r {
        Ok(value) => Flow::Done(value@, rest),
        Err(stop) => Flow::Stop(stop@),
    }
}

/// How a result that may hold nothing comes out.
pub open spec fn outcome_opt<T: View>(r: Result<Option<T>, Stop>, rest: Seq<ReplyModel>) -> Flow<
    Option<T::V>,
> {
    match r {
        Ok(value) => Flow::Done(view_opt(value), rest),
        Err(stop) => Flow::Stop(stop@),
    }
}

/// How a result of many values comes out.
pub open spec fn outcome_seq<T: View>(r: Result<Vec<T>, Stop>, rest: Seq<ReplyModel>) -> Flow<
    Seq<T::V>,
> {
    match r {
        Ok(values) => Flow::Done(views(values@), rest),
        Err(stop) => Flow::Stop(stop@),
    }
}

/// The next reply, whatever it is, to a request.
pub open spec fn reply_to(s: Seq<ReplyModel>, request: RequestModel) -> Flow<ReplyModel> {
    if s.len() == 0 {
        Flow::Stop(StopModel::Ask(request))
    } else {
        Flow::Done(s[0], s.drop_first())
    }
}

/// The next reply to a request; a failure outside is a failure of the operation.
pub open spec fn ask(s: Seq<ReplyModel>, request: RequestModel) -> Flow<ReplyModel> {
    match reply_to(s, request) {
        Flow::Done(ReplyModel::Failed(failure), _) => fail(BranchErrorModel::Outside(failure)),
        flow => flow,
    }
}

impl<'a> Tape<'a> {
    #[verifier::type_invariant]
    spec fn in_range(self) -> bool {
        self.next <= self.replies@.len()
    }

    /// All of some replies.
    pub fn new(replies: &'a Vec<Reply>) -> (tape: Tape<'a>)
        ensures
            tape@ == views(replies@),
    {
        assert(replies@.skip(0) =~= replies@);
        Tape { replies, next: 0 }
    }

    /// The next reply, whatever it is, to a request.
    pub fn reply_to(&mut self, request: Request) -> (r: Result<&'a Reply, Stop>)
        ensures
            outcome(r, final(self)@) == reply_to(old(self)@, request@),
    {
        proof {
            use_type_invariant(&*self);
        }
        if self.next == self.replies.len() {
            return Err(Stop::Ask(request));
        }
        let reply: &'a Reply = &self.replies[self.next];
        assert(self@[0] == reply@);
        self.next = self.next + 1;
        assert(self@ =~= old(self)@.drop_first());
        Ok(reply)
    }

    /// The next reply to a request; a failure outside is a failure of the operation.
    pub fn ask(&mut self, request: Request) -> (r: Result<&'a Reply, Stop>)
        ensures
            outcome(r, final(self)@) == ask(old(self)@, request@),
    {
        let reply: &'a Reply = self.reply_to(request)?;
        match reply {
            Reply::Failed(failure) => Err(Stop::Fail(BranchError::Outside(failure.clone()))),
            _ => Ok(reply),
        }
    }

    /// The reply to a request that `Unit` answers.
    pub fn ask_unit(&mut self, request: Request) -> (r: Result<(), Stop>)
        ensures
            outcome(r, final(self)@) == ask_unit(old(self)@, request@),
    {
        match self.ask(request)? {
            Reply::Unit => Ok(()),
            _ => Err(Stop::Fail(BranchError::UnexpectedReply)),
        }
    }

    /// The reply to a request that `Flag` answers.
    pub fn ask_flag(&mut self, request: Request) -> (r: Result<bool, Stop>)
        ensures
            outcome(r, final(self)@) == ask_flag(old(self)@, request@),
    {
        match self.ask(request)? {
            Reply::Flag(v) => Ok(*v),
            _ => Err(Stop::Fail(BranchError::UnexpectedReply)),
        }
    }

    /// The reply to a request that `Oid` answers.
    pub fn ask_oid(&mut self, request: Request) -> (r: Result<Oid, Stop>)
        ensures
            outcome(r, final(self)@) == ask_oid(old(self)@, request@),
    {
        match self.ask(request)? {
            Reply::Oid(v) => Ok(*v),
            _ => Err(Stop::Fail(BranchError::UnexpectedReply)),
        }
    }

    /// The reply to a request that `MaybeOid` answers.
    pub fn ask_maybe_oid(&mut self, request: Request) -> (r: Result<Option<Oid>, Stop>)
        ensures
            outcome_opt(r, final(self)@) == ask_maybe_oid(old(self)@, request@),
    {
        match self.ask(request)? {
            Reply::MaybeOid(v) => Ok(*v),
            _ => Err(Stop::Fail(BranchError::UnexpectedReply)),
        }
    }

    /// The reply to a request that `Id` answers.
    pub fn ask_id(&mut self, request: Request) -> (r: Result<BranchId, Stop>)
        ensures
            outcome(r, final(self)@) == ask_id(old(self)@, request@),
    {
        match self.ask(request)? {
            Reply::Id(v) => Ok(*v),
            _ => Err(Stop::Fail(BranchError::UnexpectedReply)),
        }
    }

    /// The reply to a request that `Millis` answers.
    pub fn ask_millis(&mut self, request: Request) -> (r: Result<u128, Stop>)
        ensures
            outcome(r, final(self)@) == ask_millis(old(self)@, request@),
    {
        match self.ask(request)? {
            Reply::Millis(v) => Ok(*v),
            _ => Err(Stop::Fail(BranchError::UnexpectedReply)),
        }
    }

    /// The reply to a request that `Target` answers.
    pub fn ask_target(&mut self, request: Request) -> (r: Result<Target, Stop>)
        ensures
            outcome(r, final(self)@) == ask_target(old(self)@, request@),
    {
        match self.ask(request)? {
            Reply::Target(v) => Ok(v.clone()),
            _ => Err(Stop::Fail(BranchError::UnexpectedReply)),
        }
    }

    /// The reply to a request that `MaybeTarget` answers.
    pub fn ask_maybe_target(&mut self, request: Request) -> (r: Result<Option<Target>, Stop>)
        ensures
            outcome_opt(r, final(self)@) == ask_maybe_target(old(self)@, request@),
    {
        match self.ask(request)? {
            Reply::MaybeTarget(v) => Ok(v.clone()),
            _ => Err(Stop::Fail(BranchError::UnexpectedReply)),
        }
    }

    /// The reply to a request that `Branch` answers.
    pub fn ask_branch(&mut self, request: Request) -> (r: Result<Branch, Stop>)
        ensures
            outcome(r, final(self)@) == ask_branch(old(self)@, request@),
    {
        match self.ask(request)? {
            Reply::Branch(v) => Ok(v.clone()),
            _ => Err(Stop::Fail(BranchError::UnexpectedReply)),
        }
    }

    /// The reply to a request that `Branches` answers.
    pub fn ask_branches(&mut self, request: Request) -> (r: Result<Vec<Branch>, Stop>)
        ensures
            outcome_seq(r, final(self)@) == ask_branches(old(self)@, request@),
    {
        match self.ask(request)? {
            Reply::Branches(v) => {
                let copy: Vec<Branch> = v.clone();
                assert(views(copy@) =~= views(v@));
                Ok(copy)
            },
            _ => Err(Stop::Fail(BranchError::UnexpectedReply)),
        }
    }

    /// The reply to a request that `Commit` answers.
    pub fn ask_commit(&mut self, request: Request) -> (r: Result<Commit, Stop>)
        ensures
            outcome(r, final(self)@) == ask_commit(old(self)@, request@),
    {
        match self.ask(request)? {
            Reply::Commit(v) => Ok(v.clone()),
            _ => Err(Stop::Fail(BranchError::UnexpectedReply)),
        }
    }

    /// The reply to a request that `Commits` answers.
    pub fn ask_commits(&mut self, request: Request) -> (r: Result<Vec<Commit>, Stop>)
        ensures
            outcome_seq(r, final(self)@) == ask_commits(old(self)@, request@),
    {
        match self.ask(request)? {
            Reply::Commits(v) => {
                let copy: Vec<Commit> = v.clone();
                assert(views(copy@) =~= views(v@));
                Ok(copy)
            },
            _ => Err(Stop::Fail(BranchError::UnexpectedReply)),
        }
    }

    /// The reply to a request that `Oids` answers.
    pub fn ask_oids(&mut self, request: Request) -> (r: Result<&'a Vec<Oid>, Stop>)
        ensures
            outcome(r, final(self)@) == ask_oids(old(self)@, request@),
    {
        match self.ask(request)? {
            Reply::Oids(v) => Ok(v),
            _ => Err(Stop::Fail(BranchError::UnexpectedReply)),
        }
    }

    /// The reply to a request that `Index` answers.
    pub fn ask_index(&mut self, request: Request) -> (r: Result<MergeIndex, Stop>)
        ensures
            outcome(r, final(self)@) == ask_index(old(self)@, request@),
    {
        match self.ask(request)? {
            Reply::Index(v) => Ok(*v),
            _ => Err(Stop::Fail(BranchError::UnexpectedReply)),
        }
    }

    /// The reply to a request that `Conflicts` answers.
    pub fn ask_conflicts(&mut self, request: Request) -> (r: Result<&'a Vec<Conflict>, Stop>)
        ensures
            (match r {
                Ok(values) => Flow::Done(views(values@), final(self)@),
                Err(stop) => Flow::Stop(stop@),
            }) == ask_conflicts(old(self)@, request@),
    {
        match self.ask(request)? {
            Reply::Conflicts(v) => Ok(v),
            _ => Err(Stop::Fail(BranchError::UnexpectedReply)),
        }
    }

    /// The reply to a request that `Paths` answers.
    pub fn ask_paths(&mut self, request: Request) -> (r: Result<&'a Option<Vec<String>>, Stop>)
        ensures
            (match r {
                Ok(Some(paths)) => Flow::Done(Some(views(paths@)), final(self)@),
                Ok(None) => Flow::Done(None, final(self)@),
                Err(stop) => Flow::Stop(stop@),
            }) == ask_paths(old(self)@, request@),
    {
        match self.ask(request)? {
            Reply::Paths(v) => Ok(v),
            _ => Err(Stop::Fail(BranchError::UnexpectedReply)),
        }
    }

    /// The reply to a request that `Diffs` answers.
    pub fn ask_diffs(&mut self, request: Request) -> (r: Result<Vec<FileDiff>, Stop>)
        ensures
            outcome_seq(r, final(self)@) == ask_diffs(old(self)@, request@),
    {
        match self.ask(request)? {
            Reply::Diffs(v) => {
                let copy: Vec<FileDiff> = v.clone();
                assert(views(copy@) =~= views(v@));
                Ok(copy)
            },
            _ => Err(Stop::Fail(BranchError::UnexpectedReply)),
        }
    }

    /// The reply to a request that `Times` answers.
    pub fn ask_times(&mut self, request: Request) -> (r: Result<FileTimes, Stop>)
        ensures
            outcome(r, final(self)@) == ask_times(old(self)@, request@),
    {
        match self.ask(request)? {
            Reply::Times(v) => Ok(*v),
            _ => Err(Stop::Fail(BranchError::UnexpectedReply)),
        }
    }

    /// The reply to a request that `Stat` answers.
    pub fn ask_stat(&mut self, request: Request) -> (r: Result<Option<FileStat>, Stop>)
        ensures
            outcome(r, final(self)@) == ask_stat(old(self)@, request@),
    {
        match self.ask(request)? {
            Reply::Stat(v) => Ok(*v),
            _ => Err(Stop::Fail(BranchError::UnexpectedReply)),
        }
    }

    /// The reply to a request that `Link` answers.
    pub fn ask_link(&mut self, request: Request) -> (r: Result<&'a LinkTarget, Stop>)
        ensures
            outcome(r, final(self)@) == ask_link(old(self)@, request@),
    {
        match self.ask(request)? {
            Reply::Link(v) => Ok(v),
            _ => Err(Stop::Fail(BranchError::UnexpectedReply)),
        }
    }

    /// The reply to a request that `Bytes` answers.
    pub fn ask_bytes(&mut self, request: Request) -> (r: Result<&'a Vec<u8>, Stop>)
        ensures
            outcome(r, final(self)@) == ask_bytes(old(self)@, request@),
    {
        match self.ask(request)? {
            Reply::Bytes(v) => Ok(v),
            _ => Err(Stop::Fail(BranchError::UnexpectedReply)),
        }
    }

    /// The reply to a request that `Remote` answers.
    pub fn ask_remote(&mut self, request: Request) -> (r: Result<Option<RemoteBranch>, Stop>)
        ensures
            outcome_opt(r, final(self)@) == ask_remote(old(self)@, request@),
    {
        match self.ask(request)? {
            Reply::Remote(v) => Ok(v.clone()),
            _ => Err(Stop::Fail(BranchError::UnexpectedReply)),
        }
    }

    /// The reply to a request that `RemoteBranches` answers.
    pub fn ask_remote_branches(&mut self, request: Request) -> (r: Result<
        Vec<RemoteBranchName>,
        Stop,
    >)
        ensures
            outcome_seq(r, final(self)@) == ask_remote_branches(old(self)@, request@),
    {
        match self.ask(request)? {
            Reply::RemoteBranches(v) => {
                let copy: Vec<RemoteBranchName> = v.clone();
                assert(views(copy@) =~= views(v@));
                Ok(copy)
            },
            _ => Err(Stop::Fail(BranchError::UnexpectedReply)),
        }
    }
}

/// The reply to a request that `Unit` answers.
pub open spec fn ask_unit(s: Seq<ReplyModel>, request: RequestModel) -> Flow<()> {
    match ask(s, request) {
        Flow::Done(ReplyModel::Unit, rest) => Flow::Done((), rest),
        Flow::Done(_, _) => fail(BranchErrorModel::UnexpectedReply),
        Flow::Stop(stop) => Flow::Stop(stop),
    }
}

/// The reply to a request that `Flag` answers.
pub open spec fn ask_flag(s: Seq<ReplyModel>, request: RequestModel) -> Flow<bool> {
    match ask(s, request) {
        Flow::Done(ReplyModel::Flag(v), rest) => Flow::Done(v, rest),
        Flow::Done(_, _) => fail(BranchErrorModel::UnexpectedReply),
        Flow::Stop(stop) => Flow::Stop(stop),
    }
}

/// The reply to a request that `Oid` answers.
pub open spec fn ask_oid(s: Seq<ReplyModel>, request: RequestModel) -> Flow<Oid> {
    match ask(s, request) {
        Flow::Done(ReplyModel::Oid(v), rest) => Flow::Done(v, rest),
        Flow::Done(_, _) => fail(BranchErrorModel::UnexpectedReply),
        Flow::Stop(stop) => Flow::Stop(stop),
    }
}

/// The reply to a request that `MaybeOid` answers.
pub open spec fn ask_maybe_oid(s: Seq<ReplyModel>, request: RequestModel) -> Flow<Option<Oid>> {
    match ask(s, request) {
        Flow::Done(ReplyModel::MaybeOid(v), rest) => Flow::Done(v, rest),
        Flow::Done(_, _) => fail(BranchErrorModel::UnexpectedReply),
        Flow::Stop(stop) => Flow::Stop(stop),
    }
}

/// The reply to a request that `Id` answers.
pub open spec fn ask_id(s: Seq<ReplyModel>, request: RequestModel) -> Flow<BranchId> {
    match ask(s, request) {
        Flow::Done(ReplyModel::Id(v), rest) => Flow::Done(v, rest),
        Flow::Done(_, _) => fail(BranchErrorModel::UnexpectedReply),
        Flow::Stop(stop) => Flow::Stop(stop),
    }
}

/// The reply to a request that `Millis` answers.
pub open spec fn ask_millis(s: Seq<ReplyModel>, request: RequestModel) -> Flow<u128> {
    match ask(s, request) {
        Flow::Done(ReplyModel::Millis(v), rest) => Flow::Done(v, rest),
        Flow::Done(_, _) => fail(BranchErrorModel::UnexpectedReply),
        Flow::Stop(stop) => Flow::Stop(stop),
    }
}

/// The reply to a request that `Target` answers.
pub open spec fn ask_target(s: Seq<ReplyModel>, request: RequestModel) -> Flow<TargetModel> {
    match ask(s, request) {
        Flow::Done(ReplyModel::Target(v), rest) => Flow::Done(v, rest),
        Flow::Done(_, _) => fail(BranchErrorModel::UnexpectedReply),
        Flow::Stop(stop) => Flow::Stop(stop),
    }
}

/// The reply to a request that `MaybeTarget` answers.
pub open spec fn ask_maybe_target(
    s: Seq<ReplyModel>,
    request: RequestModel,
) -> Flow<Option<TargetModel>> {
    match ask(s, request) {
        Flow::Done(ReplyModel::MaybeTarget(v), rest) => Flow::Done(v, rest),
        Flow::Done(_, _) => fail(BranchErrorModel::UnexpectedReply),
        Flow::Stop(stop) => Flow::Stop(stop),
    }
}

/// The reply to a request that `Branch` answers.
pub open spec fn ask_branch(s: Seq<ReplyModel>, request: RequestModel) -> Flow<BranchModel> {
    match ask(s, request) {
        Flow::Done(ReplyModel::Branch(v), rest) => Flow::Done(v, rest),
        Flow::Done(_, _) => fail(BranchErrorModel::UnexpectedReply),
        Flow::Stop(stop) => Flow::Stop(stop),
    }
}

/// The reply to a request that `Branches` answers.
pub open spec fn ask_branches(s: Seq<ReplyModel>, request: RequestModel) -> Flow<Seq<BranchModel>> {
    match ask(s, request) {
        Flow::Done(ReplyModel::Branches(v), rest) => Flow::Done(v, rest),
        Flow::Done(_, _) => fail(BranchErrorModel::UnexpectedReply),
        Flow::Stop(stop) => Flow::Stop(stop),
    }
}

/// The reply to a request that `Commit` answers.
pub open spec fn ask_commit(s: Seq<ReplyModel>, request: RequestModel) -> Flow<CommitModel> {
    match ask(s, request) {
        Flow::Done(ReplyModel::Commit(v), rest) => Flow::Done(v, rest),
        Flow::Done(_, _) => fail(BranchErrorModel::UnexpectedReply),
        Flow::Stop(stop) => Flow::Stop(stop),
    }
}

/// The reply to a request that `Commits` answers.
pub open spec fn ask_commits(s: Seq<ReplyModel>, request: RequestModel) -> Flow<Seq<CommitModel>> {
    match ask(s, request) {
        Flow::Done(ReplyModel::Commits(v), rest) => Flow::Done(v, rest),
        Flow::Done(_, _) => fail(BranchErrorModel::UnexpectedReply),
        Flow::Stop(stop) => Flow::Stop(stop),
    }
}

/// The reply to a request that `Oids` answers.
pub open spec fn ask_oids(s: Seq<ReplyModel>, request: RequestModel) -> Flow<Seq<Oid>> {
    match ask(s, request) {
        Flow::Done(ReplyModel::Oids(v), rest) => Flow::Done(v, rest),
        Flow::Done(_, _) => fail(BranchErrorModel::UnexpectedReply),
        Flow::Stop(stop) => Flow::Stop(stop),
    }
}

/// The reply to a request that `Index` answers.
pub open spec fn ask_index(s: Seq<ReplyModel>, request: RequestModel) -> Flow<MergeIndex> {
    match ask(s, request) {
        Flow::Done(ReplyModel::Index(v), rest) => Flow::Done(v, rest),
        Flow::Done(_, _) => fail(BranchErrorModel::UnexpectedReply),
        Flow::Stop(stop) => Flow::Stop(stop),
    }
}

/// The reply to a request that `Conflicts` answers.
pub open spec fn ask_conflicts(
    s: Seq<ReplyModel>,
    request: RequestModel,
) -> Flow<Seq<ConflictModel>> {
    match ask(s, request) {
        Flow::Done(ReplyModel::Conflicts(v), rest) => Flow::Done(v, rest),
        Flow::Done(_, _) => fail(BranchErrorModel::UnexpectedReply),
        Flow::Stop(stop) => Flow::Stop(stop),
    }
}

/// The reply to a request that `Paths` answers.
pub open spec fn ask_paths(
    s: Seq<ReplyModel>,
    request: RequestModel,
) -> Flow<Option<Seq<Seq<char>>>> {
    match ask(s, request) {
        Flow::Done(ReplyModel::Paths(v), rest) => Flow::Done(v, rest),
        Flow::Done(_, _) => fail(BranchErrorModel::UnexpectedReply),
        Flow::Stop(stop) => Flow::Stop(stop),
    }
}

/// The reply to a request that `Diffs` answers.
pub open spec fn ask_diffs(s: Seq<ReplyModel>, request: RequestModel) -> Flow<Seq<FileDiffModel>> {
    match ask(s, request) {
        Flow::Done(ReplyModel::Diffs(v), rest) => Flow::Done(v, rest),
        Flow::Done(_, _) => fail(BranchErrorModel::UnexpectedReply),
        Flow::Stop(stop) => Flow::Stop(stop),
    }
}

/// The reply to a request that `Times` answers.
pub open spec fn ask_times(s: Seq<ReplyModel>, request: RequestModel) -> Flow<FileTimes> {
    match ask(s, request) {
        Flow::Done(ReplyModel::Times(v), rest) => Flow::Done(v, rest),
        Flow::Done(_, _) => fail(BranchErrorModel::UnexpectedReply),
        Flow::Stop(stop) => Flow::Stop(stop),
    }
}

/// The reply to a request that `Stat` answers.
pub open spec fn ask_stat(s: Seq<ReplyModel>, request: RequestModel) -> Flow<Option<FileStat>> {
    match ask(s, request) {
        Flow::Done(ReplyModel::Stat(v), rest) => Flow::Done(v, rest),
        Flow::Done(_, _) => fail(BranchErrorModel::UnexpectedReply),
        Flow::Stop(stop) => Flow::Stop(stop),
    }
}

/// The reply to a request that `Link` answers.
pub open spec fn ask_link(s: Seq<ReplyModel>, request: RequestModel) -> Flow<LinkTargetModel> {
    match ask(s, request) {
        Flow::Done(ReplyModel::Link(v), rest) => Flow::Done(v, rest),
        Flow::Done(_, _) => fail(BranchErrorModel::UnexpectedReply),
        Flow::Stop(stop) => Flow::Stop(stop),
    }
}

/// The reply to a request that `Bytes` answers.
pub open spec fn ask_bytes(s: Seq<ReplyModel>, request: RequestModel) -> Flow<Seq<u8>> {
    match ask(s, request) {
        Flow::Done(ReplyModel::Bytes(v), rest) => Flow::Done(v, rest),
        Flow::Done(_, _) => fail(BranchErrorModel::UnexpectedReply),
        Flow::Stop(stop) => Flow::Stop(stop),
    }
}

/// The reply to a request that `Remote` answers.
pub open spec fn ask_remote(
    s: Seq<ReplyModel>,
    request: RequestModel,
) -> Flow<Option<RemoteBranchInfo>> {
    match ask(s, request) {
        Flow::Done(ReplyModel::Remote(v), rest) => Flow::Done(v, rest),
        Flow::Done(_, _) => fail(BranchErrorModel::UnexpectedReply),
        Flow::Stop(stop) => Flow::Stop(stop),
    }
}

/// The reply to a request that `RemoteBranches` answers.
pub open spec fn ask_remote_branches(
    s: Seq<ReplyModel>,
    request: RequestModel,
) -> Flow<Seq<RemoteBranchModel>> {
    match ask(s, request) {
        Flow::Done(ReplyModel::RemoteBranches(v), rest) => Flow::Done(v, rest),
        Flow::Done(_, _) => fail(BranchErrorModel::UnexpectedReply),
        Flow::Stop(stop) => Flow::Stop(stop),
    }
}

} // verus!
