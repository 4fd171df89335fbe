use virtual_branches::apply::{
    apply_branch, flush_applied_vbranches, unapply_branch, unapply_ownership,
};
use virtual_branches::branch::{
    Branch, BranchCreateRequest, BranchUpdateRequest, Commit, RemoteBranch, Signature, Target,
};
use virtual_branches::commit::{
    amend, cherry_pick, commit, reset_branch, CommitError, CommitStop,
};
use virtual_branches::create::{create_virtual_branch, delete_branch, update_branch};
use virtual_branches::diff::{DiffHunk, FileDiff};
use virtual_branches::files::virtual_hunks_by_filepath;
use virtual_branches::listing::{commit_to_vbranch_commit, list_virtual_branches};
use virtual_branches::merge::{
    is_remote_branch_mergeable, is_virtual_branch_mergeable, merge_virtual_branch_upstream,
};
use virtual_branches::naming::RemoteBranchName;
use virtual_branches::objects::{BranchId, Oid};
use virtual_branches::ownership::{FileOwnership, Hunk, Ownership};
use virtual_branches::protocol::{
    BranchError, Conflict, Failure, FailureKind, FileMode, FileStat, FileTimes, LinkTarget,
    MergeIndex, Reply, Request, Signatures, Stop, Tape, TreeEdit,
};
use virtual_branches::push::{push, PushError, PushStop};
use virtual_branches::session::{get_default_target, mark_all_unapplied};
use virtual_branches::status::get_status_by_branch;
use virtual_branches::tree::{write_tree, write_tree_onto_commit};

const DIFF: &str = "@@ -1,1 +1,1 @@\n-a\n+b\n";

fn oid(n: u32) -> Oid {
    Oid { high: 0, low: n }
}

fn id(n: u128) -> BranchId {
    BranchId { value: n }
}

fn target() -> Target {
    Target {
        branch: RemoteBranchName { remote: "origin".to_string(), branch: "master".to_string() },
        sha: oid(1),
    }
}

fn branch(n: u128, applied: bool) -> Branch {
    Branch {
        id: id(n),
        name: format!("branch {}", n),
        notes: String::new(),
        applied,
        upstream: None,
        upstream_head: None,
        created_timestamp_ms: 0,
        updated_timestamp_ms: 0,
        tree: oid(20),
        head: oid(30),
        ownership: Ownership::new(),
        order: n as usize,
    }
}

fn owned(path: &str, start: u32, end: u32) -> FileOwnership {
    FileOwnership {
        file_path: path.to_string(),
        hunks: vec![Hunk { start, end, hash: None, timestamp_ms: None }],
    }
}

fn commit_with(n: Oid, parents: Vec<Oid>) -> Commit {
    Commit {
        id: n,
        tree: Oid { high: 1, low: n.low },
        parents,
        seconds: 12,
        author: Signature { name: Some("A".to_string()), email: Some("a@b".to_string()) },
        message: Some("message".to_string()),
    }
}

fn file(path: &str, start: u32) -> FileDiff {
    FileDiff {
        path: path.to_string(),
        hunks: vec![DiffHunk::new(start, 1, DIFF.to_string(), false).unwrap()],
    }
}

fn failed(kind: FailureKind) -> Reply {
    Reply::Failed(Failure { kind, message: "failed".to_string() })
}

fn run<T>(
    operation: impl Fn(&mut Tape) -> Result<T, Stop>,
    answer: impl Fn(&Request) -> Reply,
) -> (Result<T, BranchError>, Vec<Request>) {
    let mut replies: Vec<Reply> = Vec::new();
    let mut asked: Vec<Request> = Vec::new();
    loop {
        let outcome = operation(&mut Tape::new(&replies));
        match outcome {
            Ok(value) => return (Ok(value), asked),
            Err(Stop::Fail(error)) => return (Err(error), asked),
            Err(Stop::Ask(request)) => {
                replies.push(answer(&request));
                asked.push(request);
            }
        }
    }
}

fn answer(request: &Request) -> Reply {
    match request {
        Request::IsResolving | Request::IsConflicting(_) => Reply::Flag(false),
        Request::ConflictingFiles => Reply::Paths(None),
        Request::MergeParent => Reply::MaybeOid(None),
        Request::ReadDefaultTarget => Reply::Target(target()),
        Request::StoredDefaultTarget => Reply::MaybeTarget(Some(target())),
        Request::ReadBranch(n) => Reply::Branch(branch(n.value, true)),
        Request::ListBranches => Reply::Branches(vec![branch(1, true), branch(2, true)]),
        Request::NewBranchId => Reply::Id(id(42)),
        Request::Now => Reply::Millis(1000),
        Request::FindCommit(n) | Request::FindStoreCommit(n) => Reply::Commit(commit_with(*n, vec![oid(7)])),
        Request::MergeBase(_, _) => Reply::Oid(oid(1)),
        Request::MergeTrees { .. } | Request::CherryPick { .. } => {
            Reply::Index(MergeIndex { handle: 5, conflicted: false })
        }
        Request::IndexConflicts(_) => Reply::Conflicts(vec![Conflict::Ours("a".as_bytes().to_vec())]),
        Request::WriteIndex(_) => Reply::Oid(oid(50)),
        Request::WorkdirTree => Reply::Oid(oid(51)),
        Request::CreateCommit { .. } => Reply::Oid(oid(60)),
        Request::FindReference(_) => Reply::Oid(oid(70)),
        Request::FindBranch(_) => Reply::MaybeOid(Some(oid(71))),
        Request::PeelBranch(_) => Reply::Commit(commit_with(oid(71), vec![])),
        Request::DescribeRemote { name, head } => {
            Reply::Remote(Some(RemoteBranch { name: name.clone(), sha: *head }))
        }
        Request::DiffWorkdir(_) => Reply::Diffs(vec![file("a", 1), file("b", 1)]),
        Request::DiffTrees(_, _) => Reply::Diffs(vec![file("a", 1)]),
        Request::Log { .. } => Reply::Commits(vec![commit_with(oid(30), vec![oid(7)])]),
        Request::LogIds { .. } => Reply::Oids(vec![oid(30), oid(31)]),
        Request::FileTimes { .. } => Reply::Times(FileTimes { modified: Some(99), created: None }),
        Request::PathExists(_) => Reply::Flag(true),
        Request::FileStat(_) => Reply::Stat(Some(FileStat { mode: 0o100644, is_symlink: false })),
        Request::ReadLink(_) => Reply::Link(LinkTarget { raw: vec![1], inside: None }),
        Request::HasEntry { .. } => Reply::Flag(true),
        Request::ReadBlob { .. } => Reply::Bytes("a\n".as_bytes().to_vec()),
        Request::WriteBlob(_) => Reply::Oid(oid(80)),
        Request::WriteFileBlob(_) => Reply::Oid(oid(81)),
        Request::WriteTree { .. } => Reply::Oid(oid(90)),
        Request::ListRemoteBranches => Reply::RemoteBranches(vec![
            RemoteBranchName { remote: "origin".to_string(), branch: "Branch-1".to_string() },
        ]),
        _ => Reply::Unit,
    }
}

fn written(asked: &Vec<Request>) -> Vec<Branch> {
    let mut branches = Vec::new();
    for request in asked {
        if let Request::WriteBranch(branch) = request {
            branches.push(branch.clone());
        }
    }
    branches
}

fn ends_with_integration(asked: &Vec<Request>) -> bool {
    matches!(asked.last(), Some(Request::UpdateIntegration))
}

#[test]
fn the_target_may_not_be_set() {
    let (outcome, _) = run(|tape| get_default_target(tape), answer);
    assert_eq!(outcome.unwrap().unwrap().sha, oid(1));
    let (outcome, _) = run(|tape| get_default_target(tape), |_| failed(FailureKind::NotFound));
    assert!(outcome.unwrap().is_none());
    let (outcome, _) = run(|tape| get_default_target(tape), |_| failed(FailureKind::Other));
    assert!(matches!(outcome, Err(BranchError::Outside(f)) if f.message == "failed"));
    let (outcome, _) = run(|tape| get_default_target(tape), |_| Reply::Unit);
    assert!(matches!(outcome, Err(BranchError::UnexpectedReply)));
}

#[test]
fn an_up_to_date_branch_is_applied() {
    let (outcome, asked) = run(|tape| apply_branch(tape, id(1), false), answer);
    assert!(outcome.is_ok());
    let stored = written(&asked);
    assert_eq!(stored.len(), 1);
    assert!(stored[0].applied);
    assert!(asked.iter().any(|q| matches!(q, Request::CheckoutIndex { index: 5, with_conflicts: false })));
    assert!(asked.iter().any(|q| matches!(
        q,
        Request::MergeTrees { base, ours, theirs }
            if base.low == 1 && *ours == oid(51) && *theirs == oid(20)
    )));
    assert!(ends_with_integration(&asked));
}

#[test]
fn a_branch_in_conflict_with_others_is_not_applied() {
    let (outcome, asked) = run(
        |tape| apply_branch(tape, id(1), false),
        |request| match request {
            Request::MergeTrees { .. } => Reply::Index(MergeIndex { handle: 5, conflicted: true }),
            other => answer(other),
        },
    );
    assert!(matches!(outcome, Err(BranchError::ConflictsWithApplied)));
    assert_eq!(written(&asked).len(), 0);
}

#[test]
fn a_branch_behind_the_target_gets_it_merged() {
    let (outcome, asked) = run(
        |tape| apply_branch(tape, id(1), true),
        |request| match request {
            Request::MergeBase(_, _) => Reply::Oid(oid(3)),
            other => answer(other),
        },
    );
    assert!(outcome.is_ok());
    let stored = written(&asked);
    assert_eq!(stored.len(), 2);
    assert_eq!((stored[1].head, stored[1].tree), (oid(60), oid(50)));
    assert!(stored[1].applied);
    assert!(asked.iter().any(|q| matches!(
        q,
        Request::CreateCommit { signatures: Signatures::User, message, tree, parents, signed: true }
            if message == "merge upstream" && *tree == oid(50) && *parents == vec![oid(30), oid(1)]
    )));
}

#[test]
fn conflicts_with_the_target_are_checked_out() {
    let (outcome, asked) = run(
        |tape| apply_branch(tape, id(3), false),
        |request| match request {
            Request::MergeBase(_, _) => Reply::Oid(oid(3)),
            Request::MergeTrees { base, .. } if base.low == 3 => {
                Reply::Index(MergeIndex { handle: 6, conflicted: true })
            }
            Request::ListBranches => Reply::Branches(vec![branch(1, true)]),
            other => answer(other),
        },
    );
    assert!(outcome.is_ok());
    let stored = written(&asked);
    assert!(stored.iter().any(|b| b.id == id(1) && !b.applied && b.tree == oid(90)));
    assert!(stored.last().unwrap().applied);
    assert_eq!(stored.last().unwrap().id, id(3));
    assert!(matches!(
        asked.last(),
        Some(Request::MarkConflicts { paths, parent })
            if *paths == vec!["a".to_string()] && *parent == oid(1)
    ));
}

#[test]
fn nothing_is_applied_without_a_target() {
    let no_target = |request: &Request| match request {
        Request::ReadDefaultTarget => failed(FailureKind::NotFound),
        other => answer(other),
    };
    let (outcome, asked) = run(|tape| apply_branch(tape, id(1), false), no_target);
    assert!(outcome.is_ok());
    assert_eq!(asked.len(), 3);
    let (outcome, asked) = run(|tape| unapply_ownership(tape, &Ownership::new()), no_target);
    assert!(outcome.is_ok());
    assert_eq!(asked.len(), 3);
    let (outcome, _) = run(|tape| list_virtual_branches(tape), no_target);
    assert_eq!(outcome.unwrap().len(), 0);
    let (outcome, _) = run(|tape| get_status_by_branch(tape), no_target);
    assert_eq!(outcome.unwrap().len(), 0);
    let (outcome, asked) = run(|tape| flush_applied_vbranches(tape), no_target);
    assert!(outcome.is_ok());
    assert_eq!(written(&asked).len(), 0);
}

#[test]
fn conflicts_stop_what_would_touch_the_files() {
    let conflicted = |request: &Request| match request {
        Request::IsResolving | Request::IsConflicting(None) => Reply::Flag(true),
        other => answer(other),
    };
    let (outcome, asked) = run(|tape| apply_branch(tape, id(1), false), conflicted);
    assert!(matches!(outcome, Err(BranchError::ApplyWhileConflicted)));
    assert_eq!(asked.len(), 1);
    let (outcome, _) = run(|tape| unapply_branch(tape, id(1)), conflicted);
    assert!(matches!(outcome, Err(BranchError::UnapplyWhileConflicted)));
    let (outcome, _) = run(|tape| unapply_ownership(tape, &Ownership::new()), conflicted);
    assert!(matches!(outcome, Err(BranchError::UnapplyWhileConflicted)));
    let (outcome, _) = run(|tape| merge_virtual_branch_upstream(tape, id(1), false), conflicted);
    assert!(matches!(outcome, Err(BranchError::MergeWhileConflicted)));
    let (outcome, _) = run(|tape| amend(tape, id(1), &Ownership::new(), false), conflicted);
    assert!(matches!(outcome, Err(BranchError::AmendWhileConflicted)));
    let (outcome, _) = run(|tape| cherry_pick(tape, id(1), oid(9)), conflicted);
    assert!(matches!(outcome, Err(BranchError::CherryPickWhileConflicted)));
}

#[test]
fn unapplying_keeps_the_hunks_as_a_tree() {
    let (outcome, asked) = run(|tape| unapply_branch(tape, id(1)), answer);
    assert!(outcome.is_ok());
    let stored = written(&asked);
    let last = stored.last().unwrap();
    assert_eq!(last.id, id(1));
    assert!(!last.applied);
    assert_eq!(last.tree, oid(90));
    assert!(asked.iter().any(|q| matches!(q, Request::CheckoutTree { tree, remove_untracked: true } if *tree == oid(50))));
    assert!(ends_with_integration(&asked));
}

#[test]
fn only_an_applied_branch_is_unapplied() {
    let (outcome, _) = run(
        |tape| unapply_branch(tape, id(1)),
        |request| match request {
            Request::ReadBranch(_) => Reply::Branch(branch(1, false)),
            other => answer(other),
        },
    );
    assert!(matches!(outcome, Err(BranchError::NotApplied)));
}

#[test]
fn unapplied_ownership_leaves_the_branches() {
    let claim = Ownership { files: vec![owned("a", 1, 2)] };
    let (outcome, asked) = run(|tape| unapply_ownership(tape, &claim), answer);
    assert!(outcome.is_ok());
    let stored = written(&asked);
    assert_eq!(stored.len(), 3);
    assert_eq!(stored[2].id, id(1));
    assert_eq!(stored[2].ownership.files.len(), 1);
    assert_eq!(stored[2].ownership.files[0].file_path, "b");
    let trees: Vec<usize> = asked
        .iter()
        .filter_map(|q| match q {
            Request::WriteTree { edits, .. } => Some(edits.len()),
            _ => None,
        })
        .collect();
    assert_eq!(trees, vec![1, 0]);
}

#[test]
fn applied_branches_are_flushed() {
    let (outcome, asked) = run(|tape| flush_applied_vbranches(tape), answer);
    assert!(outcome.is_ok());
    let stored = written(&asked);
    assert_eq!(stored.len(), 4);
    assert!(stored[2].tree == oid(90) && stored[3].tree == oid(90));
    assert!(ends_with_integration(&asked));
}

#[test]
fn a_second_flush_stores_the_same_trees() {
    let (_, asked) = run(|tape| flush_applied_vbranches(tape), answer);
    let first = written(&asked);
    let flushed = vec![first[2].clone(), first[3].clone()];
    let (outcome, asked) = run(
        |tape| flush_applied_vbranches(tape),
        |request| match request {
            Request::ListBranches => Reply::Branches(flushed.clone()),
            other => answer(other),
        },
    );
    assert!(outcome.is_ok());
    let second = written(&asked);
    assert_eq!(format!("{:?}", &second[2..]), format!("{:?}", flushed));
}

#[test]
fn what_is_unapplied_is_applied_again() {
    let (outcome, asked) = run(|tape| unapply_branch(tape, id(1)), answer);
    assert!(outcome.is_ok());
    let stored = written(&asked);
    let unapplied = stored[2].clone();
    assert!(!unapplied.applied && unapplied.tree == oid(90));
    let (outcome, asked) = run(
        |tape| apply_branch(tape, id(1), false),
        |request| match request {
            Request::ReadBranch(_) => Reply::Branch(unapplied.clone()),
            other => answer(other),
        },
    );
    assert!(outcome.is_ok());
    let applied = written(&asked)[0].clone();
    assert!(applied.applied && applied.tree == oid(90) && applied.head == branch(1, true).head);
    assert!(asked
        .iter()
        .any(|q| matches!(q, Request::MergeTrees { theirs, .. } if *theirs == oid(90))));
}

#[test]
fn all_branches_are_marked_as_unapplied() {
    let (outcome, asked) = run(
        |tape| mark_all_unapplied(tape),
        |request| match request {
            Request::ListBranches => Reply::Branches(vec![branch(1, true), branch(2, false)]),
            other => answer(other),
        },
    );
    assert!(outcome.is_ok());
    let stored = written(&asked);
    assert_eq!(stored.len(), 1);
    assert_eq!(stored[0].id, id(1));
    assert!(!stored[0].applied);
    assert_eq!(stored[0].name, "branch 1");
}

#[test]
fn a_new_branch_stands_where_it_is_asked_for() {
    let create = BranchCreateRequest {
        name: Some("branch 1".to_string()),
        ownership: Some(Ownership { files: vec![owned("a", 1, 2)] }),
        order: Some(0),
    };
    let (outcome, asked) = run(
        |tape| create_virtual_branch(tape, &create),
        |request| match request {
            Request::ListBranches => {
                let mut other = branch(1, true);
                other.ownership = Ownership { files: vec![owned("a", 1, 2), owned("b", 1, 2)] };
                Reply::Branches(vec![branch(2, true), other])
            }
            other => answer(other),
        },
    );
    let made = outcome.unwrap();
    assert_eq!(made.id, id(42));
    assert_eq!(made.name, "branch 1 1");
    assert_eq!(made.order, 0);
    assert_eq!(made.head, oid(1));
    assert_eq!(made.tree, Oid { high: 1, low: 1 });
    assert_eq!(made.created_timestamp_ms, 1000);
    assert!(made.applied);
    let stored = written(&asked);
    assert_eq!(stored.len(), 2);
    assert_eq!(stored[0].id, id(1));
    assert_eq!(stored[0].ownership.files.len(), 1);
    assert_eq!(stored[0].ownership.files[0].file_path, "b");
    assert_eq!(stored[1].id, id(42));
    assert!(matches!(asked.last(), Some(Request::AddBranchReference(b)) if b.id == id(42)));
}

#[test]
fn the_others_make_room() {
    let create = BranchCreateRequest { name: None, ownership: None, order: Some(1) };
    let (outcome, asked) = run(
        |tape| create_virtual_branch(tape, &create),
        |request| match request {
            Request::ListBranches => {
                let mut first = branch(1, true);
                first.order = 0;
                let mut second = branch(2, true);
                second.order = 1;
                Reply::Branches(vec![second, first])
            }
            other => answer(other),
        },
    );
    assert_eq!(outcome.unwrap().order, 1);
    let stored = written(&asked);
    assert_eq!(stored[0].id, id(2));
    assert_eq!(stored[0].order, 2);
    assert_eq!(stored.len(), 2);
}

#[test]
fn the_others_make_room_and_give_up_what_is_asked_for() {
    let create = BranchCreateRequest {
        name: None,
        ownership: Some(Ownership { files: vec![owned("a", 1, 2)] }),
        order: Some(1),
    };
    let (first, second) = (
        Branch { order: 0, ownership: Ownership { files: vec![owned("a", 1, 2)] }, ..branch(1, true) },
        Branch { order: 1, ownership: Ownership { files: vec![owned("b", 1, 2)] }, ..branch(2, true) },
    );
    let (outcome, asked) = run(
        |tape| create_virtual_branch(tape, &create),
        |request| match request {
            Request::ListBranches => Reply::Branches(vec![second.clone(), first.clone()]),
            other => answer(other),
        },
    );
    assert_eq!(outcome.unwrap().order, 1);
    let stored = written(&asked);
    let places: Vec<(BranchId, usize)> = stored.iter().map(|b| (b.id, b.order)).collect();
    assert_eq!(places, vec![(id(2), 2), (id(1), 0), (id(42), 1)]);
    assert_eq!(stored[0].ownership.files[0].file_path, "b");
    assert!(stored[1].ownership.files.is_empty());
    assert_eq!(stored[2].ownership.files[0].file_path, "a");
}

#[test]
fn a_place_past_the_end_is_the_end() {
    let create = BranchCreateRequest { name: None, ownership: None, order: Some(99) };
    let (outcome, _) = run(|tape| create_virtual_branch(tape, &create), answer);
    let made = outcome.unwrap();
    assert_eq!(made.order, 2);
    assert_eq!(made.name, "Virtual branch");
}

#[test]
fn a_branch_is_changed_as_asked() {
    let update = BranchUpdateRequest {
        id: id(1),
        name: Some("new name".to_string()),
        notes: Some("notes".to_string()),
        ownership: Some(Ownership { files: vec![owned("a", 1, 2)] }),
        order: Some(7),
        upstream: Some("Some Upstream!".to_string()),
    };
    let (outcome, asked) = run(|tape| update_branch(tape, &update), answer);
    let changed = outcome.unwrap();
    assert_eq!(changed.name, "new name");
    assert_eq!(changed.notes, "notes");
    assert_eq!(changed.order, 7);
    assert_eq!(changed.ownership.files.len(), 1);
    assert_eq!(changed.upstream.unwrap().refname(), "refs/remotes/origin/some-upstream");
    assert!(asked.iter().any(|q| matches!(q, Request::DeleteBranchReference(b) if b.name == "branch 1")));
    assert!(asked.iter().any(|q| matches!(q, Request::AddBranchReference(b) if b.name == "new name")));
    assert!(matches!(asked.last(), Some(Request::WriteBranch(b)) if b.name == "new name"));
}

#[test]
fn what_an_update_leaves_out_stays() {
    let update = BranchUpdateRequest {
        id: id(1),
        name: None,
        notes: None,
        ownership: None,
        order: None,
        upstream: None,
    };
    let (outcome, asked) = run(|tape| update_branch(tape, &update), answer);
    assert_eq!(format!("{:?}", outcome.unwrap()), format!("{:?}", branch(1, true)));
    assert_eq!(asked.len(), 3);
}

#[test]
fn an_upstream_needs_a_remote() {
    let update = BranchUpdateRequest {
        id: id(1),
        name: None,
        notes: None,
        ownership: None,
        order: None,
        upstream: Some("x".to_string()),
    };
    let (outcome, _) = run(
        |tape| update_branch(tape, &update),
        |request| match request {
            Request::ReadDefaultTarget => failed(FailureKind::NotFound),
            other => answer(other),
        },
    );
    assert!(matches!(outcome, Err(BranchError::NoRemote)));
}

#[test]
fn a_branch_is_deleted() {
    let (outcome, asked) = run(|tape| delete_branch(tape, id(4)), answer);
    assert_eq!(outcome.unwrap().id, id(4));
    assert!(matches!(&asked[2], Request::DeleteBranch(b) if b.id == id(4)));
    assert!(matches!(&asked[3], Request::DeleteBranchReference(b) if b.id == id(4)));
    assert_eq!(asked.len(), 4);
}

fn with_upstream(request: &Request) -> Reply {
    match request {
        Request::ReadBranch(n) => {
            let mut found = branch(n.value, true);
            found.upstream =
                Some(RemoteBranchName { remote: "origin".to_string(), branch: "up".to_string() });
            Reply::Branch(found)
        }
        other => answer(other),
    }
}

#[test]
fn upstream_is_merged() {
    let (outcome, asked) =
        run(|tape| merge_virtual_branch_upstream(tape, id(1), false), with_upstream);
    assert!(outcome.is_ok());
    assert!(asked.iter().any(|q| matches!(q, Request::FindReference(name) if name == "refs/remotes/origin/up")));
    assert!(asked.iter().any(|q| matches!(q, Request::ReadBranch(n) if *n == id(2))));
    assert!(asked.iter().any(|q| matches!(
        q,
        Request::CreateCommit { message, parents, .. }
            if message == "merged from upstream" && *parents == vec![oid(30), oid(70)]
    )));
    let last = written(&asked).last().unwrap().clone();
    assert_eq!((last.head, last.tree), (oid(60), oid(50)));
    assert!(asked.iter().any(|q| matches!(q, Request::CheckoutTree { remove_untracked: false, .. })));
    assert!(ends_with_integration(&asked));
}

#[test]
fn upstream_conflicts_are_checked_out() {
    let (outcome, asked) = run(
        |tape| merge_virtual_branch_upstream(tape, id(1), false),
        |request| match request {
            Request::ListBranches => Reply::Branches(vec![branch(1, true)]),
            Request::MergeTrees { .. } => Reply::Index(MergeIndex { handle: 5, conflicted: true }),
            other => with_upstream(other),
        },
    );
    assert!(outcome.is_ok());
    assert!(asked.iter().any(|q| matches!(q, Request::MarkConflicts { parent, .. } if *parent == oid(70))));
    assert_eq!(written(&asked).len(), 0);
    assert!(ends_with_integration(&asked));
}

#[test]
fn there_may_be_nothing_to_merge() {
    let (outcome, _) = run(|tape| merge_virtual_branch_upstream(tape, id(1), false), answer);
    assert!(matches!(outcome, Err(BranchError::NoUpstream)));
    let (outcome, asked) = run(
        |tape| merge_virtual_branch_upstream(tape, id(1), false),
        |request| match request {
            Request::FindReference(_) => failed(FailureKind::Other),
            other => with_upstream(other),
        },
    );
    assert!(outcome.is_ok());
    assert_eq!(asked.len(), 4);
    let (outcome, asked) = run(
        |tape| merge_virtual_branch_upstream(tape, id(1), false),
        |request| match request {
            Request::FindReference(_) => Reply::Oid(oid(30)),
            other => with_upstream(other),
        },
    );
    assert!(outcome.is_ok());
    assert_eq!(asked.len(), 5);
}

fn run_commit(
    ownership: Option<&Ownership>,
    answer: impl Fn(&Request) -> Reply,
) -> (Result<Oid, CommitError>, Vec<Request>) {
    let mut replies: Vec<Reply> = Vec::new();
    let mut asked: Vec<Request> = Vec::new();
    loop {
        let outcome = commit(&mut Tape::new(&replies), id(1), "a message", ownership, false);
        match outcome {
            Ok(value) => return (Ok(value), asked),
            Err(CommitStop::Fail(error)) => return (Err(error), asked),
            Err(CommitStop::Ask(request)) => {
                replies.push(answer(&request));
                asked.push(request);
            }
        }
    }
}

#[test]
fn a_commit_moves_the_head() {
    let (outcome, asked) = run_commit(None, answer);
    assert_eq!(outcome.unwrap(), oid(60));
    let last = written(&asked).last().unwrap().clone();
    assert_eq!((last.id, last.head, last.tree), (id(1), oid(60), oid(90)));
    assert!(asked.iter().any(|q| matches!(
        q,
        Request::CreateCommit { signatures: Signatures::User, message, tree, parents, signed: false }
            if message == "a message" && *tree == oid(90) && *parents == vec![oid(30)]
    )));
    assert!(ends_with_integration(&asked));
}

#[test]
fn a_merge_under_way_becomes_a_parent() {
    let (outcome, asked) = run_commit(None, |request| match request {
        Request::MergeParent => Reply::MaybeOid(Some(oid(33))),
        other => answer(other),
    });
    assert!(outcome.is_ok());
    assert!(asked.iter().any(|q| matches!(q, Request::CreateCommit { parents, .. } if *parents == vec![oid(30), oid(33)])));
    assert!(asked.iter().any(|q| matches!(q, Request::ClearConflicts)));
}

#[test]
fn only_what_is_asked_for_is_committed() {
    let nothing = Ownership { files: vec![owned("a", 5, 6)] };
    let (outcome, asked) = run_commit(Some(&nothing), answer);
    assert!(outcome.is_ok());
    assert!(matches!(
        asked.iter().rev().find(|q| matches!(q, Request::WriteTree { .. })),
        Some(Request::WriteTree { edits, .. }) if edits.len() == 0
    ));
    let something = Ownership { files: vec![owned("a", 1, 2)] };
    let (outcome, asked) = run_commit(Some(&something), answer);
    assert!(outcome.is_ok());
    assert!(matches!(
        asked.iter().rev().find(|q| matches!(q, Request::WriteTree { .. })),
        Some(Request::WriteTree { edits, .. }) if edits.len() == 1
    ));
}

#[test]
fn commits_are_refused() {
    let (outcome, asked) = run_commit(None, |request| match request {
        Request::IsConflicting(None) => Reply::Flag(true),
        other => answer(other),
    });
    assert!(matches!(outcome, Err(CommitError::Conflicted)));
    assert!(!asked.iter().any(|q| matches!(q, Request::CreateCommit { .. })));
    let (outcome, _) = run_commit(None, |request| match request {
        Request::StoredDefaultTarget => Reply::MaybeTarget(None),
        other => answer(other),
    });
    assert!(matches!(outcome, Err(CommitError::Other(BranchError::NoDefaultTarget))));
    let (outcome, _) = run_commit(None, |request| match request {
        Request::ListBranches => Reply::Branches(vec![branch(2, true)]),
        other => answer(other),
    });
    assert!(matches!(outcome, Err(CommitError::Other(BranchError::BranchNotFound(n))) if n == id(1)));
}

#[test]
fn resolved_conflicts_are_noted() {
    let marked = "@@ -1,1 +1,1 @@\n-a\n+<<<<<<< ours\n";
    let diff = move |request: &Request| match request {
        Request::ConflictingFiles => Reply::Paths(Some(vec!["a".to_string(), "m".to_string()])),
        Request::DiffTrees(_, _) => Reply::Diffs(vec![
            file("a", 1),
            FileDiff {
                path: "m".to_string(),
                hunks: vec![DiffHunk::new(1, 1, marked.to_string(), false).unwrap()],
            },
            file("other", 1),
        ]),
        other => answer(other),
    };
    let (_, asked) = run_commit(None, |request| match request {
        Request::IsConflicting(None) => Reply::Flag(true),
        other => diff(other),
    });
    let resolved: Vec<&Request> =
        asked.iter().filter(|q| matches!(q, Request::ResolveConflict(_))).collect();
    assert_eq!(resolved.len(), 1);
    assert!(matches!(resolved[0], Request::ResolveConflict(path) if path == "a"));
}

#[test]
fn the_head_is_amended() {
    let wanted = Ownership { files: vec![owned("a", 1, 2)] };
    let (outcome, asked) = run(|tape| amend(tape, id(1), &wanted, true), answer);
    assert_eq!(outcome.unwrap(), oid(60));
    assert!(asked.iter().any(|q| matches!(
        q,
        Request::CreateCommit { signatures: Signatures::Of(of), message, parents, signed: true, .. }
            if *of == oid(30) && message == "message" && *parents == vec![oid(7)]
    )));
    let last = written(&asked).last().unwrap().clone();
    assert_eq!(last.head, oid(60));
    assert_eq!(last.tree, oid(20));
    assert!(ends_with_integration(&asked));
}

#[test]
fn amending_is_refused() {
    let wanted = Ownership { files: vec![owned("a", 1, 2)] };
    let attempt = |answer: &dyn Fn(&Request) -> Reply| {
        run(|tape| amend(tape, id(1), &wanted, false), |request| answer(request)).0
    };
    let outcome = attempt(&|request| match request {
        Request::ListBranches => Reply::Branches(vec![branch(2, true)]),
        other => answer(other),
    });
    assert!(matches!(outcome, Err(BranchError::BranchNotFound(n)) if n == id(1)));
    let outcome = attempt(&|request| match request {
        Request::ListBranches => Reply::Branches(vec![branch(1, false)]),
        other => answer(other),
    });
    assert!(matches!(outcome, Err(BranchError::NotApplied)));
    let outcome = attempt(&|request| match request {
        Request::DiffWorkdir(_) => Reply::Diffs(vec![]),
        other => answer(other),
    });
    assert!(matches!(outcome, Err(BranchError::OwnershipNotFound)));
    let outcome = attempt(&|request| match request {
        Request::LogIds { .. } => Reply::Oids(vec![]),
        other => answer(other),
    });
    assert!(matches!(outcome, Err(BranchError::NoCommits)));
    let outcome = attempt(&|request| match request {
        Request::ReadDefaultTarget => failed(FailureKind::NotFound),
        other => answer(other),
    });
    assert!(matches!(outcome, Err(BranchError::NoDefaultTarget)));
}

#[test]
fn a_commit_is_picked() {
    let (outcome, asked) = run(|tape| cherry_pick(tape, id(1), oid(9)), answer);
    assert_eq!(outcome.unwrap(), Some(oid(60)));
    assert!(asked.iter().any(|q| matches!(
        q,
        Request::CreateCommit { signatures: Signatures::Program, message, tree, parents, .. }
            if message == "wip cherry picking commit" && *tree == oid(90) && *parents == vec![oid(30)]
    )));
    assert!(asked.iter().any(|q| matches!(q, Request::CherryPick { onto, commit } if *onto == oid(60) && *commit == oid(9))));
    assert!(asked.iter().any(|q| matches!(
        q,
        Request::CreateCommit { signatures: Signatures::Of(of), message, tree, .. }
            if *of == oid(9) && message == "message" && *tree == oid(50)
    )));
    assert!(asked.iter().any(|q| matches!(q, Request::ReadBranch(n) if *n == id(2))));
    assert_eq!(written(&asked).last().unwrap().head, oid(60));
    assert!(ends_with_integration(&asked));
}

#[test]
fn a_pick_with_conflicts_is_checked_out() {
    let (outcome, asked) = run(
        |tape| cherry_pick(tape, id(1), oid(9)),
        |request| match request {
            Request::ListBranches => Reply::Branches(vec![branch(1, true)]),
            Request::CherryPick { .. } => Reply::Index(MergeIndex { handle: 8, conflicted: true }),
            other => answer(other),
        },
    );
    assert_eq!(outcome.unwrap(), None);
    assert!(asked.iter().any(|q| matches!(q, Request::CheckoutIndex { index: 8, with_conflicts: true })));
    assert!(asked.iter().any(|q| matches!(q, Request::MarkConflicts { parent, .. } if *parent == oid(30))));
    assert!(ends_with_integration(&asked));
}

#[test]
fn picking_is_refused() {
    let (outcome, _) = run(
        |tape| cherry_pick(tape, id(1), oid(9)),
        |request| match request {
            Request::ReadBranch(_) => Reply::Branch(branch(1, false)),
            other => answer(other),
        },
    );
    assert!(matches!(outcome, Err(BranchError::CherryPickUnapplied)));
    let (outcome, _) = run(
        |tape| cherry_pick(tape, id(1), oid(9)),
        |request| match request {
            Request::ListBranches => Reply::Branches(vec![branch(2, true)]),
            other => answer(other),
        },
    );
    assert!(matches!(outcome, Err(BranchError::BranchNotFound(n)) if n == id(1)));
    let (outcome, _) = run(
        |tape| cherry_pick(tape, id(1), oid(9)),
        |request| match request {
            Request::CherryPick { .. } => Reply::Index(MergeIndex { handle: 8, conflicted: true }),
            Request::IndexConflicts(_) => Reply::Conflicts(vec![Conflict::Ours(vec![0xff])]),
            other => answer(other),
        },
    );
    assert!(matches!(outcome, Err(BranchError::PathNotUtf8)));
}

#[test]
fn a_branch_is_reset_to_a_commit_of_its_own() {
    let (outcome, asked) = run(|tape| reset_branch(tape, id(1), oid(31)), answer);
    assert!(outcome.is_ok());
    assert_eq!(written(&asked)[0].head, oid(31));
    assert!(ends_with_integration(&asked));
    let (outcome, asked) = run(|tape| reset_branch(tape, id(1), oid(1)), answer);
    assert!(outcome.is_ok());
    assert_eq!(written(&asked)[0].head, oid(1));
    let (outcome, asked) = run(|tape| reset_branch(tape, id(1), oid(30)), answer);
    assert!(outcome.is_ok());
    assert_eq!(asked.len(), 3);
    let (outcome, _) = run(|tape| reset_branch(tape, id(1), oid(99)), answer);
    assert!(matches!(
        outcome,
        Err(BranchError::CommitNotInBranch { commit, branch }) if commit == oid(99) && branch == "branch 1"
    ));
}

fn run_push(answer: impl Fn(&Request) -> Reply) -> (Result<(), PushError>, Vec<Request>) {
    let mut replies: Vec<Reply> = Vec::new();
    let mut asked: Vec<Request> = Vec::new();
    loop {
        let outcome = push(&mut Tape::new(&replies), id(1), true);
        match outcome {
            Ok(()) => return (Ok(()), asked),
            Err(PushStop::Fail(error)) => return (Err(error), asked),
            Err(PushStop::Ask(request)) => {
                replies.push(answer(&request));
                asked.push(request);
            }
        }
    }
}

#[test]
fn a_branch_is_pushed_under_a_free_name() {
    let (outcome, asked) = run_push(answer);
    assert!(outcome.is_ok());
    assert!(asked.iter().any(|q| matches!(
        q,
        Request::Push { head, branch, force: true }
            if *head == oid(30) && branch.refname() == "refs/remotes/origin/branch-1-1"
    )));
    let stored = written(&asked);
    assert_eq!(stored[0].upstream_head, Some(oid(30)));
    assert_eq!(stored[0].upstream.as_ref().unwrap().branch, "branch-1-1");
    assert!(matches!(asked.last(), Some(Request::Fetch(remote)) if remote == "origin"));
}

#[test]
fn a_branch_is_pushed_to_its_upstream() {
    let (outcome, asked) = run_push(with_upstream);
    assert!(outcome.is_ok());
    assert!(asked.iter().any(|q| matches!(q, Request::Push { branch, .. } if branch.branch == "up")));
    assert_eq!(asked.len(), 5);
}

#[test]
fn pushing_fails() {
    let (outcome, asked) = run_push(|request| match request {
        Request::Push { .. } => failed(FailureKind::Other),
        other => answer(other),
    });
    assert!(matches!(outcome, Err(PushError::Remote(f)) if f.message == "failed"));
    assert_eq!(written(&asked).len(), 0);
    let (outcome, asked) = run_push(|request| match request {
        Request::Fetch(_) => failed(FailureKind::Other),
        other => answer(other),
    });
    assert!(matches!(outcome, Err(PushError::Remote(_))));
    assert_eq!(written(&asked).len(), 1);
    let (outcome, _) = run_push(|request| match request {
        Request::ReadDefaultTarget => failed(FailureKind::NotFound),
        other => answer(other),
    });
    assert!(matches!(outcome, Err(PushError::Other(BranchError::NoDefaultTarget))));
}

#[test]
fn branches_are_listed_in_order() {
    let (outcome, _) = run(
        |tape| list_virtual_branches(tape),
        |request| match request {
            Request::ListBranches => {
                let mut unapplied = branch(0, false);
                unapplied.head = oid(1);
                Reply::Branches(vec![branch(2, true), branch(1, true), unapplied])
            }
            other => answer(other),
        },
    );
    let shown = outcome.unwrap();
    assert_eq!(shown.len(), 3);
    assert_eq!((shown[0].order, shown[1].order, shown[2].order), (0, 1, 2));
    assert!(!shown[0].active && shown[1].active && shown[2].active);
    assert!(shown[0].base_current);
    let first = &shown[1];
    assert_eq!(first.name, "branch 1");
    assert_eq!(first.files.len(), 1);
    assert_eq!(first.files[0].id, "a");
    assert_eq!(first.files[0].modified_at, 99);
    assert!(!first.files[0].conflicted && !first.files[0].binary);
    let hunk = &first.files[0].hunks[0];
    assert_eq!(hunk.id, "1-2");
    assert_eq!(hunk.hash, "110e6dca882966284239e9fdd92226ff");
    assert_eq!((hunk.start, hunk.end), (1, 2));
    assert!(!hunk.locked);
    assert_eq!(first.commits.len(), 1);
    assert_eq!(first.commits[0].description, "message");
    assert_eq!(first.commits[0].created_at, 12000);
    assert!(!first.commits[0].is_remote);
    assert!(!first.requires_force && !first.conflicted);
    assert!(first.upstream.is_none());
    assert_eq!(first.ownership.files.len(), 2);
}

#[test]
fn hunks_that_are_partly_committed_are_locked() {
    let (outcome, _) = run(
        |tape| list_virtual_branches(tape),
        |request| match request {
            Request::ListBranches => Reply::Branches(vec![branch(1, true)]),
            Request::DiffTrees(_, _) => Reply::Diffs(vec![
                FileDiff {
                    path: "a".to_string(),
                    hunks: vec![
                        DiffHunk::new(1, 1, DIFF.to_string(), false).unwrap(),
                        DiffHunk::new(9, 1, "@@ @@\n+other".to_string(), true).unwrap(),
                    ],
                },
                FileDiff {
                    path: "unowned".to_string(),
                    hunks: vec![DiffHunk::new(1, 1, "@@ @@\n+x".to_string(), false).unwrap()],
                },
            ]),
            Request::IsConflicting(Some(path)) if path == "a" => Reply::Flag(true),
            Request::IsConflicting(Some(_)) => failed(FailureKind::Other),
            other => answer(other),
        },
    );
    let shown = outcome.unwrap();
    let files = &shown[0].files;
    assert_eq!((files[0].path.as_str(), files[1].path.as_str()), ("a", "unowned"));
    assert!(!files[0].hunks[0].locked);
    assert!(files[0].hunks[1].locked);
    assert!(files[1].hunks[0].locked);
    assert!(files[0].binary && files[0].conflicted);
    assert!(!files[1].binary && !files[1].conflicted);
}

#[test]
fn only_an_applied_branch_is_conflicted() {
    let resolving = |request: &Request| match request {
        Request::ListBranches => {
            let mut unapplied = branch(2, false);
            unapplied.head = oid(1);
            Reply::Branches(vec![branch(1, true), unapplied])
        }
        Request::IsResolving => Reply::Flag(true),
        other => answer(other),
    };
    let (outcome, _) = run(|tape| list_virtual_branches(tape), resolving);
    let shown = outcome.unwrap();
    assert!(shown[0].active && shown[0].conflicted);
    assert!(!shown[1].active && !shown[1].conflicted);
}

#[test]
fn a_committed_branch_shows_no_files() {
    let (outcome, _) = run(
        |tape| list_virtual_branches(tape),
        |request| match request {
            Request::ListBranches => Reply::Branches(vec![branch(1, true)]),
            Request::DiffTrees(_, _) => Reply::Diffs(vec![]),
            other => answer(other),
        },
    );
    let shown = outcome.unwrap();
    assert!(shown[0].files.is_empty());
    assert_eq!(shown[0].commits[0].id, oid(30));
}

#[test]
fn a_listing_after_a_commit_shows_the_commit() {
    let (outcome, asked) = run_commit(None, answer);
    let made = outcome.unwrap();
    let stored = written(&asked).pop().unwrap();
    assert_eq!((stored.id, stored.head, stored.tree), (id(1), made, oid(90)));
    let commit = Commit {
        tree: oid(90),
        message: Some("a message".to_string()),
        ..commit_with(made, vec![oid(30)])
    };
    let (outcome, _) = run(
        |tape| list_virtual_branches(tape),
        |request| match request {
            Request::ListBranches => Reply::Branches(vec![stored.clone()]),
            Request::FindCommit(n) if *n == made => Reply::Commit(commit.clone()),
            Request::DiffTrees(one, other) if one == other => Reply::Diffs(vec![]),
            Request::Log { from, .. } if *from == made => {
                Reply::Commits(vec![commit.clone(), commit_with(oid(30), vec![oid(7)])])
            }
            other => answer(other),
        },
    );
    let shown = outcome.unwrap();
    assert_eq!(shown.len(), 1);
    assert_eq!(shown[0].id, id(1));
    assert!(shown[0].files.is_empty());
    assert_eq!(shown[0].commits.len(), 2);
    assert_eq!(shown[0].commits[0].id, made);
    assert_eq!(shown[0].commits[0].description, "a message");
}

#[test]
fn upstream_is_shown() {
    let (outcome, asked) = run(
        |tape| list_virtual_branches(tape),
        |request| match request {
            Request::ListBranches => {
                let mut found = branch(1, true);
                found.upstream = Some(RemoteBranchName {
                    remote: "origin".to_string(),
                    branch: "up".to_string(),
                });
                Reply::Branches(vec![found])
            }
            other => answer(other),
        },
    );
    let shown = outcome.unwrap();
    assert_eq!(shown[0].upstream.as_ref().unwrap().name, "refs/remotes/origin/up");
    assert!(shown[0].commits[0].is_remote);
    assert!(shown[0].requires_force);
    assert!(asked.iter().any(|q| matches!(q, Request::DescribeRemote { head, .. } if *head == oid(30))));
}

#[test]
fn a_missing_upstream_is_none() {
    let (outcome, _) = run(
        |tape| list_virtual_branches(tape),
        |request| match request {
            Request::ListBranches => {
                let mut found = branch(1, true);
                found.upstream = Some(RemoteBranchName {
                    remote: "origin".to_string(),
                    branch: "up".to_string(),
                });
                Reply::Branches(vec![found])
            }
            Request::FindBranch(name) if name == "refs/remotes/origin/up" => {
                failed(FailureKind::NotFound)
            }
            Request::FindReference(_) => failed(FailureKind::NotFound),
            other => answer(other),
        },
    );
    let shown = outcome.unwrap();
    assert!(shown[0].upstream.is_none());
    assert!(!shown[0].requires_force);
}

#[test]
fn commits_are_shown_with_what_they_change() {
    let (outcome, _) = run(
        |tape| commit_to_vbranch_commit(tape, &target(), &commit_with(oid(5), vec![oid(4)]), None),
        answer,
    );
    let shown = outcome.unwrap();
    assert_eq!(shown.files.len(), 1);
    assert!(shown.is_remote);
    assert_eq!(shown.author.name, "A");
    let (outcome, _) = run(
        |tape| commit_to_vbranch_commit(tape, &target(), &commit_with(oid(5), vec![]), Some(&vec![])),
        answer,
    );
    let shown = outcome.unwrap();
    assert_eq!(shown.files.len(), 0);
    assert!(!shown.is_remote);
}

#[test]
fn odd_commits_are_not_shown() {
    let mut old = commit_with(oid(5), vec![]);
    old.seconds = -1;
    let (outcome, _) = run(|tape| commit_to_vbranch_commit(tape, &target(), &old, None), answer);
    assert!(matches!(outcome, Err(BranchError::TimeBefore1970)));
    let mut silent = commit_with(oid(5), vec![]);
    silent.message = None;
    let (outcome, _) = run(|tape| commit_to_vbranch_commit(tape, &target(), &silent, None), answer);
    assert!(matches!(outcome, Err(BranchError::MessageNotUtf8)));
}

#[test]
fn integrated_commits_are_told_apart() {
    let shown = |n: u32, answer: &dyn Fn(&Request) -> Reply| {
        run(
            |tape| commit_to_vbranch_commit(tape, &target(), &commit_with(oid(n), vec![]), None),
            |request| answer(request),
        )
        .0
        .unwrap()
        .is_integrated
    };
    assert!(shown(31, &answer));
    assert!(!shown(1, &answer));
    assert!(!shown(5, &|request| match request {
        Request::LogIds { .. } => Reply::Oids(vec![]),
        other => answer(other),
    }));
    assert!(shown(5, &|request| match request {
        Request::MergeBase(_, _) => Reply::Oid(oid(5)),
        other => answer(other),
    }));
    assert!(shown(5, &|request| match request {
        Request::WriteIndex(_) => Reply::Oid(Oid { high: 1, low: 71 }),
        other => answer(other),
    }));
    assert!(!shown(5, &answer));
    assert!(!shown(5, &|request| match request {
        Request::MergeTrees { .. } => Reply::Index(MergeIndex { handle: 1, conflicted: true }),
        other => answer(other),
    }));
}

#[test]
fn mergeable_branches_merge_without_conflicts() {
    let conflicted = |request: &Request| match request {
        Request::MergeTrees { .. } => Reply::Index(MergeIndex { handle: 1, conflicted: true }),
        other => answer(other),
    };
    let name = "refs/remotes/origin/x".to_string();
    assert!(run(|tape| is_remote_branch_mergeable(tape, &name), answer).0.unwrap());
    assert!(!run(|tape| is_remote_branch_mergeable(tape, &name), conflicted).0.unwrap());
    let (outcome, _) = run(
        |tape| is_remote_branch_mergeable(tape, &name),
        |request| match request {
            Request::FindBranch(_) => Reply::MaybeOid(None),
            other => answer(other),
        },
    );
    assert!(matches!(outcome, Err(BranchError::DetachedHead)));
    assert!(run(|tape| is_virtual_branch_mergeable(tape, id(1)), conflicted).0.unwrap());
    let unapplied = |request: &Request| match request {
        Request::ReadBranch(_) => Reply::Branch(branch(1, false)),
        other => answer(other),
    };
    assert!(run(|tape| is_virtual_branch_mergeable(tape, id(1)), unapplied).0.unwrap());
    assert!(run(|tape| apply_branch(tape, id(1), false), unapplied).0.is_ok());
    let torn = |request: &Request| match request {
        Request::ReadBranch(_) => Reply::Branch(branch(1, false)),
        other => conflicted(other),
    };
    assert!(!run(|tape| is_virtual_branch_mergeable(tape, id(1)), torn).0.unwrap());
    let (outcome, asked) = run(|tape| apply_branch(tape, id(1), false), torn);
    assert!(matches!(outcome, Err(BranchError::ConflictsWithApplied)));
    assert!(written(&asked).is_empty());
    let behind = |request: &Request| match request {
        Request::MergeBase(_, _) => Reply::Oid(oid(3)),
        other => unapplied(other),
    };
    assert!(!run(|tape| is_virtual_branch_mergeable(tape, id(1)), behind).0.unwrap());
}

fn edits_of(asked: &Vec<Request>) -> String {
    match asked.last() {
        Some(Request::WriteTree { edits, .. }) => format!("{:?}", edits),
        other => format!("{:?}", other),
    }
}

#[test]
fn a_tree_gets_the_changed_content() {
    let files = vec![file("a", 1)];
    let (outcome, asked) = run(|tape| write_tree(tape, &target(), &files), answer);
    assert_eq!(outcome.unwrap(), oid(90));
    assert!(asked.iter().any(|q| matches!(q, Request::WriteBlob(bytes) if bytes.as_slice() == b"b\n")));
    let expected = vec![TreeEdit::Upsert { path: "a".to_string(), blob: oid(80), mode: FileMode::Blob }];
    assert_eq!(edits_of(&asked), format!("{:?}", expected));
}

#[test]
fn the_order_of_hunks_and_files_does_not_matter() {
    let first = DiffHunk::new(1, 1, DIFF.to_string(), false).unwrap();
    let second = DiffHunk::new(2, 1, "@@ -2,1 +2,1 @@\n-c\n+d\n".to_string(), false).unwrap();
    let hunks = vec![first.clone(), second.clone()];
    let turned = vec![second, first];
    let content = |request: &Request| match request {
        Request::ReadBlob { .. } => Reply::Bytes("a\nc\n".as_bytes().to_vec()),
        other => answer(other),
    };
    let one = vec![FileDiff { path: "a".to_string(), hunks }];
    let other = vec![FileDiff { path: "a".to_string(), hunks: turned }];
    let (_, asked) = run(|tape| write_tree_onto_commit(tape, oid(1), &one), content);
    let (_, asked_of_other) = run(|tape| write_tree_onto_commit(tape, oid(1), &other), content);
    assert!(asked.iter().any(|q| matches!(q, Request::WriteBlob(c) if c.as_slice() == b"b\nd\n")));
    assert_eq!(format!("{:?}", asked), format!("{:?}", asked_of_other));

    let one = vec![file("a", 1), file("b", 1)];
    let other = vec![file("b", 1), file("a", 1)];
    let (_, asked) = run(|tape| write_tree_onto_commit(tape, oid(1), &one), answer);
    let (_, asked_of_other) = run(|tape| write_tree_onto_commit(tape, oid(1), &other), answer);
    let edit = |path: &str| TreeEdit::Upsert {
        path: path.to_string(),
        blob: oid(80),
        mode: FileMode::Blob,
    };
    assert_eq!(edits_of(&asked), format!("{:?}", vec![edit("a"), edit("b")]));
    assert_eq!(edits_of(&asked_of_other), format!("{:?}", vec![edit("b"), edit("a")]));
}

#[test]
fn a_tree_gets_links_as_they_are() {
    let files = vec![file("a", 1)];
    let link = |request: &Request| match request {
        Request::FileStat(_) => Reply::Stat(Some(FileStat { mode: 0o120777, is_symlink: true })),
        other => answer(other),
    };
    let (_, asked) = run(|tape| write_tree_onto_commit(tape, oid(4), &files), link);
    assert!(asked.iter().any(|q| matches!(q, Request::WriteBlob(bytes) if *bytes == vec![1])));
    let expected = vec![TreeEdit::Upsert { path: "a".to_string(), blob: oid(80), mode: FileMode::Link }];
    assert_eq!(edits_of(&asked), format!("{:?}", expected));
    let (_, asked) = run(
        |tape| write_tree_onto_commit(tape, oid(4), &files),
        |request| match request {
            Request::ReadLink(_) => Reply::Link(LinkTarget { raw: vec![1], inside: Some(vec![2]) }),
            other => link(other),
        },
    );
    assert!(asked.iter().any(|q| matches!(q, Request::WriteBlob(bytes) if *bytes == vec![2])));
}

#[test]
fn a_tree_gets_new_files_and_loses_old_ones() {
    let files = vec![file("a", 1), file("b", 1), file("c", 1)];
    let (_, asked) = run(
        |tape| write_tree_onto_commit(tape, oid(4), &files),
        |request| match request {
            Request::PathExists(path) => Reply::Flag(path == "a"),
            Request::HasEntry { path, .. } => Reply::Flag(path == "b"),
            Request::FileStat(_) => Reply::Stat(Some(FileStat { mode: 0o100755, is_symlink: false })),
            other => answer(other),
        },
    );
    let expected = vec![
        TreeEdit::Upsert { path: "a".to_string(), blob: oid(81), mode: FileMode::Executable },
        TreeEdit::Remove("b".to_string()),
    ];
    assert_eq!(edits_of(&asked), format!("{:?}", expected));
}

#[test]
fn binary_files_go_by_their_id() {
    let binary = |text: &str| {
        vec![FileDiff {
            path: "a".to_string(),
            hunks: vec![DiffHunk::new(1, 1, text.to_string(), true).unwrap()],
        }]
    };
    let files = binary("00000000000000000000000000000000000000ff");
    let (_, asked) = run(|tape| write_tree_onto_commit(tape, oid(4), &files), answer);
    let expected = vec![TreeEdit::Upsert { path: "a".to_string(), blob: oid(255), mode: FileMode::Blob }];
    assert_eq!(edits_of(&asked), format!("{:?}", expected));
    let files = binary("no id");
    let (outcome, _) = run(|tape| write_tree_onto_commit(tape, oid(4), &files), answer);
    assert!(matches!(outcome, Err(BranchError::NotAnOid(text)) if text == "no id"));
}

#[test]
fn a_diff_that_does_not_fit_makes_no_tree() {
    let files = vec![file("a", 1)];
    let (outcome, _) = run(
        |tape| write_tree_onto_commit(tape, oid(4), &files),
        |request| match request {
            Request::ReadBlob { .. } => Reply::Bytes("z\n".as_bytes().to_vec()),
            other => answer(other),
        },
    );
    assert!(matches!(outcome, Err(BranchError::PatchRejected(diff)) if diff == DIFF));
}

#[test]
fn hunks_are_shown_by_file() {
    let diff = vec![file("a", 1), file("b", 4)];
    let (outcome, asked) = run(|tape| virtual_hunks_by_filepath(tape, &diff), answer);
    let shown = outcome.unwrap();
    assert_eq!(shown.len(), 2);
    assert_eq!(shown[1].path, "b");
    assert_eq!(shown[1].hunks[0].id, "4-5");
    assert_eq!(shown[1].hunks[0].modified_at, 99);
    assert!(matches!(&asked[0], Request::FileTimes { in_repository: true, path } if path == "a"));
}

#[test]
fn more_replies_change_nothing() {
    let mut replies: Vec<Reply> = Vec::new();
    loop {
        match get_status_by_branch(&mut Tape::new(&replies)) {
            Ok(_) => break,
            Err(Stop::Ask(request)) => replies.push(answer(&request)),
            Err(Stop::Fail(error)) => panic!("{:?}", error),
        }
    }
    let before = format!("{:?}", get_status_by_branch(&mut Tape::new(&replies)));
    replies.push(Reply::Unit);
    replies.push(Reply::Flag(true));
    assert_eq!(format!("{:?}", get_status_by_branch(&mut Tape::new(&replies))), before);
}
