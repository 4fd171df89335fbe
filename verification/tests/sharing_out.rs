use virtual_branches::branch::{Branch, Commit, Signature, Target};
use virtual_branches::diff::{DiffHunk, FileDiff};
use virtual_branches::naming::RemoteBranchName;
use virtual_branches::objects::{BranchId, Oid};
use virtual_branches::ownership::{FileOwnership, Hunk, Ownership};
use virtual_branches::protocol::{BranchError, FileTimes, Reply, Request, Stop, Tape};
use virtual_branches::status::{
    get_applied_status, get_non_applied_status, share_out, BranchStatus,
};

fn oid(n: u32) -> Oid {
    Oid { high: 0, low: n }
}

fn branch(id: u128, order: usize, owned: Vec<FileOwnership>) -> Branch {
    Branch {
        id: BranchId { value: id },
        name: format!("branch {}", id),
        notes: String::new(),
        applied: true,
        upstream: None,
        upstream_head: None,
        created_timestamp_ms: 0,
        updated_timestamp_ms: 0,
        tree: oid(10),
        head: oid(11),
        ownership: Ownership { files: owned },
        order,
    }
}

fn owned(path: &str, hunks: Vec<(u32, u32)>) -> FileOwnership {
    FileOwnership {
        file_path: path.to_string(),
        hunks: hunks
            .iter()
            .map(|h| Hunk { start: h.0, end: h.1, hash: None, timestamp_ms: Some(5) })
            .collect(),
    }
}

fn file(path: &str, hunks: Vec<(u32, u32)>) -> FileDiff {
    FileDiff {
        path: path.to_string(),
        hunks: hunks
            .iter()
            .map(|h| {
                DiffHunk::new(h.0, h.1 - h.0, format!("@@ @@\n+line {}", h.0), false).unwrap()
            })
            .collect(),
    }
}

fn target() -> Target {
    Target {
        branch: RemoteBranchName { remote: "origin".to_string(), branch: "master".to_string() },
        sha: oid(1),
    }
}

fn run<T>(
    operation: impl Fn(&mut Tape) -> Result<T, Stop>,
    answer: impl Fn(&Request) -> Reply,
) -> (Result<T, BranchError>, Vec<Request>) {
    let mut replies: Vec<Reply> = Vec::new();
    let mut asked: Vec<Request> = Vec::new();
    loop {
        let outcome = operation(&mut Tape::new(&replies));
        match outcome {
            Ok(value) => return (Ok(value), asked),
            Err(Stop::Fail(error)) => return (Err(error), asked),
            Err(Stop::Ask(request)) => {
                replies.push(answer(&request));
                asked.push(request);
            }
        }
    }
}

fn answer(request: &Request) -> Reply {
    match request {
        Request::FileTimes { path, .. } if path == "made" => {
            Reply::Times(FileTimes { modified: None, created: Some(77) })
        }
        Request::FileTimes { path, .. } if path == "unknown" => {
            Reply::Times(FileTimes { modified: None, created: None })
        }
        Request::FileTimes { .. } => Reply::Times(FileTimes { modified: Some(99), created: None }),
        Request::Now => Reply::Millis(1000),
        Request::NewBranchId => Reply::Id(BranchId { value: 42 }),
        Request::ReadDefaultTarget => Reply::Target(target()),
        Request::FindStoreCommit(id) | Request::FindCommit(id) => Reply::Commit(Commit {
            id: *id,
            tree: oid(2),
            parents: vec![],
            seconds: 0,
            author: Signature { name: None, email: None },
            message: None,
        }),
        Request::ListBranches => Reply::Branches(vec![]),
        Request::DiffWorkdir(_) => Reply::Diffs(vec![file("a", vec![(1, 3)])]),
        Request::DiffTrees(_, _) => Reply::Diffs(vec![file("t", vec![(1, 2)])]),
        _ => Reply::Unit,
    }
}

fn starts(status: &BranchStatus) -> Vec<(String, Vec<u32>)> {
    status
        .files
        .iter()
        .map(|f| (f.path.clone(), f.hunks.iter().map(|h| h.new_start()).collect()))
        .collect()
}

fn owned_lines(status: &BranchStatus) -> Vec<(String, Vec<(u32, u32)>)> {
    status
        .branch
        .ownership
        .files
        .iter()
        .map(|f| (f.file_path.clone(), f.hunks.iter().map(|h| (h.start, h.end)).collect()))
        .collect()
}

fn shared(diff: Vec<FileDiff>, branches: Vec<Branch>) -> Vec<BranchStatus> {
    run(|tape| share_out(tape, diff.clone(), &branches), answer).0.unwrap()
}

#[test]
fn everything_goes_to_the_first_branch_by_default() {
    let statuses = shared(
        vec![file("a", vec![(1, 3), (7, 9)]), file("b", vec![(1, 2)])],
        vec![branch(1, 0, vec![]), branch(2, 1, vec![])],
    );
    assert_eq!(starts(&statuses[0]), vec![("a".to_string(), vec![1, 7]), ("b".to_string(), vec![1])]);
    assert_eq!(starts(&statuses[1]), vec![]);
    assert_eq!(
        owned_lines(&statuses[0]),
        vec![("b".to_string(), vec![(1, 2)]), ("a".to_string(), vec![(7, 9), (1, 3)])]
    );
    let first = &statuses[0].branch.ownership.files[0].hunks[0];
    assert_eq!(first.timestamp_ms, Some(99));
    assert_eq!(first.hash.as_ref().unwrap().len(), 32);
}

#[test]
fn a_branch_keeps_the_hunks_that_it_owns() {
    let statuses = shared(
        vec![file("a", vec![(1, 3), (7, 9)])],
        vec![branch(1, 0, vec![]), branch(2, 1, vec![owned("a", vec![(7, 9)])])],
    );
    assert_eq!(starts(&statuses[0]), vec![("a".to_string(), vec![1])]);
    assert_eq!(starts(&statuses[1]), vec![("a".to_string(), vec![7])]);
    assert_eq!(statuses[1].branch.ownership.files[0].hunks[0].timestamp_ms, Some(5));
}

#[test]
fn a_hunk_that_has_moved_stays_with_its_branch() {
    let statuses = shared(
        vec![file("a", vec![(1, 3), (8, 11)])],
        vec![branch(1, 0, vec![]), branch(2, 1, vec![owned("a", vec![(7, 9)])])],
    );
    assert_eq!(starts(&statuses[1]), vec![("a".to_string(), vec![8])]);
    assert_eq!(owned_lines(&statuses[1]), vec![("a".to_string(), vec![(8, 11)])]);
    assert_eq!(statuses[1].branch.ownership.files[0].hunks[0].timestamp_ms, None);
}

#[test]
fn a_changed_hunk_comes_first() {
    let statuses = shared(
        vec![file("a", vec![(1, 3), (20, 25)])],
        vec![branch(1, 0, vec![owned("a", vec![(1, 3), (21, 22)])])],
    );
    assert_eq!(starts(&statuses[0]), vec![("a".to_string(), vec![20, 1])]);
    assert_eq!(owned_lines(&statuses[0]), vec![("a".to_string(), vec![(20, 25), (1, 3)])]);
}

#[test]
fn owned_hunks_that_are_gone_are_forgotten() {
    let statuses = shared(
        vec![file("a", vec![(1, 3)])],
        vec![branch(
            1,
            0,
            vec![owned("a", vec![(1, 3), (50, 60)]), owned("gone", vec![(1, 2)])],
        )],
    );
    assert_eq!(owned_lines(&statuses[0]), vec![("a".to_string(), vec![(1, 3)])]);
}

#[test]
fn each_hunk_is_owned_once() {
    let statuses = shared(
        vec![file("a", vec![(1, 3)])],
        vec![
            branch(1, 0, vec![owned("a", vec![(1, 3), (2, 3)])]),
            branch(2, 1, vec![owned("a", vec![(1, 3)])]),
        ],
    );
    assert_eq!(starts(&statuses[0]), vec![("a".to_string(), vec![1])]);
    assert_eq!(owned_lines(&statuses[0]), vec![("a".to_string(), vec![(1, 3)])]);
    assert_eq!(starts(&statuses[1]), vec![]);
    assert_eq!(owned_lines(&statuses[1]), vec![]);
}

#[test]
fn the_branches_together_have_the_diff() {
    let diff = vec![file("a", vec![(1, 3), (7, 9), (20, 22)]), file("b", vec![(4, 5)])];
    let statuses = shared(
        diff.clone(),
        vec![
            branch(1, 0, vec![owned("b", vec![(4, 5)])]),
            branch(2, 1, vec![owned("a", vec![(8, 8), (19, 30)])]),
        ],
    );
    let mut all: Vec<(String, u32)> = Vec::new();
    for status in &statuses {
        for f in &status.files {
            for h in &f.hunks {
                all.push((f.path.clone(), h.new_start()));
            }
        }
    }
    all.sort();
    let there = |p: &str, n: u32| (p.to_string(), n);
    assert_eq!(all, vec![there("a", 1), there("a", 7), there("a", 20), there("b", 4)]);
}

#[test]
fn sharing_out_again_gives_the_same_hunks() {
    let diff = vec![file("a", vec![(1, 3), (7, 9), (20, 22)]), file("b", vec![(4, 5)])];
    let sorted = |status: &BranchStatus| {
        let mut all: Vec<(String, u32)> = Vec::new();
        for f in &status.files {
            for h in &f.hunks {
                all.push((f.path.clone(), h.new_start()));
            }
        }
        all.sort();
        all
    };
    let once = shared(
        diff.clone(),
        vec![branch(1, 0, vec![]), branch(2, 1, vec![owned("a", vec![(8, 8), (19, 30)])])],
    );
    let there = |p: &str, n: u32| (p.to_string(), n);
    assert_eq!(sorted(&once[0]), vec![there("a", 1), there("b", 4)]);
    assert_eq!(sorted(&once[1]), vec![there("a", 7), there("a", 20)]);
    let again = shared(diff, once.iter().map(|s| s.branch.clone()).collect());
    assert_eq!(sorted(&again[0]), sorted(&once[0]));
    assert_eq!(sorted(&again[1]), sorted(&once[1]));
}

#[test]
fn a_different_hash_is_a_changed_hunk() {
    let mut claim = owned("a", vec![(1, 3)]);
    claim.hunks[0].hash = Some("other".to_string());
    let statuses = shared(vec![file("a", vec![(1, 3)])], vec![branch(1, 0, vec![claim])]);
    let hunk = &statuses[0].branch.ownership.files[0].hunks[0];
    assert_ne!(hunk.hash.as_ref().unwrap(), "other");
    assert_eq!(hunk.timestamp_ms, None);
}

#[test]
fn an_unapplied_branch_gets_no_hunks() {
    let mut unapplied = branch(1, 0, vec![]);
    unapplied.applied = false;
    let (outcome, asked) = run(|tape| share_out(tape, vec![], &vec![unapplied.clone()]), answer);
    assert!(matches!(outcome, Err(BranchError::BranchIsNotApplied(name)) if name == "branch 1"));
    assert_eq!(asked.len(), 0);
}

#[test]
fn the_time_of_a_file_is_asked_for_once() {
    let diff = vec![file("a", vec![(1, 3), (7, 9)])];
    let branches = vec![branch(1, 0, vec![owned("a", vec![(1, 3)])])];
    let (_, asked) = run(|tape| share_out(tape, diff.clone(), &branches), answer);
    assert_eq!(asked.len(), 1);
}

#[test]
fn the_time_of_a_file_falls_back() {
    let diff = vec![file("made", vec![(1, 3)]), file("unknown", vec![(1, 3)])];
    let branches = vec![branch(1, 0, vec![])];
    let (outcome, asked) = run(|tape| share_out(tape, diff.clone(), &branches), answer);
    let statuses = outcome.unwrap();
    let files = &statuses[0].branch.ownership.files;
    assert_eq!(files[1].hunks[0].timestamp_ms, Some(77));
    assert_eq!(files[0].hunks[0].timestamp_ms, Some(1000));
    assert!(matches!(asked[2], Request::Now));
}

#[test]
fn the_status_is_found_in_the_order_of_the_branches() {
    let branches = vec![branch(1, 9, vec![]), branch(2, 3, vec![])];
    let (outcome, asked) =
        run(|tape| get_applied_status(tape, &target(), branches.clone()), answer);
    let statuses = outcome.unwrap();
    assert_eq!(statuses[0].branch.id.value, 2);
    assert_eq!(starts(&statuses[0]), vec![("a".to_string(), vec![1])]);
    assert_eq!(statuses[1].branch.id.value, 1);
    assert!(matches!(&asked[2], Request::WriteBranch(b) if b.id.value == 2));
    assert!(matches!(&asked[3], Request::WriteBranch(b) if b.id.value == 1));
    assert_eq!(asked.len(), 4);
}

#[test]
fn a_branch_is_made_where_there_is_none() {
    let (outcome, _) = run(|tape| get_applied_status(tape, &target(), vec![]), answer);
    let statuses = outcome.unwrap();
    assert_eq!(statuses.len(), 1);
    assert_eq!(statuses[0].branch.name, "Virtual branch");
    assert_eq!(statuses[0].branch.id.value, 42);
    assert_eq!(starts(&statuses[0]), vec![("a".to_string(), vec![1])]);
}

#[test]
fn no_branch_is_made_for_nothing() {
    let (outcome, asked) = run(
        |tape| get_applied_status(tape, &target(), vec![]),
        |request| match request {
            Request::DiffWorkdir(_) => Reply::Diffs(vec![]),
            other => answer(other),
        },
    );
    assert_eq!(outcome.unwrap().len(), 0);
    assert_eq!(asked.len(), 1);
}

#[test]
fn an_unapplied_branch_is_compared_by_its_tree() {
    let mut unapplied = branch(3, 0, vec![]);
    unapplied.applied = false;
    let (outcome, asked) =
        run(|tape| get_non_applied_status(tape, &target(), &vec![unapplied.clone()]), answer);
    assert_eq!(starts(&outcome.unwrap()[0]), vec![("t".to_string(), vec![1])]);
    assert!(matches!(asked[2], Request::DiffTrees(from, to) if from == oid(2) && to == oid(10)));
    let (outcome, _) =
        run(|tape| get_non_applied_status(tape, &target(), &vec![branch(3, 0, vec![])]), answer);
    assert!(matches!(outcome, Err(BranchError::BranchIsApplied(name)) if name == "branch 3"));
}
