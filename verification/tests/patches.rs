use virtual_branches::conflicts::conflict_paths;
use virtual_branches::diff::DiffHunk;
use virtual_branches::patch::{patch_content, patch_verdict};
use virtual_branches::protocol::{BranchError, Conflict, FileMode, FileStat};
use virtual_branches::tree::file_mode;

fn hunk(start: u32, lines: u32, text: &str) -> DiffHunk {
    DiffHunk::new(start, lines, text.to_string(), false).unwrap()
}

fn bytes(text: &str) -> Vec<u8> {
    text.as_bytes().to_vec()
}

#[test]
fn a_hunk_changes_the_content() {
    let patched = patch_content(
        &bytes("a\nb\nc\n"),
        &vec![hunk(2, 1, "@@ -2,1 +2,1 @@\n-b\n+B\n")],
    );
    assert_eq!(patched.unwrap(), bytes("a\nB\nc\n"));
}

#[test]
fn hunks_are_applied_by_their_lines() {
    let first = "@@ -1,1 +1,2 @@\n a\n+new\n";
    let second = "@@ -2,1 +3,1 @@\n-b\n+B\n";
    let forward = vec![hunk(1, 2, first), hunk(3, 1, second)];
    let backward = vec![hunk(3, 1, second), hunk(1, 2, first)];
    let content = bytes("a\nb\n");
    assert_eq!(patch_content(&content, &forward).unwrap(), bytes("a\nnew\nB\n"));
    assert_eq!(patch_content(&content, &backward).unwrap(), bytes("a\nnew\nB\n"));
}

#[test]
fn no_hunks_change_nothing() {
    assert_eq!(patch_content(&bytes("x"), &vec![]).unwrap(), bytes("x"));
}

#[test]
fn a_hunk_that_does_not_fit_is_rejected() {
    let text = "@@ -1,1 +1,1 @@\n-z\n+Z\n";
    match patch_content(&bytes("a\n"), &vec![hunk(1, 1, text)]) {
        Err(BranchError::PatchRejected(diff)) => assert_eq!(diff, text),
        other => panic!("{:?}", other),
    }
}

#[test]
fn a_text_that_is_no_patch_cannot_be_read() {
    match patch_content(&bytes("a\n"), &vec![hunk(1, 1, "no patch")]) {
        Err(BranchError::PatchUnreadable(diff)) => assert_eq!(diff, "no patch"),
        other => panic!("{:?}", other),
    }
}

#[test]
fn the_ends_of_several_hunks_must_be_held() {
    let content = bytes("a\nb\n");
    let applied = |text: &str| patch_content(&content, &vec![hunk(1, 1, text)]);
    let far = "@@ -18446744073709551615,1 +1,1 @@\n-a\n+A\n@@ -2,1 +2,1 @@\n-b\n+B\n";
    assert!(matches!(applied(far), Err(BranchError::PatchUnreadable(diff)) if diff == far));
    let far = "@@ -1,1 +18446744073709551615 @@\n-a\n+A\n@@ -2,1 +2,1 @@\n-b\n+B\n";
    assert!(matches!(applied(far), Err(BranchError::PatchUnreadable(_))));
    let beyond = "@@ -1,1 +1,1 @@\n-a\n+A\n@@ -99999999999999999999,1 +2,1 @@\n-b\n+B\n";
    assert!(matches!(applied(beyond), Err(BranchError::PatchUnreadable(_))));

    let last = "@@ -1,1 +1,1 @@\n-a\n+A\n@@ -18446744073709551615,1 +18446744073709551615,1 @@\n-b\n+B\n";
    assert_eq!(applied(last).unwrap(), bytes("A\nB\n"));
    let context = "@@ -1,1 +1,1 @@ f(18446744073709551615)\n-a\n+A\n@@ -2,1 +2,1 @@\n-b\n+B\n";
    assert_eq!(applied(context).unwrap(), bytes("A\nB\n"));
    let near = "@@ -1,1 +1,1 @@\n-a\n+A\n@@ -123456789012,1 +123456789012,1 @@\n-b\n+B\n";
    assert_eq!(applied(near).unwrap(), bytes("A\nB\n"));
}

#[test]
fn one_hunk_may_name_any_line() {
    let text = "@@ -18446744073709551615,1 +18446744073709551615,1 @@\n-a\n+A\n";
    assert_eq!(patch_content(&bytes("a\n"), &vec![hunk(1, 1, text)]).unwrap(), bytes("A\n"));
}

#[test]
fn the_verdict_follows_the_outcome() {
    let h = hunk(1, 1, "d");
    assert!(matches!(patch_verdict(&h, None), Err(BranchError::PatchUnreadable(d)) if d == "d"));
    assert!(matches!(patch_verdict(&h, Some(None)), Err(BranchError::PatchRejected(d)) if d == "d"));
    assert_eq!(patch_verdict(&h, Some(Some(bytes("x")))).unwrap(), bytes("x"));
}

#[test]
fn conflicts_have_the_path_of_our_side() {
    let conflicts = vec![
        Conflict::Unreadable,
        Conflict::Ours(bytes("a/b")),
        Conflict::NotOurs,
        Conflict::Ours("\u{e4}".as_bytes().to_vec()),
    ];
    assert_eq!(conflict_paths(&conflicts).unwrap(), vec!["a/b".to_string(), "\u{e4}".to_string()]);
    assert_eq!(conflict_paths(&vec![]).unwrap().len(), 0);
}

#[test]
fn a_path_in_conflict_must_be_text() {
    let conflicts = vec![Conflict::Ours(bytes("a")), Conflict::Ours(vec![0xff])];
    assert!(matches!(conflict_paths(&conflicts), Err(BranchError::PathNotUtf8)));
}

#[test]
fn the_mode_follows_the_file() {
    assert_eq!(file_mode(None), FileMode::Blob);
    assert_eq!(file_mode(Some(FileStat { mode: 0o100644, is_symlink: false })), FileMode::Blob);
    assert_eq!(file_mode(Some(FileStat { mode: 0o100755, is_symlink: false })), FileMode::Executable);
    assert_eq!(file_mode(Some(FileStat { mode: 0o100645, is_symlink: false })), FileMode::Executable);
    assert_eq!(file_mode(Some(FileStat { mode: 0o120777, is_symlink: true })), FileMode::Link);
}
