use virtual_branches::commit::hunks_to_amend;
use virtual_branches::diff::{is_listed, only_owned, without_listed, DiffHunk, FileDiff};
use virtual_branches::ownership::{FileOwnership, Hunk, Ownership};

fn hunk(start: u32, end: u32) -> Hunk {
    Hunk { start, end, hash: None, timestamp_ms: None }
}

fn hashed(start: u32, end: u32, hash: &str) -> Hunk {
    Hunk { start, end, hash: Some(hash.to_string()), timestamp_ms: None }
}

fn file(path: &str, hunks: Vec<Hunk>) -> FileOwnership {
    FileOwnership { file_path: path.to_string(), hunks }
}

fn diff_hunk(start: u32, lines: u32, text: &str) -> DiffHunk {
    DiffHunk::new(start, lines, text.to_string(), false).unwrap()
}

fn lines(hunks: &Vec<Hunk>) -> Vec<(u32, u32)> {
    hunks.iter().map(|h| (h.start, h.end)).collect()
}

fn paths(files: &Vec<FileOwnership>) -> Vec<String> {
    files.iter().map(|f| f.file_path.clone()).collect()
}

#[test]
fn hunks_are_the_same_by_lines_and_hash() {
    assert!(hunk(1, 2).same(&hunk(1, 2)));
    assert!(!hunk(1, 2).same(&hunk(1, 3)));
    assert!(hunk(1, 2).same(&hashed(1, 2, "a")));
    assert!(hashed(1, 2, "a").same(&hashed(1, 2, "a")));
    assert!(!hashed(1, 2, "a").same(&hashed(1, 2, "b")));
    assert!(hashed(1, 2, "a").with_timestamp(7).same(&hashed(1, 2, "a")));
}

#[test]
fn hunks_meet_where_they_have_a_line_in_common() {
    assert!(hunk(1, 5).intersects(&hunk(5, 9)));
    assert!(hunk(5, 9).intersects(&hunk(1, 5)));
    assert!(hunk(1, 9).intersects(&hunk(3, 4)));
    assert!(hunk(3, 4).intersects(&hunk(1, 9)));
    assert!(!hunk(1, 2).intersects(&hunk(3, 4)));
}

#[test]
fn lines_that_cannot_be_numbered_make_no_hunk() {
    assert!(DiffHunk::new(u32::MAX, 1, String::new(), false).is_none());
    let last = DiffHunk::new(u32::MAX - 1, 1, String::new(), true).unwrap();
    assert_eq!(last.new_end(), u32::MAX);
    assert_eq!(last.new_start(), u32::MAX - 1);
    assert_eq!(last.new_lines(), 1);
    assert!(last.binary());
}

#[test]
fn a_hunk_is_owned_by_its_lines_and_its_hash() {
    let owned = diff_hunk(3, 4, "@@ -1 +1 @@\n-a\n+b").to_own();
    assert_eq!((owned.start, owned.end), (3, 7));
    assert_eq!(owned.hash.unwrap(), "110e6dca882966284239e9fdd92226ff");
    assert!(owned.timestamp_ms.is_none());
}

#[test]
fn what_is_put_comes_first() {
    let mut owned = Ownership { files: vec![file("a", vec![hunk(1, 2)]), file("b", vec![hunk(3, 4)])] };
    owned.put(&file("b", vec![hunk(5, 6), hunk(7, 8)]));
    assert_eq!(paths(&owned.files), vec!["b", "a"]);
    assert_eq!(lines(&owned.files[0].hunks), vec![(7, 8), (5, 6), (3, 4)]);
    owned.put(&file("c", vec![hunk(1, 1)]));
    assert_eq!(paths(&owned.files), vec!["c", "b", "a"]);
}

#[test]
fn what_is_put_again_takes_its_place() {
    let mut owned = Ownership { files: vec![file("a", vec![hunk(1, 2), hunk(3, 4)])] };
    owned.put(&file("a", vec![hashed(3, 4, "new")]));
    assert_eq!(lines(&owned.files[0].hunks), vec![(3, 4), (1, 2)]);
    assert_eq!(owned.files[0].hunks[0].hash.as_ref().unwrap(), "new");
}

#[test]
fn what_is_put_is_contained() {
    let mut owned = Ownership::new();
    let claim = file("a", vec![hunk(1, 2)]);
    owned.put(&claim);
    assert!(owned.contains(&Ownership { files: vec![claim] }));
    assert!(!owned.contains(&Ownership { files: vec![file("a", vec![hunk(2, 3)])] }));
    assert!(!owned.contains(&Ownership { files: vec![file("a", vec![])] }));
    assert!(!owned.contains(&Ownership { files: vec![file("b", vec![hunk(1, 2)])] }));
}

#[test]
fn a_whole_file_contains_its_hunks() {
    let owned = Ownership { files: vec![file("a", vec![])] };
    assert!(owned.contains(&Ownership { files: vec![file("a", vec![hunk(1, 2)])] }));
    let mut more = owned.clone();
    more.put(&file("a", vec![hunk(1, 2)]));
    assert!(more.files[0].is_full());
}

#[test]
fn what_is_taken_is_gone() {
    let mut owned = Ownership {
        files: vec![file("a", vec![hunk(1, 2), hunk(3, 4)]), file("b", vec![hunk(1, 2)])],
    };
    let taken = owned.take(&file("a", vec![hunk(3, 4), hunk(9, 9)]));
    assert_eq!(paths(&taken), vec!["a"]);
    assert_eq!(lines(&taken[0].hunks), vec![(3, 4)]);
    assert_eq!(paths(&owned.files), vec!["a", "b"]);
    assert_eq!(lines(&owned.files[0].hunks), vec![(1, 2)]);
}

#[test]
fn the_last_hunk_takes_the_file_along() {
    let mut owned = Ownership { files: vec![file("a", vec![hunk(1, 2)])] };
    let taken = owned.take(&file("a", vec![hunk(1, 2)]));
    assert_eq!(taken.len(), 1);
    assert_eq!(owned.files.len(), 0);
}

#[test]
fn a_whole_file_is_taken_whole() {
    let mut owned = Ownership { files: vec![file("a", vec![hunk(1, 2), hunk(3, 4)])] };
    let taken = owned.take(&file("a", vec![]));
    assert_eq!(lines(&taken[0].hunks), vec![(1, 2), (3, 4)]);
    assert_eq!(owned.files.len(), 0);
}

#[test]
fn single_hunks_are_not_taken_from_a_whole_file() {
    let mut owned = Ownership { files: vec![file("a", vec![])] };
    assert_eq!(owned.take(&file("a", vec![hunk(1, 2)])).len(), 0);
    assert_eq!(owned.files.len(), 1);
}

#[test]
fn nothing_is_taken_of_other_files() {
    let mut owned = Ownership { files: vec![file("a", vec![hunk(1, 2)])] };
    assert_eq!(owned.take(&file("b", vec![])).len(), 0);
    assert_eq!(lines(&owned.files[0].hunks), vec![(1, 2)]);
}

#[test]
fn ownerships_are_the_same_file_by_file() {
    let one = Ownership { files: vec![file("a", vec![hunk(1, 2)])] };
    let same = Ownership { files: vec![file("a", vec![hashed(1, 2, "x")])] };
    let other = Ownership { files: vec![file("a", vec![hunk(1, 3)])] };
    assert!(one.same(&same));
    assert!(!one.same(&other));
    assert!(!one.same(&Ownership::new()));
}

fn some_files() -> Vec<FileDiff> {
    vec![
        FileDiff { path: "a".to_string(), hunks: vec![diff_hunk(1, 1, "x"), diff_hunk(5, 2, "y")] },
        FileDiff { path: "b".to_string(), hunks: vec![diff_hunk(1, 1, "z")] },
    ]
}

fn summary(files: &Vec<FileDiff>) -> Vec<(String, Vec<u32>)> {
    files
        .iter()
        .map(|f| (f.path.clone(), f.hunks.iter().map(|h| h.new_start()).collect()))
        .collect()
}

#[test]
fn hunks_are_listed_by_their_exact_lines() {
    let hunk_of_diff = diff_hunk(5, 2, "y");
    assert!(is_listed(&vec![hunk(5, 7)], &hunk_of_diff));
    assert!(!is_listed(&vec![hunk(5, 6), hunk(4, 7)], &hunk_of_diff));
    assert!(!is_listed(&vec![], &hunk_of_diff));
}

#[test]
fn only_what_is_owned_is_selected() {
    let owned = Ownership { files: vec![file("a", vec![hunk(5, 7)]), file("c", vec![hunk(1, 2)])] };
    assert_eq!(summary(&only_owned(&some_files(), &owned)), vec![("a".to_string(), vec![5])]);
    assert_eq!(only_owned(&some_files(), &Ownership::new()).len(), 0);
}

#[test]
fn what_is_listed_is_left_out() {
    let taken = vec![file("a", vec![hunk(5, 7)]), file("b", vec![hunk(1, 2)])];
    assert_eq!(summary(&without_listed(&some_files(), &taken)), vec![("a".to_string(), vec![1])]);
    assert_eq!(summary(&without_listed(&some_files(), &vec![])), summary(&some_files()));
}

#[test]
fn the_last_wish_for_a_file_is_amended() {
    let owned = Ownership {
        files: vec![
            file("b", vec![hunk(1, 2)]),
            file("a", vec![hunk(1, 2)]),
            file("a", vec![hunk(5, 7)]),
            file("a", vec![hunk(8, 9)]),
        ],
    };
    assert_eq!(
        summary(&hunks_to_amend(&some_files(), &owned)),
        vec![("b".to_string(), vec![1]), ("a".to_string(), vec![5])]
    );
}
