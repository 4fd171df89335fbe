use virtual_branches::author::Author;
use virtual_branches::branch::{Signature, Target};
use virtual_branches::create::upstream_from_slug;
use virtual_branches::digest::diff_hash;
use virtual_branches::naming::{dedup, dedup_fmt, RemoteBranchName};
use virtual_branches::objects::{parse_oid, Oid};
use virtual_branches::push::free_branch;
use virtual_branches::text::{contains, decimal_text, split_lines};

fn texts(of: &[&str]) -> Vec<String> {
    of.iter().map(|t| t.to_string()).collect()
}

#[test]
fn an_unused_name_stays() {
    assert_eq!(dedup(&texts(&["bar", "baz"]), "foo"), "foo");
    assert_eq!(dedup(&texts(&[]), "foo"), "foo");
}

#[test]
fn a_used_name_gets_a_number() {
    assert_eq!(dedup(&texts(&["foo"]), "foo"), "foo 1");
    assert_eq!(dedup(&texts(&["foo", "foo 1", "foo 7"]), "foo"), "foo 8");
    assert_eq!(dedup(&texts(&["foo 2", "foo bar"]), "foo"), "foo 3");
}

#[test]
fn the_separator_is_that_which_is_asked_for() {
    assert_eq!(dedup_fmt(&texts(&["foo", "foo 4"]), "foo", "-"), "foo-1");
    assert_eq!(dedup_fmt(&texts(&["foo-4"]), "foo", "-"), "foo-5");
}

#[test]
fn a_unique_name_is_new() {
    let existing = texts(&["a", "a 1", "a 10", "b"]);
    assert!(!existing.contains(&dedup(&existing, "a")));
}

#[test]
fn remote_branches_are_read_and_written() {
    let name = RemoteBranchName { remote: "origin".to_string(), branch: "a/b".to_string() };
    assert_eq!(name.refname(), "refs/remotes/origin/a/b");
    let read = RemoteBranchName::parse("refs/remotes/origin/a/b").unwrap();
    assert_eq!(read.remote, "origin");
    assert_eq!(read.branch, "a/b");
    assert!(RemoteBranchName::parse("refs/heads/master").is_none());
}

#[test]
fn an_upstream_branch_is_named_by_its_slug() {
    let target = Target {
        branch: RemoteBranchName { remote: "origin".to_string(), branch: "master".to_string() },
        sha: Oid { high: 0, low: 1 },
    };
    let upstream = upstream_from_slug(&target, "my-branch".to_string());
    assert_eq!(upstream.refname(), "refs/remotes/origin/my-branch");
}

#[test]
fn a_free_branch_has_a_new_name() {
    let wanted = RemoteBranchName { remote: "origin".to_string(), branch: "work".to_string() };
    assert_eq!(free_branch(&wanted, &texts(&["master"])).branch, "work");
    assert_eq!(free_branch(&wanted, &texts(&["work", "work-1"])).branch, "work-2");
    assert_eq!(free_branch(&wanted, &texts(&["work"])).remote, "origin");
}

#[test]
fn the_hash_of_a_diff_is_that_of_its_changes() {
    assert_eq!(diff_hash("@@ -1 +1 @@\n-a\n+b\n c\n"), "110e6dca882966284239e9fdd92226ff");
    assert_eq!(diff_hash("@@ -9 +9 @@\n-a\n+b\n other context\n"), diff_hash("@@ -1 +1 @@\n-a\n+b"));
    assert_eq!(diff_hash(""), "d41d8cd98f00b204e9800998ecf8427e");
    assert_eq!(diff_hash("+header only"), "d41d8cd98f00b204e9800998ecf8427e");
}

#[test]
fn object_ids_are_read_from_text() {
    let oid = parse_oid("0123456789abcdef0123456789abcdef01234567").unwrap();
    assert_eq!(oid, Oid { high: 0x0123456789abcdef0123456789abcdef, low: 0x01234567 });
    assert_eq!(parse_oid("ABC").unwrap(), Oid { high: 0xabc << 116, low: 0 });
    assert!(parse_oid("").is_none());
    assert!(parse_oid("xyz").is_none());
    assert!(parse_oid("0123456789abcdef0123456789abcdef012345678").is_none());
}

#[test]
fn authors_have_a_picture() {
    let signature = Signature {
        name: Some("Someone".to_string()),
        email: Some("Someone@Example.com".to_string()),
    };
    let author = Author::from(&signature);
    assert_eq!(author.name, "Someone");
    assert_eq!(author.email, "Someone@Example.com");
    assert_eq!(
        author.gravatar_url,
        "https://www.gravatar.com/avatar/16d113840f999444259f73bac9ab8b10?s=100&r=g&d=retro"
    );
    let nobody = Author::from(&Signature { name: None, email: None });
    assert_eq!(nobody.name, "");
    assert_eq!(nobody.email, "");
    assert_eq!(
        nobody.gravatar_url,
        "https://www.gravatar.com/avatar/d41d8cd98f00b204e9800998ecf8427e?s=100&r=g&d=retro"
    );
}

#[test]
fn an_author_gets_the_picture() {
    let signature = Signature { name: Some("A".to_string()), email: None };
    let author = Author::with_picture(&signature, "x".to_string());
    assert_eq!(author.name, "A");
    assert_eq!(author.email, "");
    assert_eq!(author.gravatar_url, "x");
}

#[test]
fn lines_end_with_a_line_feed() {
    assert_eq!(split_lines("a\r\nb\n\nc"), texts(&["a", "b", "", "c"]));
    assert_eq!(split_lines("a\n"), texts(&["a"]));
    assert_eq!(split_lines(""), texts(&[]));
}

#[test]
fn texts_are_searched_and_numbers_written() {
    assert!(contains("a <<<<<<< ours b", "<<<<<<< ours"));
    assert!(!contains("<<<<<<<", "<<<<<<< ours"));
    assert!(contains("", ""));
    assert_eq!(decimal_text(0), "0");
    assert_eq!(decimal_text(4294967295), "4294967295");
}
