//! What a branch holds that it has not committed yet.

use crate::branch::{Branch, BranchModel, CommitModel, Target, TargetModel};
use crate::diff::{DiffHunk, DiffHunkModel, FileDiff, FileDiffModel};
use crate::objects::Oid;
use crate::protocol::{
    ask_commit, ask_diffs, ask_paths, ask_unit, outcome, outcome_seq, Flow, ReplyModel, Request,
    RequestModel, Stop, Tape,
};
use crate::seqs::views;
use crate::text::{contains, contains_text};
use crate::tree::{write_tree, write_tree_flow};
use vstd::prelude::*;

verus! {

/// Whether a diff holds a conflict marker.
pub open spec fn has_marker(diff: Seq<char>) -> bool {
    contains_text(diff, "<<<<<<< ours"@) || contains_text(diff, ">>>>>>> theirs"@)
}

/// Whether some hunks hold a conflict marker.
pub open spec fn is_unresolved(hunks: Seq<DiffHunkModel>) -> bool {
    exists|i: int| 0 <= i < hunks.len() && has_marker((#[trigger] hunks[i]).diff)
}

/// Whether some hunks hold a conflict marker.
fn any_marker(hunks: &Vec<DiffHunk>) -> (r: bool)
    ensures
        r == is_unresolved(views(hunks@)),
{
    let mut i: usize = 0;
    while i < hunks.len()
        invariant
            i <= hunks@.len(),
            forall|k: int| 0 <= k < i ==> !has_marker((#[trigger] views(hunks@)[k]).diff),
        decreases hunks@.len() - i,
    {
        let diff = hunks[i].diff();
        if contains(diff.as_str(), "<<<<<<< ours") || contains(diff.as_str(), ">>>>>>> theirs") {
            assert(has_marker(views(hunks@)[i as int].diff));
            return true;
        }
        i = i + 1;
    }
    false
}

/// How noting which conflicts are resolved comes out, from the given file on. A file that is noted
/// as in conflict is resolved when no hunk of it holds a conflict marker.
pub open spec fn note_resolved_flow(
    s: Seq<ReplyModel>,
    conflicting: Seq<Seq<char>>,
    files: Seq<FileDiffModel>,
    i: int,
) -> Flow<()>
    decreases files.len() - i,
{
    if i < 0 || i >= files.len() {
        Flow::Done((), s)
    } else if conflicting.contains(files[i].path) && !is_unresolved(files[i].hunks) {
        ask_unit(s, RequestModel::ResolveConflict(files[i].path)).and_then(
            |u: (), s: Seq<ReplyModel>| note_resolved_flow(s, conflicting, files, i + 1),
        )
    } else {
        note_resolved_flow(s, conflicting, files, i + 1)
    }
}

/// Whether a text is among some texts.
fn has_text(texts: &Vec<String>, text: &String) -> (r: bool)
    ensures
        r == views(texts@).contains(text@),
{
    let mut i: usize = 0;
    while i < texts.len()
        invariant
            i <= texts@.len(),
            forall|k: int| 0 <= k < i ==> #[trigger] views(texts@)[k] != text@,
        decreases texts@.len() - i,
    {
        if texts[i] == *text {
            assert(views(texts@)[i as int] == text@);
            return true;
        }
        i = i + 1;
    }
    false
}

/// Notes which conflicts are resolved.
fn note_resolved(tape: &mut Tape, conflicting: &Vec<String>, files: &Vec<FileDiff>) -> (r: Result<
    (),
    Stop,
>)
    ensures
        outcome(r, final(tape)@) == note_resolved_flow(
            old(tape)@,
            views(conflicting@),
            views(files@),
            0,
        ),
{
    let mut i: usize = 0;
    while i < files.len()
        invariant
            i <= files@.len(),
            note_resolved_flow(old(tape)@, views(conflicting@), views(files@), 0)
                == note_resolved_flow(tape@, views(conflicting@), views(files@), i as int),
        decreases files@.len() - i,
    {
        if has_text(conflicting, &files[i].path) && !any_marker(&files[i].hunks) {
            tape.ask_unit(Request::ResolveConflict(files[i].path.clone()))?;
        }
        i = i + 1;
    }
    Ok(())
}

/// How finding what a branch has not committed yet comes out: what differs between its head and
/// the tree that its hunks make of the target. Of an unapplied branch without commits these are
/// its hunks. On the way, the conflicts that are resolved are noted.
pub open spec fn calculate_non_commited_diffs_flow(
    s: Seq<ReplyModel>,
    branch: BranchModel,
    target: TargetModel,
    files: Seq<FileDiffModel>,
) -> Flow<Seq<FileDiffModel>> {
    if target.sha == branch.head && !branch.applied {
        Flow::Done(files, s)
    } else {
        write_tree_flow(s, target, files).and_then(
            |tree: Oid, s: Seq<ReplyModel>|
                ask_unit(s, RequestModel::FindTree(tree)).and_then(
                    |u: (), s: Seq<ReplyModel>|
                        ask_commit(s, RequestModel::FindCommit(branch.head)).and_then(
                            |head: CommitModel, s: Seq<ReplyModel>|
                                ask_diffs(s, RequestModel::DiffTrees(head.tree, tree)).and_then(
                                    |diff: Seq<FileDiffModel>, s: Seq<ReplyModel>|
                                        ask_paths(s, RequestModel::ConflictingFiles).and_then(
                                            |paths: Option<Seq<Seq<char>>>, s: Seq<ReplyModel>|
                                                (match paths {
                                                    Some(paths) => note_resolved_flow(
                                                        s,
                                                        paths,
                                                        diff,
                                                        0,
                                                    ),
                                                    None => Flow::Done((), s),
                                                }).and_then(
                                                    |u: (), s: Seq<ReplyModel>| Flow::Done(diff, s),
                                                ),
                                        ),
                                ),
                        ),
                ),
        )
    }
}

/// What a branch has not committed yet.
pub fn calculate_non_commited_diffs(
    tape: &mut Tape,
    branch: &Branch,
    default_target: &Target,
    files: &Vec<FileDiff>,
) -> (r: Result<Vec<FileDiff>, Stop>)
    ensures
        outcome_seq(r, final(tape)@) == calculate_non_commited_diffs_flow(
            old(tape)@,
            branch@,
            default_target@,
            views(files@),
        ),
{
    if default_target.sha == branch.head && !branch.applied {
        let copy = files.clone();
        assert(views(copy@) =~= views(files@));
        return Ok(copy);
    }
    let tree = write_tree(tape, default_target, files)?;
    tape.ask_unit(Request::FindTree(tree))?;
    let head = tape.ask_commit(Request::FindCommit(branch.head))?;
    let diff = tape.ask_diffs(Request::DiffTrees(head.tree, tree))?;
    if let Some(paths) = tape.ask_paths(Request::ConflictingFiles)? {
        note_resolved(tape, paths, &diff)?;
    }
    Ok(diff)
}

} // verus!
