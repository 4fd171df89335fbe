//! Writing the hunks of a branch out as a tree.

use crate::branch::{CommitModel, Target, TargetModel};
use crate::diff::{DiffHunkModel, FileDiff, FileDiffModel};
use crate::objects::{oid_of_text, parse_oid, Oid};
use crate::patch::{apply_hunks, patch_content};
use crate::protocol::{
    ask_bytes, ask_commit, ask_flag, ask_link, ask_oid, ask_stat, fail, outcome, outcome_opt,
    BranchError, BranchErrorModel, FileMode, FileStat, Flow, LinkTargetModel, ReplyModel, Request,
    RequestModel, Stop, Tape, TreeEdit, TreeEditModel,
};
use crate::seqs::{lemma_views_push, views};
use vstd::prelude::*;

verus! {

/// What kind of entry a file makes: a link where it is one, otherwise an executable where anyone
/// may run it. A file of which nothing is known is an ordinary one.
pub open spec fn mode_of(stat: Option<FileStat>) -> FileMode {
    match stat {
        None => FileMode::Blob,
        Some(stat) => if stat.is_symlink {
            FileMode::Link
        } else if stat.mode & 0o111 != 0 {
            FileMode::Executable
        } else {
            FileMode::Blob
        },
    }
}

/// What kind of entry a file makes.
pub fn file_mode(stat: Option<FileStat>) -> (mode: FileMode)
    ensures
        mode == mode_of(stat),
{
    match stat {
        None => FileMode::Blob,
        Some(stat) => if stat.is_symlink {
            FileMode::Link
        } else if stat.mode & 0o111 != 0 {
            FileMode::Executable
        } else {
            FileMode::Blob
        },
    }
}

/// What is stored of a link: where it leads, from the top of the project where that lies inside.
pub open spec fn link_content(link: LinkTargetModel) -> Seq<u8> {
    match link.inside {
        Some(inside) => inside,
        None => link.raw,
    }
}

/// Whether the hunks of a file are the one hunk of a binary file.
pub open spec fn is_binary(hunks: Seq<DiffHunkModel>) -> bool {
    hunks.len() == 1 && hunks[0].binary
}

/// How finding the new content of a file that is in the tree comes out. Of a binary file the hunk
/// names it; otherwise the hunks are applied to the content that the tree has.
pub open spec fn content_flow(s: Seq<ReplyModel>, tree: Oid, file: FileDiffModel) -> Flow<Oid> {
    if is_binary(file.hunks) {
        match oid_of_text(file.hunks[0].diff) {
            Some(blob) => Flow::Done(blob, s),
            None => fail(BranchErrorModel::NotAnOid(file.hunks[0].diff)),
        }
    } else {
        ask_bytes(s, RequestModel::ReadBlob { tree, path: file.path }).and_then(
            |content: Seq<u8>, s: Seq<ReplyModel>|
                match apply_hunks(content, file.hunks) {
                    Ok(content) => ask_oid(s, RequestModel::WriteBlob(content)),
                    Err(error) => fail(error),
                },
        )
    }
}

/// How finding the blob of a file that exists comes out.
pub open spec fn blob_flow(s: Seq<ReplyModel>, tree: Oid, file: FileDiffModel, mode: FileMode) -> Flow<
    Oid,
> {
    if mode == FileMode::Link {
        ask_link(s, RequestModel::ReadLink(file.path)).and_then(
            |link: LinkTargetModel, s: Seq<ReplyModel>|
                ask_oid(s, RequestModel::WriteBlob(link_content(link))),
        )
    } else {
        ask_flag(s, RequestModel::HasEntry { tree, path: file.path }).and_then(
            |known: bool, s: Seq<ReplyModel>|
                if known {
                    content_flow(s, tree, file)
                } else {
                    ask_oid(s, RequestModel::WriteFileBlob(file.path))
                },
        )
    }
}

/// How finding what becomes of the entry of a file comes out. One that exists gets its blob; one
/// that does not loses its entry, if it has one.
pub open spec fn edit_flow(s: Seq<ReplyModel>, tree: Oid, file: FileDiffModel) -> Flow<
    Option<TreeEditModel>,
> {
    ask_flag(s, RequestModel::PathExists(file.path)).and_then(
        |exists_now: bool, s: Seq<ReplyModel>|
            if exists_now {
                ask_stat(s, RequestModel::FileStat(file.path)).and_then(
                    |stat: Option<FileStat>, s: Seq<ReplyModel>|
                        blob_flow(s, tree, file, mode_of(stat)).and_then(
                            |blob: Oid, s: Seq<ReplyModel>|
                                Flow::Done(
                                    Some(
                                        TreeEditModel::Upsert {
                                            path: file.path,
                                            blob,
                                            mode: mode_of(stat),
                                        },
                                    ),
                                    s,
                                ),
                        ),
                )
            } else {
                ask_flag(s, RequestModel::HasEntry { tree, path: file.path }).and_then(
                    |known: bool, s: Seq<ReplyModel>|
                        Flow::Done(
                            if known {
                                Some(TreeEditModel::Remove(file.path))
                            } else {
                                None
                            },
                            s,
                        ),
                )
            },
    )
}

/// How finding what becomes of the entries of the files from the given one on comes out.
pub open spec fn edits_flow(
    s: Seq<ReplyModel>,
    tree: Oid,
    files: Seq<FileDiffModel>,
    i: int,
    edits: Seq<TreeEditModel>,
) -> Flow<Seq<TreeEditModel>>
    decreases files.len() - i,
{
    if i < 0 || i >= files.len() {
        Flow::Done(edits, s)
    } else {
        edit_flow(s, tree, files[i]).and_then(
            |edit: Option<TreeEditModel>, s: Seq<ReplyModel>|
                edits_flow(
                    s,
                    tree,
                    files,
                    i + 1,
                    match edit {
                        Some(edit) => edits.push(edit),
                        None => edits,
                    },
                ),
        )
    }
}

/// How writing some hunks out as a tree, on top of a commit, comes out.
pub open spec fn write_tree_onto_commit_flow(
    s: Seq<ReplyModel>,
    commit: Oid,
    files: Seq<FileDiffModel>,
) -> Flow<Oid> {
    ask_commit(s, RequestModel::FindCommit(commit)).and_then(
        |base: CommitModel, s: Seq<ReplyModel>|
            edits_flow(s, base.tree, files, 0, seq![]).and_then(
                |edits: Seq<TreeEditModel>, s: Seq<ReplyModel>|
                    ask_oid(s, RequestModel::WriteTree { base: base.tree, edits }),
            ),
    )
}

/// How writing some hunks out as a tree, on top of the target, comes out.
pub open spec fn write_tree_flow(
    s: Seq<ReplyModel>,
    target: TargetModel,
    files: Seq<FileDiffModel>,
) -> Flow<Oid> {
    write_tree_onto_commit_flow(s, target.sha, files)
}

/// The new content of a file that is in the tree.
fn new_content(tape: &mut Tape, tree: Oid, file: &FileDiff) -> (r: Result<Oid, Stop>)
    ensures
        outcome(r, final(tape)@) == content_flow(old(tape)@, tree, file@),
{
    if file.hunks.len() == 1 && file.hunks[0].binary() {
        return match parse_oid(file.hunks[0].diff().as_str()) {
            Some(blob) => Ok(blob),
            None => Err(Stop::Fail(BranchError::NotAnOid(file.hunks[0].diff().clone()))),
        };
    }
    let content = tape.ask_bytes(Request::ReadBlob { tree, path: file.path.clone() })?;
    match patch_content(content, &file.hunks) {
        Ok(content) => tape.ask_oid(Request::WriteBlob(content)),
        Err(error) => Err(Stop::Fail(error)),
    }
}

/// The blob of a file that exists.
fn new_blob(tape: &mut Tape, tree: Oid, file: &FileDiff, mode: FileMode) -> (r: Result<Oid, Stop>)
    ensures
        outcome(r, final(tape)@) == blob_flow(old(tape)@, tree, file@, mode),
{
    if mode == FileMode::Link {
        let link = tape.ask_link(Request::ReadLink(file.path.clone()))?;
        let content: Vec<u8> = match &link.inside {
            Some(inside) => inside.clone(),
            None => link.raw.clone(),
        };
        assert(content@ =~= link_content(link@));
        return tape.ask_oid(Request::WriteBlob(content));
    }
    let known: bool = tape.ask_flag(Request::HasEntry { tree, path: file.path.clone() })?;
    if known {
        new_content(tape, tree, file)
    } else {
        tape.ask_oid(Request::WriteFileBlob(file.path.clone()))
    }
}

/// What becomes of the entry of a file.
fn tree_edit(tape: &mut Tape, tree: Oid, file: &FileDiff) -> (r: Result<Option<TreeEdit>, Stop>)
    ensures
        outcome_opt(r, final(tape)@) == edit_flow(old(tape)@, tree, file@),
{
    let exists_now: bool = tape.ask_flag(Request::PathExists(file.path.clone()))?;
    if exists_now {
        let stat = tape.ask_stat(Request::FileStat(file.path.clone()))?;
        let mode = file_mode(stat);
        let blob = new_blob(tape, tree, file, mode)?;
        Ok(Some(TreeEdit::Upsert { path: file.path.clone(), blob, mode }))
    } else {
        let known: bool = tape.ask_flag(Request::HasEntry { tree, path: file.path.clone() })?;
        if known {
            Ok(Some(TreeEdit::Remove(file.path.clone())))
        } else {
            Ok(None)
        }
    }
}

/// Writes some hunks out as a tree, on top of a commit.
pub fn write_tree_onto_commit(tape: &mut Tape, commit_oid: Oid, files: &Vec<FileDiff>) -> (r: Result<
    Oid,
    Stop,
>)
    ensures
        outcome(r, final(tape)@) == write_tree_onto_commit_flow(
            old(tape)@,
            commit_oid,
            views(files@),
        ),
{
    let base = tape.ask_commit(Request::FindCommit(commit_oid))?;
    let ghost s = tape@;
    let mut edits: Vec<TreeEdit> = Vec::new();
    let mut i: usize = 0;
    assert(views(edits@) =~= seq![]);
    while i < files.len()
        invariant
            i <= files@.len(),
            edits_flow(s, base.tree, views(files@), 0, seq![]) == edits_flow(
                tape@,
                base.tree,
                views(files@),
                i as int,
                views(edits@),
            ),
            write_tree_onto_commit_flow(old(tape)@, commit_oid, views(files@)) == edits_flow(
                s,
                base.tree,
                views(files@),
                0,
                seq![],
            ).and_then(
                |edits: Seq<TreeEditModel>, s: Seq<ReplyModel>|
                    ask_oid(s, RequestModel::WriteTree { base: base.tree, edits }),
            ),
        decreases files@.len() - i,
    {
        let ghost before = edits@;
        if let Some(edit) = tree_edit(tape, base.tree, &files[i])? {
            edits.push(edit);
            proof {
                lemma_views_push(before, edits@.last());
            }
        }
        i = i + 1;
    }
    tape.ask_oid(Request::WriteTree { base: base.tree, edits })
}

/// Writes some hunks out as a tree, on top of the target.
pub fn write_tree(tape: &mut Tape, target: &Target, files: &Vec<FileDiff>) -> (r: Result<Oid, Stop>)
    ensures
        outcome(r, final(tape)@) == write_tree_flow(old(tape)@, target@, views(files@)),
{
    write_tree_onto_commit(tape, target.sha, files)
}

} // verus!
