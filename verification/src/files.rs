//! The hunks of a diff as they are shown, by file.

use crate::branch::{Commit, CommitModel};
use crate::diff::{DiffHunk, DiffHunkModel, FileDiff, FileDiffModel};
use crate::digest::{diff_hash, diff_hash_of};
use crate::presentation::{VirtualBranchFile, VirtualBranchHunk, VirtualFileModel, VirtualHunkModel};
use crate::protocol::{
    ask_commit, ask_diffs, fail, outcome, outcome_seq, reply_to, BranchError, BranchErrorModel,
    Flow, Reply, ReplyModel, Request, RequestModel, Stop, Tape,
};
use crate::seqs::{lemma_views_push, views};
use crate::text::{decimal, decimal_text};
use crate::times::{get_mtime, get_mtime_flow, FileTime, FileTimeModel};
use vstd::prelude::*;

verus! {

/// The hunks of one file, as they are shown.
#[derive(Debug)]
pub struct FileHunks {
    pub path: String,
    pub hunks: Vec<VirtualBranchHunk>,
}

/// The hunks of one file, as they are shown.
pub struct FileHunksModel {
    pub path: Seq<char>,
    pub hunks: Seq<VirtualHunkModel>,
}

impl View for FileHunks {
    type V = FileHunksModel;

    open spec fn view(&self) -> FileHunksModel {
        FileHunksModel { path: self.path@, hunks: views(self.hunks@) }
    }
}

/// The id of a hunk: its first line, and the line behind its last.
pub open spec fn hunk_id(start: u32, end: u32) -> Seq<char> {
    decimal(start as nat).push('-') + decimal(end as nat)
}

/// A hunk as it is shown.
pub open spec fn shown_hunk(path: Seq<char>, hunk: DiffHunkModel, mtime: u128) -> VirtualHunkModel {
    VirtualHunkModel {
        id: hunk_id(hunk.new_start, hunk.new_end() as u32),
        diff: hunk.diff,
        modified_at: mtime,
        file_path: path,
        hash: diff_hash_of(hunk.diff),
        start: hunk.new_start,
        end: hunk.new_end() as u32,
        binary: hunk.binary,
        locked: false,
    }
}

/// A hunk as it is shown.
fn show_hunk(path: &String, hunk: &DiffHunk, mtime: u128) -> (r: VirtualBranchHunk)
    ensures
        r@ == shown_hunk(path@, hunk@, mtime),
{
    let start: u32 = hunk.new_start();
    let end: u32 = hunk.new_end();
    let mut id: String = decimal_text(start);
    id.push('-');
    id.append(decimal_text(end).as_str());
    VirtualBranchHunk {
        id,
        diff: hunk.diff().clone(),
        modified_at: mtime,
        file_path: path.clone(),
        hash: diff_hash(hunk.diff().as_str()),
        start,
        end,
        binary: hunk.binary(),
        locked: false,
    }
}

/// How showing the hunks of a file comes out, behind those shown already.
pub open spec fn show_hunks_flow(
    s: Seq<ReplyModel>,
    file: FileDiffModel,
    times: Seq<FileTimeModel>,
    shown: Seq<VirtualHunkModel>,
) -> Flow<(Seq<VirtualHunkModel>, Seq<FileTimeModel>)>
    decreases file.hunks.len() - shown.len(),
{
    let i = shown.len() as int;
    if i >= file.hunks.len() {
        Flow::Done((shown, times), s)
    } else {
        get_mtime_flow(s, times, true, file.path).and_then(
            |m: (u128, Seq<FileTimeModel>), s: Seq<ReplyModel>|
                show_hunks_flow(
                    s,
                    file,
                    m.1,
                    shown.push(shown_hunk(file.path, file.hunks[i], m.0)),
                ),
        )
    }
}

/// How showing the files of a diff comes out, behind those shown already.
pub open spec fn show_files_flow(
    s: Seq<ReplyModel>,
    diff: Seq<FileDiffModel>,
    times: Seq<FileTimeModel>,
    shown: Seq<FileHunksModel>,
) -> Flow<Seq<FileHunksModel>>
    decreases diff.len() - shown.len(),
{
    let i = shown.len() as int;
    if i >= diff.len() {
        Flow::Done(shown, s)
    } else {
        show_hunks_flow(s, diff[i], times, seq![]).and_then(
            |h: (Seq<VirtualHunkModel>, Seq<FileTimeModel>), s: Seq<ReplyModel>|
                show_files_flow(
                    s,
                    diff,
                    h.1,
                    shown.push(FileHunksModel { path: diff[i].path, hunks: h.0 }),
                ),
        )
    }
}

/// How showing the hunks of a diff comes out: file by file, each hunk with the time of its file.
pub open spec fn virtual_hunks_by_filepath_flow(s: Seq<ReplyModel>, diff: Seq<FileDiffModel>) -> Flow<
    Seq<FileHunksModel>,
> {
    show_files_flow(s, diff, seq![], seq![])
}

/// Shows the hunks of a file.
fn show_hunks(tape: &mut Tape, file: &FileDiff, times: &mut Vec<FileTime>) -> (r: Result<
    Vec<VirtualBranchHunk>,
    Stop,
>)
    ensures
        (match r {
            Ok(hunks) => Flow::Done((views(hunks@), views(final(times)@)), final(tape)@),
            Err(stop) => Flow::Stop(stop@),
        }) == show_hunks_flow(old(tape)@, file@, views(old(times)@), seq![]),
{
    let mut shown: Vec<VirtualBranchHunk> = Vec::new();
    let mut i: usize = 0;
    assert(views(shown@) =~= seq![]);
    while i < file.hunks.len()
        invariant
            i == shown@.len() <= file.hunks@.len(),
            show_hunks_flow(old(tape)@, file@, views(old(times)@), seq![]) == show_hunks_flow(
                tape@,
                file@,
                views(times@),
                views(shown@),
            ),
        decreases file.hunks@.len() - i,
    {
        let ghost before = shown@;
        let mtime: u128 = get_mtime(tape, times, true, &file.path)?;
        shown.push(show_hunk(&file.path, &file.hunks[i], mtime));
        proof {
            lemma_views_push(before, shown@.last());
        }
        i = i + 1;
    }
    Ok(shown)
}

/// The hunks of a diff as they are shown, by file.
pub fn virtual_hunks_by_filepath(tape: &mut Tape, diff: &Vec<FileDiff>) -> (r: Result<
    Vec<FileHunks>,
    Stop,
>)
    ensures
        outcome_seq(r, final(tape)@) == virtual_hunks_by_filepath_flow(old(tape)@, views(diff@)),
{
    let mut times: Vec<FileTime> = Vec::new();
    let mut shown: Vec<FileHunks> = Vec::new();
    let mut i: usize = 0;
    assert(views(shown@) =~= seq![]);
    assert(views(times@) =~= seq![]);
    while i < diff.len()
        invariant
            i == shown@.len() <= diff@.len(),
            virtual_hunks_by_filepath_flow(old(tape)@, views(diff@)) == show_files_flow(
                tape@,
                views(diff@),
                views(times@),
                views(shown@),
            ),
        decreases diff@.len() - i,
    {
        let ghost before = shown@;
        let hunks = show_hunks(tape, &diff[i], &mut times)?;
        shown.push(FileHunks { path: diff[i].path.clone(), hunks });
        proof {
            lemma_views_push(before, shown@.last());
        }
        i = i + 1;
    }
    Ok(shown)
}

/// All hunks of some files, one file after the other.
pub open spec fn all_shown(files: Seq<FileHunksModel>) -> Seq<VirtualHunkModel>
    decreases files.len(),
{
    if files.len() == 0 {
        seq![]
    } else {
        all_shown(files.drop_last()) + files.last().hunks
    }
}

/// All hunks of some files.
fn flatten(files: &Vec<FileHunks>) -> (hunks: Vec<VirtualBranchHunk>)
    ensures
        views(hunks@) == all_shown(views(files@)),
{
    let ghost all = views(files@);
    let mut hunks: Vec<VirtualBranchHunk> = Vec::new();
    let mut i: usize = 0;
    proof {
        assert(all.take(0) =~= seq![]);
        assert(views(hunks@) =~= seq![]);
    }
    while i < files.len()
        invariant
            i <= files@.len(),
            all == views(files@),
            views(hunks@) == all_shown(all.take(i as int)),
        decreases files@.len() - i,
    {
        let ghost before = views(hunks@);
        let mut more: Vec<VirtualBranchHunk> = files[i].hunks.clone();
        proof {
            assert(views(more@) =~= all[i as int].hunks);
            assert(all.take(i + 1).drop_last() =~= all.take(i as int));
        }
        let ghost added = views(more@);
        hunks.append(&mut more);
        assert(views(hunks@) =~= before + added);
        i = i + 1;
    }
    assert(all.take(i as int) =~= all);
    hunks
}

/// The position of a file, or the number of files where it is not there.
pub open spec fn group_of(files: Seq<FileHunksModel>, path: Seq<char>) -> int
    decreases files.len(),
{
    if files.len() == 0 || files[0].path == path {
        0
    } else {
        1 + group_of(files.drop_first(), path)
    }
}

/// Some files with one more hunk, which comes last in its file. A file that is not there yet comes
/// last.
pub open spec fn with_hunk(files: Seq<FileHunksModel>, hunk: VirtualHunkModel) -> Seq<FileHunksModel> {
    let at = group_of(files, hunk.file_path);
    if at < files.len() {
        files.update(
            at,
            FileHunksModel { path: files[at].path, hunks: files[at].hunks.push(hunk) },
        )
    } else {
        files.push(FileHunksModel { path: hunk.file_path, hunks: seq![hunk] })
    }
}

/// Some hunks by file.
pub open spec fn grouped(hunks: Seq<VirtualHunkModel>) -> Seq<FileHunksModel>
    decreases hunks.len(),
{
    if hunks.len() == 0 {
        seq![]
    } else {
        with_hunk(grouped(hunks.drop_last()), hunks.last())
    }
}

/// Adds one more hunk to some files.
fn add_hunk(files: &mut Vec<FileHunks>, hunk: &VirtualBranchHunk)
    ensures
        views(final(files)@) == with_hunk(views(old(files)@), hunk@),
{
    let ghost all = views(files@);
    let ghost before = files@;
    let mut at: usize = 0;
    assert(all.skip(0) =~= all);
    while at < files.len() && files[at].path != hunk.file_path
        invariant
            *files == *old(files),
            all == views(files@),
            at <= files@.len(),
            group_of(all, hunk@.file_path) == at + group_of(all.skip(at as int), hunk@.file_path),
        decreases files@.len() - at,
    {
        assert(all.skip(at as int).drop_first() =~= all.skip(at + 1));
        at = at + 1;
    }
    if at < files.len() {
        let mut hunks: Vec<VirtualBranchHunk> = files[at].hunks.clone();
        assert(views(hunks@) =~= all[at as int].hunks);
        let ghost old_hunks = hunks@;
        hunks.push(hunk.clone());
        proof {
            lemma_views_push(old_hunks, hunks@.last());
        }
        let path: String = files[at].path.clone();
        files.set(at, FileHunks { path, hunks });
        assert(views(files@) =~= all.update(
            at as int,
            FileHunksModel {
                path: all[at as int].path,
                hunks: all[at as int].hunks.push(hunk@),
            },
        ));
    } else {
        let mut hunks: Vec<VirtualBranchHunk> = Vec::new();
        hunks.push(hunk.clone());
        assert(views(hunks@) =~= seq![hunk@]);
        files.push(FileHunks { path: hunk.file_path.clone(), hunks });
        proof {
            lemma_views_push(before, files@.last());
        }
    }
}

/// Some hunks by file.
fn group(hunks: &Vec<VirtualBranchHunk>) -> (files: Vec<FileHunks>)
    ensures
        views(files@) == grouped(views(hunks@)),
{
    let ghost all = views(hunks@);
    let mut files: Vec<FileHunks> = Vec::new();
    let mut i: usize = 0;
    proof {
        assert(all.take(0) =~= seq![]);
        assert(views(files@) =~= seq![]);
    }
    while i < hunks.len()
        invariant
            i <= hunks@.len(),
            all == views(hunks@),
            views(files@) == grouped(all.take(i as int)),
        decreases hunks@.len() - i,
    {
        assert(all.take(i + 1).drop_last() =~= all.take(i as int));
        add_hunk(&mut files, &hunks[i]);
        i = i + 1;
    }
    assert(all.take(i as int) =~= all);
    files
}

/// Whether one of some hunks is binary.
pub open spec fn any_binary(hunks: Seq<VirtualHunkModel>) -> bool {
    exists|i: int| 0 <= i < hunks.len() && (#[trigger] hunks[i]).binary
}

/// The latest time of some hunks.
pub open spec fn latest(hunks: Seq<VirtualHunkModel>) -> u128
    decreases hunks.len(),
{
    if hunks.len() == 0 {
        0
    } else {
        let before = latest(hunks.drop_last());
        if hunks.last().modified_at > before {
            hunks.last().modified_at
        } else {
            before
        }
    }
}

/// The latest time of some hunks is that of one of them, and none is later.
pub proof fn latest_is_the_largest(hunks: Seq<VirtualHunkModel>)
    ensures
        forall|i: int| 0 <= i < hunks.len() ==> (#[trigger] hunks[i]).modified_at <= latest(hunks),
        hunks.len() > 0 ==> exists|i: int|
            0 <= i < hunks.len() && (#[trigger] hunks[i]).modified_at == latest(hunks),
    decreases hunks.len(),
{
    if hunks.len() > 0 {
        let before = hunks.drop_last();
        latest_is_the_largest(before);
        assert forall|i: int| 0 <= i < hunks.len() implies (#[trigger] hunks[i]).modified_at
            <= latest(hunks) by {
            if i < before.len() {
                assert(hunks[i] == before[i]);
            }
        }
        if hunks.last().modified_at > latest(before) || before.len() == 0 {
            assert(hunks[hunks.len() - 1].modified_at == latest(hunks));
        } else {
            let i = choose|i: int|
                0 <= i < before.len() && (#[trigger] before[i]).modified_at == latest(before);
            assert(hunks[i].modified_at == latest(hunks));
        }
    }
}

/// A file as it is shown.
pub open spec fn shown_file(file: FileHunksModel, conflicted: bool) -> VirtualFileModel {
    VirtualFileModel {
        id: file.path,
        path: file.path,
        hunks: file.hunks,
        modified_at: latest(file.hunks),
        conflicted,
        binary: any_binary(file.hunks),
    }
}

/// Whether one of some hunks is binary.
fn is_any_binary(hunks: &Vec<VirtualBranchHunk>) -> (r: bool)
    ensures
        r == any_binary(views(hunks@)),
{
    let mut i: usize = 0;
    while i < hunks.len()
        invariant
            i <= hunks@.len(),
            forall|k: int| 0 <= k < i ==> !(#[trigger] views(hunks@)[k]).binary,
        decreases hunks@.len() - i,
    {
        if hunks[i].binary {
            assert(views(hunks@)[i as int].binary);
            return true;
        }
        i = i + 1;
    }
    false
}

/// The latest time of some hunks.
fn latest_time(hunks: &Vec<VirtualBranchHunk>) -> (time: u128)
    ensures
        time == latest(views(hunks@)),
{
    let ghost all = views(hunks@);
    let mut time: u128 = 0;
    let mut i: usize = 0;
    assert(all.take(0) =~= seq![]);
    while i < hunks.len()
        invariant
            i <= hunks@.len(),
            all == views(hunks@),
            time == latest(all.take(i as int)),
        decreases hunks@.len() - i,
    {
        assert(all.take(i + 1).drop_last() =~= all.take(i as int));
        if hunks[i].modified_at > time {
            time = hunks[i].modified_at;
        }
        i = i + 1;
    }
    assert(all.take(i as int) =~= all);
    time
}

/// How asking whether a file is in conflict comes out: it is not where that cannot be told.
pub open spec fn is_conflicted_flow(s: Seq<ReplyModel>, path: Seq<char>) -> Flow<bool> {
    reply_to(s, RequestModel::IsConflicting(Some(path))).and_then(
        |reply: ReplyModel, s: Seq<ReplyModel>|
            match reply {
                ReplyModel::Flag(conflicted) => Flow::Done(conflicted, s),
                ReplyModel::Failed(_) => Flow::Done(false, s),
                _ => fail(BranchErrorModel::UnexpectedReply),
            },
    )
}

/// How showing some files comes out, behind those shown already.
pub open spec fn to_files_flow(
    s: Seq<ReplyModel>,
    groups: Seq<FileHunksModel>,
    shown: Seq<VirtualFileModel>,
) -> Flow<Seq<VirtualFileModel>>
    decreases groups.len() - shown.len(),
{
    let i = shown.len() as int;
    if i >= groups.len() {
        Flow::Done(shown, s)
    } else {
        is_conflicted_flow(s, groups[i].path).and_then(
            |conflicted: bool, s: Seq<ReplyModel>|
                to_files_flow(s, groups, shown.push(shown_file(groups[i], conflicted))),
        )
    }
}

/// How showing some hunks by file comes out.
pub open spec fn virtual_hunks_to_virtual_files_flow(
    s: Seq<ReplyModel>,
    hunks: Seq<VirtualHunkModel>,
) -> Flow<Seq<VirtualFileModel>> {
    to_files_flow(s, grouped(hunks), seq![])
}

/// Whether a file is in conflict.
fn is_conflicted(tape: &mut Tape, path: &String) -> (r: Result<bool, Stop>)
    ensures
        outcome(r, final(tape)@) == is_conflicted_flow(old(tape)@, path@),
{
    match tape.reply_to(Request::IsConflicting(Some(path.clone())))? {
        Reply::Flag(conflicted) => Ok(*conflicted),
        Reply::Failed(_) => Ok(false),
        _ => Err(Stop::Fail(BranchError::UnexpectedReply)),
    }
}

/// Some hunks as files.
pub fn virtual_hunks_to_virtual_files(tape: &mut Tape, hunks: &Vec<VirtualBranchHunk>) -> (r: Result<
    Vec<VirtualBranchFile>,
    Stop,
>)
    ensures
        outcome_seq(r, final(tape)@) == virtual_hunks_to_virtual_files_flow(
            old(tape)@,
            views(hunks@),
        ),
{
    let groups = group(hunks);
    let mut shown: Vec<VirtualBranchFile> = Vec::new();
    let mut i: usize = 0;
    assert(views(shown@) =~= seq![]);
    while i < groups.len()
        invariant
            i == shown@.len() <= groups@.len(),
            virtual_hunks_to_virtual_files_flow(old(tape)@, views(hunks@)) == to_files_flow(
                tape@,
                views(groups@),
                views(shown@),
            ),
        decreases groups@.len() - i,
    {
        let ghost before = shown@;
        let file = &groups[i];
        let conflicted: bool = is_conflicted(tape, &file.path)?;
        let copies: Vec<VirtualBranchHunk> = file.hunks.clone();
        assert(views(copies@) =~= views(groups@)[i as int].hunks);
        shown.push(
            VirtualBranchFile {
                id: file.path.clone(),
                path: file.path.clone(),
                binary: is_any_binary(&copies),
                modified_at: latest_time(&copies),
                conflicted,
                hunks: copies,
            },
        );
        proof {
            lemma_views_push(before, shown@.last());
        }
        i = i + 1;
    }
    Ok(shown)
}

/// How showing a diff as files comes out.
pub open spec fn diffs_to_virtual_files_flow(s: Seq<ReplyModel>, diffs: Seq<FileDiffModel>) -> Flow<
    Seq<VirtualFileModel>,
> {
    virtual_hunks_by_filepath_flow(s, diffs).and_then(
        |files: Seq<FileHunksModel>, s: Seq<ReplyModel>|
            virtual_hunks_to_virtual_files_flow(s, all_shown(files)),
    )
}

/// A diff as files.
pub fn diffs_to_virtual_files(tape: &mut Tape, diffs: &Vec<FileDiff>) -> (r: Result<
    Vec<VirtualBranchFile>,
    Stop,
>)
    ensures
        outcome_seq(r, final(tape)@) == diffs_to_virtual_files_flow(old(tape)@, views(diffs@)),
{
    let files = virtual_hunks_by_filepath(tape, diffs)?;
    virtual_hunks_to_virtual_files(tape, &flatten(&files))
}

/// How finding the files that a commit changes comes out: what differs between it and its first
/// parent. A commit without parents changes none.
pub open spec fn list_virtual_commit_files_flow(s: Seq<ReplyModel>, commit: CommitModel) -> Flow<
    Seq<VirtualFileModel>,
> {
    if commit.parents.len() == 0 {
        Flow::Done(seq![], s)
    } else {
        ask_commit(s, RequestModel::FindCommit(commit.parents[0])).and_then(
            |parent: CommitModel, s: Seq<ReplyModel>|
                ask_diffs(s, RequestModel::DiffTrees(parent.tree, commit.tree)).and_then(
                    |diffs: Seq<FileDiffModel>, s: Seq<ReplyModel>|
                        diffs_to_virtual_files_flow(s, diffs),
                ),
        )
    }
}

/// The files that a commit changes.
pub fn list_virtual_commit_files(tape: &mut Tape, commit: &Commit) -> (r: Result<
    Vec<VirtualBranchFile>,
    Stop,
>)
    ensures
        outcome_seq(r, final(tape)@) == list_virtual_commit_files_flow(old(tape)@, commit@),
{
    if commit.parents.len() == 0 {
        let none: Vec<VirtualBranchFile> = Vec::new();
        assert(views(none@) =~= seq![]);
        return Ok(none);
    }
    let parent = tape.ask_commit(Request::FindCommit(commit.parents[0]))?;
    let diffs = tape.ask_diffs(Request::DiffTrees(parent.tree, commit.tree))?;
    diffs_to_virtual_files(tape, &diffs)
}

proof fn lemma_group_of(files: Seq<FileHunksModel>, path: Seq<char>)
    ensures
        0 <= group_of(files, path) <= files.len(),
        group_of(files, path) < files.len() ==> files[group_of(files, path)].path == path,
        forall|k: int| 0 <= k < group_of(files, path) ==> (#[trigger] files[k]).path != path,
    decreases files.len(),
{
    if files.len() > 0 && files[0].path != path {
        lemma_group_of(files.drop_first(), path);
        assert forall|k: int| 0 <= k < group_of(files, path) implies (#[trigger] files[k]).path
            != path by {
            if k > 0 {
                assert(files[k] == files.drop_first()[k - 1]);
            }
        }
    }
}

/// Whether every file holds hunks of its own path only, and no two files have the same path.
pub open spec fn by_path(files: Seq<FileHunksModel>) -> bool {
    &&& forall|i: int, k: int|
        0 <= i < files.len() && 0 <= k < files[i].hunks.len() ==> (
        #[trigger] files[i].hunks[k]).file_path == files[i].path
    &&& forall|i: int, j: int|
        0 <= i < j < files.len() ==> (#[trigger] files[i]).path != (#[trigger] files[j]).path
}

proof fn lemma_all_shown_update(files: Seq<FileHunksModel>, at: int, hunk: VirtualHunkModel)
    requires
        0 <= at < files.len(),
    ensures
        all_shown(
            files.update(
                at,
                FileHunksModel { path: files[at].path, hunks: files[at].hunks.push(hunk) },
            ),
        ).to_multiset() == all_shown(files).to_multiset().insert(hunk),
    decreases files.len(),
{
    broadcast use vstd::seq_lib::group_to_multiset_ensures;

    let file = FileHunksModel { path: files[at].path, hunks: files[at].hunks.push(hunk) };
    let new = files.update(at, file);
    let before = files.drop_last();
    if at == files.len() - 1 {
        assert(new.drop_last() =~= before);
        assert(all_shown(new) =~= all_shown(files).push(hunk));
    } else {
        assert(new.drop_last() =~= before.update(at, file));
        lemma_all_shown_update(before, at, hunk);
        vstd::seq_lib::lemma_multiset_commutative(all_shown(new.drop_last()), files.last().hunks);
        vstd::seq_lib::lemma_multiset_commutative(all_shown(before), files.last().hunks);
        assert(all_shown(before).to_multiset().insert(hunk).add(files.last().hunks.to_multiset())
            =~= all_shown(before).to_multiset().add(files.last().hunks.to_multiset()).insert(hunk));
    }
}

/// Sorting hunks into files neither adds nor loses any, and each stands in the file of its path.
pub proof fn grouping_keeps_the_hunks(hunks: Seq<VirtualHunkModel>)
    ensures
        by_path(grouped(hunks)),
        all_shown(grouped(hunks)).to_multiset() == hunks.to_multiset(),
    decreases hunks.len(),
{
    broadcast use vstd::seq_lib::group_to_multiset_ensures;

    if hunks.len() > 0 {
        let before = grouped(hunks.drop_last());
        let hunk = hunks.last();
        let new = grouped(hunks);
        grouping_keeps_the_hunks(hunks.drop_last());
        lemma_group_of(before, hunk.file_path);
        let at = group_of(before, hunk.file_path);
        assert(hunks =~= hunks.drop_last().push(hunk));
        if at < before.len() {
            lemma_all_shown_update(before, at, hunk);
            assert forall|i: int, k: int|
                0 <= i < new.len() && 0 <= k < new[i].hunks.len() implies (
            #[trigger] new[i].hunks[k]).file_path == new[i].path by {
                if i == at {
                    if k < before[at].hunks.len() {
                        assert(new[i].hunks[k] == before[at].hunks[k]);
                    }
                } else {
                    assert(new[i] == before[i]);
                }
            }
            assert forall|i: int| 0 <= i < new.len() implies (#[trigger] new[i]).path
                == before[i].path by {}
        } else {
            assert(new.drop_last() =~= before);
            assert(all_shown(new) =~= all_shown(before).push(hunk));
            assert forall|i: int, k: int|
                0 <= i < new.len() && 0 <= k < new[i].hunks.len() implies (
            #[trigger] new[i].hunks[k]).file_path == new[i].path by {
                if i < before.len() {
                    assert(new[i] == before[i]);
                    assert(before[i].hunks[k].file_path == before[i].path);
                }
            }
            assert forall|i: int, j: int| 0 <= i < j < new.len() implies (#[trigger] new[i]).path
                != (#[trigger] new[j]).path by {
                assert(new[i] == before[i]);
                if j < before.len() {
                    assert(new[j] == before[j]);
                }
            }
        }
    }
}

} // verus!
