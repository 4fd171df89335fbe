//! How hunks are shown, file by file.

use crate::dialogue::{after, comes_to, goes_through, lemma_goes_on, lemma_told, Step};
use crate::diff::{DiffHunkModel, FileDiffModel};
use crate::digest::diff_hash_of;
use crate::files::{
    all_shown, diffs_to_virtual_files_flow, group_of, grouped, latest_is_the_largest,
    show_files_flow, show_hunks_flow, shown_file, shown_hunk, to_files_flow,
    virtual_hunks_by_filepath_flow, virtual_hunks_to_virtual_files_flow, with_hunk, FileHunksModel,
};
use crate::listing::{all_with_locks, place_among};
use crate::owned::is_first_of;
use crate::ownership::{lemma_position_of, position_of, FileOwnershipModel};
use crate::presentation::{VirtualFileModel, VirtualHunkModel};
use crate::protocol::{Flow, ReplyModel, RequestModel, StopModel};
use crate::text::decimal;
use crate::times::{get_mtime_flow, FileTimeModel};
use vstd::prelude::*;

verus! {

/// Whether a hunk is shown as it is: with its text, its hash and its lines, which also make its id.
pub open spec fn is_shown_hunk(
    shown: VirtualHunkModel,
    path: Seq<char>,
    hunk: DiffHunkModel,
) -> bool {
    &&& shown.diff == hunk.diff
    &&& shown.hash == diff_hash_of(hunk.diff)
    &&& shown.file_path == path
    &&& shown.start == hunk.new_start
    &&& shown.end == hunk.new_start + hunk.new_lines
    &&& shown.id == decimal(shown.start as nat) + seq!['-'] + decimal(shown.end as nat)
    &&& shown.binary == hunk.binary
    &&& !shown.locked
}

/// Whether all hunks of a file are shown, in their order.
pub open spec fn is_shown_file(shown: FileHunksModel, file: FileDiffModel) -> bool {
    &&& shown.path == file.path
    &&& shown.hunks.len() == file.hunks.len()
    &&& forall|k: int|
        0 <= k < file.hunks.len() ==> is_shown_hunk(
            #[trigger] shown.hunks[k],
            file.path,
            file.hunks[k],
        )
}

/// Whether the lines of all hunks of a file can be counted.
pub open spec fn lines_fit(file: FileDiffModel) -> bool {
    forall|k: int|
        0 <= k < file.hunks.len() ==> (#[trigger] file.hunks[k]).new_start + file.hunks[k].new_lines
            <= u32::MAX
}

proof fn lemma_show_hunks(
    s: Seq<ReplyModel>,
    file: FileDiffModel,
    times: Seq<FileTimeModel>,
    shown: Seq<VirtualHunkModel>,
)
    requires
        lines_fit(file),
        shown.len() <= file.hunks.len(),
        forall|k: int|
            0 <= k < shown.len() ==> is_shown_hunk(
                #[trigger] shown[k],
                file.path,
                file.hunks[k],
            ),
    ensures
        show_hunks_flow(s, file, times, shown) matches Flow::Done(r, _) ==> is_shown_file(
            FileHunksModel { path: file.path, hunks: r.0 },
            file,
        ),
    decreases file.hunks.len() - shown.len(),
{
    if shown.len() < file.hunks.len() {
        if let Flow::Done(m, rest) = get_mtime_flow(s, times, true, file.path) {
            let i = shown.len() as int;
            let next = shown_hunk(file.path, file.hunks[i], m.0);
            let id = decimal(next.start as nat);
            assert(id.push('-') =~= id + seq!['-']);
            assert(is_shown_hunk(next, file.path, file.hunks[i]));
            lemma_show_hunks(rest, file, m.1, shown.push(next));
        }
    }
}

proof fn lemma_show_files(
    s: Seq<ReplyModel>,
    diff: Seq<FileDiffModel>,
    times: Seq<FileTimeModel>,
    shown: Seq<FileHunksModel>,
)
    requires
        forall|i: int| 0 <= i < diff.len() ==> lines_fit(#[trigger] diff[i]),
        shown.len() <= diff.len(),
        forall|i: int| 0 <= i < shown.len() ==> is_shown_file(#[trigger] shown[i], diff[i]),
    ensures
        show_files_flow(s, diff, times, shown) matches Flow::Done(r, _) ==> {
            &&& r.len() == diff.len()
            &&& forall|i: int| 0 <= i < diff.len() ==> is_shown_file(#[trigger] r[i], diff[i])
        },
    decreases diff.len() - shown.len(),
{
    if shown.len() < diff.len() {
        let i = shown.len() as int;
        assert(lines_fit(diff[i]));
        lemma_show_hunks(s, diff[i], times, seq![]);
        if let Flow::Done(h, rest) = show_hunks_flow(s, diff[i], times, seq![]) {
            lemma_show_files(
                rest,
                diff,
                h.1,
                shown.push(FileHunksModel { path: diff[i].path, hunks: h.0 }),
            );
        }
    }
}

/// Every hunk of a diff is shown, file by file and in their order, with its text, its hash and its
/// lines.
pub proof fn every_hunk_is_shown(s: Seq<ReplyModel>, diff: Seq<FileDiffModel>)
    requires
        forall|i: int| 0 <= i < diff.len() ==> lines_fit(#[trigger] diff[i]),
    ensures
        virtual_hunks_by_filepath_flow(s, diff) matches Flow::Done(shown, _) ==> {
            &&& shown.len() == diff.len()
            &&& forall|i: int| 0 <= i < diff.len() ==> is_shown_file(#[trigger] shown[i], diff[i])
        },
{
    lemma_show_files(s, diff, seq![], seq![]);
}

/// Whether some files are told apart by their paths, none of them without hunks.
pub open spec fn is_filed(files: Seq<FileHunksModel>) -> bool {
    &&& forall|i: int, j: int|
        0 <= i < j < files.len() ==> (#[trigger] files[i]).path != (#[trigger] files[j]).path
    &&& forall|i: int| 0 <= i < files.len() ==> (#[trigger] files[i]).hunks.len() > 0
    &&& forall|i: int, k: int|
        #![trigger files[i].hunks[k]]
        0 <= i < files.len() && 0 <= k < files[i].hunks.len() ==> files[i].hunks[k].file_path
            == files[i].path
}

proof fn lemma_no_group(files: Seq<FileHunksModel>, path: Seq<char>)
    requires
        forall|i: int| 0 <= i < files.len() ==> (#[trigger] files[i]).path != path,
    ensures
        group_of(files, path) == files.len(),
    decreases files.len(),
{
    if files.len() > 0 {
        assert(files[0].path != path);
        let rest = files.drop_first();
        assert forall|i: int| 0 <= i < rest.len() implies (#[trigger] rest[i]).path != path by {
            assert(files[i + 1].path != path);
        }
        lemma_no_group(rest, path);
    }
}

proof fn lemma_last_group(files: Seq<FileHunksModel>, path: Seq<char>)
    requires
        files.len() > 0,
        files.last().path == path,
        forall|i: int| 0 <= i < files.len() - 1 ==> (#[trigger] files[i]).path != path,
    ensures
        group_of(files, path) == files.len() - 1,
    decreases files.len(),
{
    if files.len() > 1 {
        assert(files[0].path != path);
        let rest = files.drop_first();
        assert forall|i: int| 0 <= i < rest.len() - 1 implies (#[trigger] rest[i]).path != path by {
            assert(files[i + 1].path != path);
        }
        lemma_last_group(rest, path);
    }
}

proof fn lemma_file_hunks(before: Seq<FileHunksModel>, last: FileHunksModel, n: int)
    requires
        0 < n <= last.hunks.len(),
        is_filed(before.push(last)),
        grouped(all_shown(before)) == before,
    ensures
        grouped(all_shown(before) + last.hunks.take(n)) == before.push(
            FileHunksModel { path: last.path, hunks: last.hunks.take(n) },
        ),
    decreases n,
{
    let files = before.push(last);
    let hunks = all_shown(before) + last.hunks.take(n);
    let hunk = last.hunks[n - 1];
    assert(files[before.len() as int].hunks[n - 1].file_path == last.path);
    assert(hunks.last() == hunk);
    assert(hunks.drop_last() =~= all_shown(before) + last.hunks.take(n - 1));
    assert forall|i: int| 0 <= i < before.len() implies (#[trigger] before[i]).path
        != last.path by {
        assert(files[i].path != files[before.len() as int].path);
    }
    if n == 1 {
        assert(hunks.drop_last() =~= all_shown(before));
        lemma_no_group(before, last.path);
        assert(last.hunks.take(1) =~= seq![hunk]);
    } else {
        lemma_file_hunks(before, last, n - 1);
        let so_far = before.push(
            FileHunksModel { path: last.path, hunks: last.hunks.take(n - 1) },
        );
        lemma_last_group(so_far, last.path);
        assert(last.hunks.take(n - 1).push(hunk) =~= last.hunks.take(n));
        assert(with_hunk(so_far, hunk) =~= before.push(
            FileHunksModel { path: last.path, hunks: last.hunks.take(n) },
        ));
    }
}

/// Sorting the hunks of some files into files gives the same files again.
pub proof fn hunks_go_back_to_their_files(files: Seq<FileHunksModel>)
    requires
        is_filed(files),
    ensures
        grouped(all_shown(files)) == files,
    decreases files.len(),
{
    if files.len() > 0 {
        let before = files.drop_last();
        let last = files.last();
        assert forall|i: int, k: int|
            #![trigger before[i].hunks[k]]
            0 <= i < before.len() && 0 <= k
                < before[i].hunks.len() implies before[i].hunks[k].file_path == before[i].path by {
            assert(files[i].hunks[k].file_path == files[i].path);
        }
        hunks_go_back_to_their_files(before);
        assert(before.push(last) =~= files);
        assert(files[files.len() - 1].hunks.len() > 0);
        lemma_file_hunks(before, last, last.hunks.len() as int);
        assert(last.hunks.take(last.hunks.len() as int) =~= last.hunks);
    } else {
        assert(files =~= seq![]);
    }
}

/// The steps that find out which of some files are in conflict, from the given one on.
pub open spec fn conflicts_from(
    files: Seq<FileHunksModel>,
    replies: Seq<ReplyModel>,
    i: int,
) -> Seq<Step>
    decreases files.len() - i,
{
    if i < 0 || i >= files.len() {
        seq![]
    } else {
        seq![Step::Ask(RequestModel::IsConflicting(Some(files[i].path)), replies[i])] + conflicts_from(
            files,
            replies,
            i + 1,
        )
    }
}

/// A file as it is shown: it is in conflict where that is the reply, and not where there is no
/// telling; it is binary where one of its hunks is; and it was changed when the latest of its hunks
/// was.
pub open spec fn is_shown_as(
    shown: VirtualFileModel,
    file: FileHunksModel,
    reply: ReplyModel,
) -> bool {
    &&& shown.id == file.path
    &&& shown.path == file.path
    &&& shown.hunks == file.hunks
    &&& shown.conflicted <==> reply == ReplyModel::Flag(true)
    &&& shown.binary <==> exists|k: int| 0 <= k < file.hunks.len() && (#[trigger] file.hunks[k]).binary
    &&& forall|k: int|
        0 <= k < file.hunks.len() ==> (#[trigger] file.hunks[k]).modified_at <= shown.modified_at
    &&& file.hunks.len() > 0 ==> exists|k: int|
        0 <= k < file.hunks.len() && (#[trigger] file.hunks[k]).modified_at == shown.modified_at
}

proof fn lemma_to_files(
    files: Seq<FileHunksModel>,
    replies: Seq<ReplyModel>,
    shown: Seq<VirtualFileModel>,
    i: int,
)
    requires
        0 <= i <= files.len(),
        replies.len() == files.len(),
        shown.len() == files.len(),
        forall|k: int|
            0 <= k < files.len() ==> (#[trigger] replies[k] is Flag || replies[k] is Failed)
                && shown[k] == shown_file(files[k], replies[k] == ReplyModel::Flag(true)),
    ensures
        comes_to(
            |s: Seq<ReplyModel>| to_files_flow(s, files, shown.take(i)),
            conflicts_from(files, replies, i),
            shown,
        ),
    decreases files.len() - i,
{
    broadcast use lemma_told;

    if i < files.len() {
        assert(replies[i] is Flag || replies[i] is Failed);
        assert(shown.take(i).push(shown[i]) =~= shown.take(i + 1));
        lemma_to_files(files, replies, shown, i + 1);
        reveal_with_fuel(after, 2);
        reveal_with_fuel(goes_through, 2);
        lemma_goes_on(
            |s: Seq<ReplyModel>| to_files_flow(s, files, shown.take(i)),
            |s: Seq<ReplyModel>| to_files_flow(s, files, shown.take(i + 1)),
            seq![Step::Ask(RequestModel::IsConflicting(Some(files[i].path)), replies[i])],
            conflicts_from(files, replies, i + 1),
        );
    } else {
        assert(shown.take(i) =~= shown);
    }
}

/// Whether some files are shown as they are.
pub open spec fn are_shown_as(
    shown: Seq<VirtualFileModel>,
    files: Seq<FileHunksModel>,
    replies: Seq<ReplyModel>,
) -> bool {
    &&& shown.len() == files.len()
    &&& forall|k: int|
        0 <= k < files.len() ==> is_shown_as(#[trigger] shown[k], files[k], replies[k])
}

/// Hunks are shown by file, each file with all its hunks and with whether it is in conflict.
pub proof fn files_are_shown_with_their_hunks(files: Seq<FileHunksModel>, replies: Seq<ReplyModel>)
    requires
        is_filed(files),
        replies.len() == files.len(),
        forall|k: int| 0 <= k < files.len() ==> #[trigger] replies[k] is Flag || replies[k] is Failed,
    ensures
        goes_through(
            |s: Seq<ReplyModel>| virtual_hunks_to_virtual_files_flow(s, all_shown(files)),
            conflicts_from(files, replies, 0),
        ),
        forall|rest: Seq<ReplyModel>| #[trigger]
            virtual_hunks_to_virtual_files_flow(
                after(conflicts_from(files, replies, 0), rest),
                all_shown(files),
            ) matches Flow::Done(shown, left) && left == rest && are_shown_as(
                shown,
                files,
                replies,
            ),
{
    let shown = Seq::new(
        files.len(),
        |k: int| shown_file(files[k], replies[k] == ReplyModel::Flag(true)),
    );
    let steps = conflicts_from(files, replies, 0);
    assert(shown.take(0) =~= seq![]);
    hunks_go_back_to_their_files(files);
    lemma_to_files(files, replies, shown, 0);
    assert forall|k: int| 0 <= k < files.len() implies is_shown_as(
        #[trigger] shown[k],
        files[k],
        replies[k],
    ) by {
        latest_is_the_largest(files[k].hunks);
    }
    let op = |s: Seq<ReplyModel>| virtual_hunks_to_virtual_files_flow(s, all_shown(files));
    let filing = |s: Seq<ReplyModel>| to_files_flow(s, files, shown.take(0));
    assert(op =~= filing);
    assert forall|rest: Seq<ReplyModel>| #[trigger]
        virtual_hunks_to_virtual_files_flow(after(steps, rest), all_shown(files)) == Flow::Done(
            shown,
            rest,
        ) by {
        assert(filing(after(steps, rest)) == Flow::Done(shown, rest));
    }
}

/// A diff is shown as its hunks are, and then by file.
pub proof fn a_diff_is_shown_by_its_hunks(
    diffs: Seq<FileDiffModel>,
    looked: Seq<ReplyModel>,
    files: Seq<FileHunksModel>,
    filed: Seq<ReplyModel>,
    shown: Seq<VirtualFileModel>,
)
    requires
        forall|more: Seq<ReplyModel>| #[trigger]
            virtual_hunks_by_filepath_flow(looked + more, diffs) == Flow::Done(files, more),
        forall|more: Seq<ReplyModel>| #[trigger]
            virtual_hunks_to_virtual_files_flow(filed + more, all_shown(files)) == Flow::Done(
                shown,
                more,
            ),
    ensures
        comes_to(
            |s: Seq<ReplyModel>| diffs_to_virtual_files_flow(s, diffs),
            seq![Step::Part(looked), Step::Part(filed)],
            shown,
        ),
{
    reveal_with_fuel(after, 3);
    reveal_with_fuel(goes_through, 3);
}

proof fn lemma_times_of_hunks(
    s: Seq<ReplyModel>,
    file: FileDiffModel,
    times: Seq<FileTimeModel>,
    shown: Seq<VirtualHunkModel>,
)
    requires
        shown.len() <= file.hunks.len(),
    ensures
        show_hunks_flow(s, file, times, shown) matches Flow::Stop(StopModel::Ask(request))
            ==> request == RequestModel::Now || request == (RequestModel::FileTimes {
            in_repository: true,
            path: file.path,
        }),
    decreases file.hunks.len() - shown.len(),
{
    if shown.len() < file.hunks.len() {
        let i = shown.len() as int;
        if let Flow::Done(m, rest) = get_mtime_flow(s, times, true, file.path) {
            lemma_times_of_hunks(
                rest,
                file,
                m.1,
                shown.push(shown_hunk(file.path, file.hunks[i], m.0)),
            );
        }
    }
}

proof fn lemma_times_of_files(
    s: Seq<ReplyModel>,
    diff: Seq<FileDiffModel>,
    times: Seq<FileTimeModel>,
    shown: Seq<FileHunksModel>,
)
    requires
        shown.len() <= diff.len(),
    ensures
        show_files_flow(s, diff, times, shown) matches Flow::Stop(StopModel::Ask(request))
            ==> request == RequestModel::Now || asks_time_of(request, true, diff),
    decreases diff.len() - shown.len(),
{
    if shown.len() < diff.len() {
        let i = shown.len() as int;
        lemma_times_of_hunks(s, diff[i], times, seq![]);
        match show_hunks_flow(s, diff[i], times, seq![]) {
            Flow::Done(h, rest) => {
                lemma_times_of_files(
                    rest,
                    diff,
                    h.1,
                    shown.push(FileHunksModel { path: diff[i].path, hunks: h.0 }),
                );
            },
            Flow::Stop(_) => {},
        }
    }
}

/// Whether the time of a file of a diff is asked for, as one below the git directory or as it stands.
pub open spec fn asks_time_of(
    request: RequestModel,
    in_repository: bool,
    diff: Seq<FileDiffModel>,
) -> bool {
    exists|i: int|
        0 <= i < diff.len() && request == (RequestModel::FileTimes {
            in_repository,
            path: (#[trigger] diff[i]).path,
        })
}

/// To show hunks, nothing is asked for but the times of their files, as paths below the git
/// directory, and the present.
pub proof fn only_times_are_asked_for_to_show_hunks(s: Seq<ReplyModel>, diff: Seq<FileDiffModel>)
    ensures
        virtual_hunks_by_filepath_flow(s, diff) matches Flow::Stop(StopModel::Ask(request))
            ==> request == RequestModel::Now || asks_time_of(request, true, diff),
{
    lemma_times_of_files(s, diff, seq![], seq![]);
}

/// The place of a file among those of a branch is that of its first entry in what the branch owns; a
/// file that is not owned stands at a place behind the first thousand but one.
pub proof fn a_file_stands_where_it_is_owned(
    owned: Seq<FileOwnershipModel>,
    path: Seq<char>,
    k: int,
)
    ensures
        is_first_of(owned, path, k) ==> place_among(owned, path) == k,
        (forall|j: int| 0 <= j < owned.len() ==> (#[trigger] owned[j]).file_path != path)
            ==> place_among(owned, path) == 999,
{
    lemma_position_of(owned, path);
    let at = position_of(owned, path);
    if is_first_of(owned, path, k) {
        if at < k {
            assert(owned[at].file_path != path);
        }
    }
}

/// Marking hunks as locked changes nothing else of the files and the hunks that are shown.
pub proof fn marking_locks_changes_nothing_else(
    shown: Seq<VirtualFileModel>,
    files: Seq<FileDiffModel>,
    i: int,
)
    requires
        0 <= i < shown.len(),
    ensures
        all_with_locks(shown, files).len() == shown.len(),
        ({
            let file = all_with_locks(shown, files)[i];
            &&& file == (VirtualFileModel { hunks: file.hunks, ..shown[i] })
            &&& file.hunks.len() == shown[i].hunks.len()
            &&& forall|k: int|
                0 <= k < file.hunks.len() ==> #[trigger] file.hunks[k] == (VirtualHunkModel {
                    locked: file.hunks[k].locked,
                    ..shown[i].hunks[k]
                })
        }),
{
}

} // verus!
