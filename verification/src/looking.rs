//! What is asked for, step by step, to find out what the branches hold, and to write hunks out as a
//! tree.

use crate::branch::{BranchCreateModel, BranchModel, CommitModel, TargetModel};
use crate::create::{by_order, create_virtual_branch_flow};
use crate::dialogue::{
    after, comes_to, fails_with, goes_through, lemma_goes_on, lemma_goes_through_first, lemma_told,
    Step,
};
use crate::diff::FileDiffModel;
use crate::objects::{oid_of_text, Oid};
use crate::patch::apply_hunks;
use crate::protocol::{
    ask_oid, fail, BranchErrorModel, FileMode, FileStat, FileTimes, Flow, LinkTargetModel,
    ReplyModel, RequestModel, TreeEditModel,
};
use crate::session::{applied_only, unapplied_only};
use crate::status::{
    get_applied_status_flow, get_non_applied_status_flow, get_status_by_branch_flow,
    non_applied_status_flow, share_out_flow, write_statuses_flow, BranchStatusModel,
};
use crate::text::contains_text;
use crate::times::{get_mtime_flow, time_of, FileTimeModel};
use crate::tree::{edit_flow, edits_flow, write_tree_flow, write_tree_onto_commit_flow};
use crate::unapplying::{gives_tree, parts_from};
use crate::uncommitted::{calculate_non_commited_diffs_flow, is_unresolved, note_resolved_flow};
use vstd::prelude::*;

verus! {

/// The steps that compare the head of a branch with what its hunks make of the target.
pub open spec fn uncommitted_steps(
    branch: BranchModel,
    written: Seq<ReplyModel>,
    tree: Oid,
    head: CommitModel,
    diff: Seq<FileDiffModel>,
    conflicting: Option<Seq<Seq<char>>>,
) -> Seq<Step> {
    seq![
        Step::Part(written),
        Step::Ask(RequestModel::FindTree(tree), ReplyModel::Unit),
        Step::Ask(RequestModel::FindCommit(branch.head), ReplyModel::Commit(head)),
        Step::Ask(RequestModel::DiffTrees(head.tree, tree), ReplyModel::Diffs(diff)),
        Step::Ask(RequestModel::ConflictingFiles, ReplyModel::Paths(conflicting)),
    ]
}

/// Whether a conflict in a file is resolved: the file is noted as in conflict, and no hunk of it
/// holds a conflict marker.
pub open spec fn is_resolved(conflicting: Seq<Seq<char>>, file: FileDiffModel) -> bool {
    &&& conflicting.contains(file.path)
    &&& forall|i: int|
        0 <= i < file.hunks.len() ==> !contains_text(
            (#[trigger] file.hunks[i]).diff,
            "<<<<<<< ours"@,
        ) && !contains_text(file.hunks[i].diff, ">>>>>>> theirs"@)
}

/// The steps that note the conflicts which are resolved, from the given file on.
pub open spec fn resolved_from(
    conflicting: Seq<Seq<char>>,
    files: Seq<FileDiffModel>,
    i: int,
) -> Seq<Step>
    decreases files.len() - i,
{
    if i < 0 || i >= files.len() {
        seq![]
    } else if is_resolved(conflicting, files[i]) {
        seq![Step::Ask(RequestModel::ResolveConflict(files[i].path), ReplyModel::Unit)] + resolved_from(
            conflicting,
            files,
            i + 1,
        )
    } else {
        resolved_from(conflicting, files, i + 1)
    }
}

proof fn lemma_resolved(conflicting: Seq<Seq<char>>, files: Seq<FileDiffModel>, i: int)
    requires
        0 <= i <= files.len(),
    ensures
        comes_to(
            |s: Seq<ReplyModel>| note_resolved_flow(s, conflicting, files, i),
            resolved_from(conflicting, files, i),
            (),
        ),
    decreases files.len() - i,
{
    broadcast use lemma_told;

    if i < files.len() {
        let next = |s: Seq<ReplyModel>| note_resolved_flow(s, conflicting, files, i + 1);
        lemma_resolved(conflicting, files, i + 1);
        reveal_with_fuel(after, 2);
        reveal_with_fuel(goes_through, 2);
        assert(is_resolved(conflicting, files[i]) == (conflicting.contains(files[i].path)
            && !is_unresolved(files[i].hunks)));
        if is_resolved(conflicting, files[i]) {
            lemma_goes_on(
                |s: Seq<ReplyModel>| note_resolved_flow(s, conflicting, files, i),
                next,
                seq![Step::Ask(RequestModel::ResolveConflict(files[i].path), ReplyModel::Unit)],
                resolved_from(conflicting, files, i + 1),
            );
        } else {
            let here = |s: Seq<ReplyModel>| note_resolved_flow(s, conflicting, files, i);
            assert(here =~= next);
        }
    }
}

/// What a branch has not committed is what differs from the tree of its head to the tree that its
/// hunks make of the target, in that direction. Only of an unapplied branch whose head is the target
/// it is simply its hunks.
pub proof fn uncommitted_is_what_differs_from_the_head(
    branch: BranchModel,
    target: TargetModel,
    files: Seq<FileDiffModel>,
    written: Seq<ReplyModel>,
    tree: Oid,
    head: CommitModel,
    diff: Seq<FileDiffModel>,
    conflicting: Seq<Seq<char>>,
)
    requires
        gives_tree(written, target, files, tree),
    ensures
        !branch.applied && branch.head == target.sha ==> comes_to(
            |s: Seq<ReplyModel>| calculate_non_commited_diffs_flow(s, branch, target, files),
            seq![],
            files,
        ),
        branch.applied || branch.head != target.sha ==> comes_to(
            |s: Seq<ReplyModel>| calculate_non_commited_diffs_flow(s, branch, target, files),
            uncommitted_steps(branch, written, tree, head, diff, None),
            diff,
        ),
        branch.applied || branch.head != target.sha ==> comes_to(
            |s: Seq<ReplyModel>| calculate_non_commited_diffs_flow(s, branch, target, files),
            uncommitted_steps(branch, written, tree, head, diff, Some(conflicting))
                + resolved_from(conflicting, diff, 0),
            diff,
        ),
{
    broadcast use lemma_told;

    reveal_with_fuel(after, 6);
    reveal_with_fuel(goes_through, 6);
    if branch.applied || branch.head != target.sha {
        let steps = resolved_from(conflicting, diff, 0);
        let noting = |s: Seq<ReplyModel>| note_resolved_flow(s, conflicting, diff, 0);
        let whole = |s: Seq<ReplyModel>|
            note_resolved_flow(s, conflicting, diff, 0).and_then(
                |u: (), s: Seq<ReplyModel>| Flow::Done(diff, s),
            );
        lemma_resolved(conflicting, diff, 0);
        lemma_goes_through_first(noting, whole, steps);
        assert forall|s: Seq<ReplyModel>| #[trigger]
            whole(after(steps, s)) == Flow::Done(diff, s) by {
            assert(noting(after(steps, s)) == Flow::Done((), s));
        }
        lemma_goes_on(
            |s: Seq<ReplyModel>| calculate_non_commited_diffs_flow(s, branch, target, files),
            whole,
            uncommitted_steps(branch, written, tree, head, diff, Some(conflicting)),
            steps,
        );
    }
}

/// What kind of entry a file makes: a link where it is one, an executable where a permission to run
/// it is set, and an ordinary one otherwise or where nothing is known of it.
pub open spec fn is_mode_of(mode: FileMode, stat: Option<FileStat>) -> bool {
    &&& mode == FileMode::Link <==> stat is Some && stat->0.is_symlink
    &&& mode == FileMode::Executable <==> stat is Some && !stat->0.is_symlink && stat->0.mode & 0o111
        != 0
}

/// A file that is gone loses its entry, where the tree has one; nothing is done where it has none.
pub proof fn a_file_that_is_gone_loses_its_entry(tree: Oid, file: FileDiffModel)
    ensures
        comes_to(
            |s: Seq<ReplyModel>| edit_flow(s, tree, file),
            seq![
                Step::Ask(RequestModel::PathExists(file.path), ReplyModel::Flag(false)),
                Step::Ask(RequestModel::HasEntry { tree, path: file.path }, ReplyModel::Flag(true)),
            ],
            Some(TreeEditModel::Remove(file.path)),
        ),
        comes_to(
            |s: Seq<ReplyModel>| edit_flow(s, tree, file),
            seq![
                Step::Ask(RequestModel::PathExists(file.path), ReplyModel::Flag(false)),
                Step::Ask(
                    RequestModel::HasEntry { tree, path: file.path },
                    ReplyModel::Flag(false),
                ),
            ],
            None,
        ),
{
    broadcast use lemma_told;

    reveal_with_fuel(after, 4);
    reveal_with_fuel(goes_through, 4);
}

/// A link gets an entry with where it leads: from the top of the project where that lies inside, or
/// else as it stands.
pub proof fn a_link_is_stored_as_where_it_leads(
    tree: Oid,
    file: FileDiffModel,
    stat: FileStat,
    link: LinkTargetModel,
    blob: Oid,
)
    requires
        stat.is_symlink,
    ensures
        comes_to(
            |s: Seq<ReplyModel>| edit_flow(s, tree, file),
            seq![
                Step::Ask(RequestModel::PathExists(file.path), ReplyModel::Flag(true)),
                Step::Ask(RequestModel::FileStat(file.path), ReplyModel::Stat(Some(stat))),
                Step::Ask(RequestModel::ReadLink(file.path), ReplyModel::Link(link)),
                Step::Ask(
                    RequestModel::WriteBlob(
                        match link.inside {
                            Some(inside) => inside,
                            None => link.raw,
                        },
                    ),
                    ReplyModel::Oid(blob),
                ),
            ],
            Some(TreeEditModel::Upsert { path: file.path, blob, mode: FileMode::Link }),
        ),
{
    broadcast use lemma_told;

    reveal_with_fuel(after, 6);
    reveal_with_fuel(goes_through, 6);
}

/// A file that the tree has no entry of is stored as it is, with its mode.
pub proof fn a_new_file_is_stored_as_it_is(
    tree: Oid,
    file: FileDiffModel,
    stat: Option<FileStat>,
    mode: FileMode,
    blob: Oid,
)
    requires
        mode != FileMode::Link,
        is_mode_of(mode, stat),
    ensures
        comes_to(
            |s: Seq<ReplyModel>| edit_flow(s, tree, file),
            seq![
                Step::Ask(RequestModel::PathExists(file.path), ReplyModel::Flag(true)),
                Step::Ask(RequestModel::FileStat(file.path), ReplyModel::Stat(stat)),
                Step::Ask(
                    RequestModel::HasEntry { tree, path: file.path },
                    ReplyModel::Flag(false),
                ),
                Step::Ask(RequestModel::WriteFileBlob(file.path), ReplyModel::Oid(blob)),
            ],
            Some(TreeEditModel::Upsert { path: file.path, blob, mode }),
        ),
{
    broadcast use lemma_told;

    reveal_with_fuel(after, 6);
    reveal_with_fuel(goes_through, 6);
}

/// A file that the tree has an entry of is stored as what its hunks make of the content there; where
/// they do not fit, nothing is written.
pub proof fn a_changed_file_is_stored_as_its_hunks_make_it(
    tree: Oid,
    file: FileDiffModel,
    stat: Option<FileStat>,
    mode: FileMode,
    content: Seq<u8>,
    blob: Oid,
)
    requires
        mode != FileMode::Link,
        is_mode_of(mode, stat),
        file.hunks.len() != 1 || !file.hunks[0].binary,
    ensures
        ({
            let steps = seq![
                Step::Ask(RequestModel::PathExists(file.path), ReplyModel::Flag(true)),
                Step::Ask(RequestModel::FileStat(file.path), ReplyModel::Stat(stat)),
                Step::Ask(RequestModel::HasEntry { tree, path: file.path }, ReplyModel::Flag(true)),
                Step::Ask(
                    RequestModel::ReadBlob { tree, path: file.path },
                    ReplyModel::Bytes(content),
                ),
            ];
            match apply_hunks(content, file.hunks) {
                Ok(made) => comes_to(
                    |s: Seq<ReplyModel>| edit_flow(s, tree, file),
                    steps + seq![Step::Ask(RequestModel::WriteBlob(made), ReplyModel::Oid(blob))],
                    Some(TreeEditModel::Upsert { path: file.path, blob, mode }),
                ),
                Err(error) => fails_with(|s: Seq<ReplyModel>| edit_flow(s, tree, file), steps, error),
            }
        }),
{
    broadcast use lemma_told;

    reveal_with_fuel(after, 7);
    reveal_with_fuel(goes_through, 7);
}

/// A binary file that the tree has an entry of is stored as the object that its one hunk names.
pub proof fn a_binary_file_is_stored_as_the_object_it_names(
    tree: Oid,
    file: FileDiffModel,
    stat: Option<FileStat>,
    mode: FileMode,
)
    requires
        mode != FileMode::Link,
        is_mode_of(mode, stat),
        file.hunks.len() == 1,
        file.hunks[0].binary,
    ensures
        ({
            let steps = seq![
                Step::Ask(RequestModel::PathExists(file.path), ReplyModel::Flag(true)),
                Step::Ask(RequestModel::FileStat(file.path), ReplyModel::Stat(stat)),
                Step::Ask(RequestModel::HasEntry { tree, path: file.path }, ReplyModel::Flag(true)),
            ];
            match oid_of_text(file.hunks[0].diff) {
                Some(blob) => comes_to(
                    |s: Seq<ReplyModel>| edit_flow(s, tree, file),
                    steps,
                    Some(TreeEditModel::Upsert { path: file.path, blob, mode }),
                ),
                None => fails_with(
                    |s: Seq<ReplyModel>| edit_flow(s, tree, file),
                    steps,
                    BranchErrorModel::NotAnOid(file.hunks[0].diff),
                ),
            }
        }),
{
    broadcast use lemma_told;

    reveal_with_fuel(after, 6);
    reveal_with_fuel(goes_through, 6);
}

/// Whether some replies about a file say what becomes of its entry.
pub open spec fn gives_edit(
    replies: Seq<ReplyModel>,
    tree: Oid,
    file: FileDiffModel,
    edit: Option<TreeEditModel>,
) -> bool {
    forall|more: Seq<ReplyModel>| #[trigger]
        edit_flow(replies + more, tree, file) == Flow::Done(edit, more)
}

/// The edits that there are, from the given one on.
pub open spec fn there_from(edits: Seq<Option<TreeEditModel>>, i: int) -> Seq<TreeEditModel>
    decreases edits.len() - i,
{
    if i < 0 || i >= edits.len() {
        seq![]
    } else {
        match edits[i] {
            Some(edit) => seq![edit] + there_from(edits, i + 1),
            None => there_from(edits, i + 1),
        }
    }
}

proof fn lemma_edits(
    tree: Oid,
    files: Seq<FileDiffModel>,
    parts: Seq<Seq<ReplyModel>>,
    edits: Seq<Option<TreeEditModel>>,
    i: int,
    before: Seq<TreeEditModel>,
)
    requires
        0 <= i <= files.len(),
        parts.len() == files.len(),
        edits.len() == files.len(),
        forall|j: int|
            0 <= j < files.len() ==> gives_edit(
                parts[j],
                tree,
                #[trigger] files[j],
                edits[j],
            ),
    ensures
        comes_to(
            |s: Seq<ReplyModel>| edits_flow(s, tree, files, i, before),
            parts_from(parts, i),
            before + there_from(edits, i),
        ),
    decreases files.len() - i,
{
    if i < files.len() {
        let next = match edits[i] {
            Some(edit) => before.push(edit),
            None => before,
        };
        assert(gives_edit(parts[i], tree, files[i], edits[i]));
        lemma_edits(tree, files, parts, edits, i + 1, next);
        reveal_with_fuel(after, 2);
        reveal_with_fuel(goes_through, 2);
        lemma_goes_on(
            |s: Seq<ReplyModel>| edits_flow(s, tree, files, i, before),
            |s: Seq<ReplyModel>| edits_flow(s, tree, files, i + 1, next),
            seq![Step::Part(parts[i])],
            parts_from(parts, i + 1),
        );
        assert(next + there_from(edits, i + 1) =~= before + there_from(edits, i));
    } else {
        assert(before + there_from(edits, i) =~= before);
    }
}

/// Hunks are written out on top of a commit as the tree of the commit with the entries of their
/// files changed, one after the other, and no others.
pub proof fn a_tree_is_that_of_the_commit_with_the_files_changed(
    commit: Oid,
    files: Seq<FileDiffModel>,
    base: CommitModel,
    parts: Seq<Seq<ReplyModel>>,
    edits: Seq<Option<TreeEditModel>>,
    tree: Oid,
)
    requires
        parts.len() == files.len(),
        edits.len() == files.len(),
        forall|j: int|
            0 <= j < files.len() ==> gives_edit(
                parts[j],
                base.tree,
                #[trigger] files[j],
                edits[j],
            ),
    ensures
        comes_to(
            |s: Seq<ReplyModel>| write_tree_onto_commit_flow(s, commit, files),
            seq![Step::Ask(RequestModel::FindCommit(commit), ReplyModel::Commit(base))] + (parts_from(parts, 0)
                + seq![
                Step::Ask(
                    RequestModel::WriteTree { base: base.tree, edits: there_from(edits, 0) },
                    ReplyModel::Oid(tree),
                ),
            ]),
            tree,
        ),
{
    broadcast use lemma_told;

    let changed = there_from(edits, 0);
    let last = seq![
        Step::Ask(RequestModel::WriteTree { base: base.tree, edits: changed }, ReplyModel::Oid(tree)),
    ];
    let edit = |s: Seq<ReplyModel>| edits_flow(s, base.tree, files, 0, seq![]);
    let finish = |s: Seq<ReplyModel>| ask_oid(s, RequestModel::WriteTree { base: base.tree, edits: changed });
    let whole = |s: Seq<ReplyModel>|
        edits_flow(s, base.tree, files, 0, seq![]).and_then(
            |edits: Seq<TreeEditModel>, s: Seq<ReplyModel>|
                ask_oid(s, RequestModel::WriteTree { base: base.tree, edits }),
        );
    lemma_edits(base.tree, files, parts, edits, 0, seq![]);
    assert(Seq::<TreeEditModel>::empty() + changed =~= changed);
    lemma_goes_through_first(edit, whole, parts_from(parts, 0));
    assert forall|s: Seq<ReplyModel>| #[trigger]
        whole(after(parts_from(parts, 0), s)) == finish(s) by {
        assert(edit(after(parts_from(parts, 0), s)) == Flow::Done(changed, s));
    }
    reveal_with_fuel(after, 2);
    reveal_with_fuel(goes_through, 2);
    lemma_goes_on(whole, finish, parts_from(parts, 0), last);
    lemma_goes_on(
        |s: Seq<ReplyModel>| write_tree_onto_commit_flow(s, commit, files),
        whole,
        seq![Step::Ask(RequestModel::FindCommit(commit), ReplyModel::Commit(base))],
        parts_from(parts, 0) + last,
    );
}

/// What the hunks of a branch make is made of the target.
pub proof fn a_branch_is_written_on_top_of_the_target(
    s: Seq<ReplyModel>,
    target: TargetModel,
    files: Seq<FileDiffModel>,
)
    ensures
        write_tree_flow(s, target, files) == write_tree_onto_commit_flow(s, target.sha, files),
{
}

/// The time of a file that is not known yet is that of its last change, or else that when it was
/// made, or else the present. It is known from then on.
pub proof fn the_time_of_a_file_is_that_of_its_last_change(
    known: Seq<FileTimeModel>,
    in_repository: bool,
    path: Seq<char>,
    millis: u128,
    created: Option<u128>,
)
    requires
        forall|i: int| 0 <= i < known.len() ==> (#[trigger] known[i]).path != path,
    ensures
        ({
            let outcome = (millis, known.push(FileTimeModel { path, millis }));
            let request = RequestModel::FileTimes { in_repository, path };
            &&& comes_to(
                |s: Seq<ReplyModel>| get_mtime_flow(s, known, in_repository, path),
                seq![
                    Step::Ask(
                        request,
                        ReplyModel::Times(FileTimes { modified: Some(millis), created }),
                    ),
                ],
                outcome,
            )
            &&& comes_to(
                |s: Seq<ReplyModel>| get_mtime_flow(s, known, in_repository, path),
                seq![
                    Step::Ask(
                        request,
                        ReplyModel::Times(FileTimes { modified: None, created: Some(millis) }),
                    ),
                ],
                outcome,
            )
            &&& comes_to(
                |s: Seq<ReplyModel>| get_mtime_flow(s, known, in_repository, path),
                seq![
                    Step::Ask(request, ReplyModel::Times(FileTimes { modified: None, created: None })),
                    Step::Ask(RequestModel::Now, ReplyModel::Millis(millis)),
                ],
                outcome,
            )
        }),
{
    broadcast use lemma_told;

    lemma_unknown(known, path);
    reveal_with_fuel(after, 4);
    reveal_with_fuel(goes_through, 4);
}

proof fn lemma_unknown(known: Seq<FileTimeModel>, path: Seq<char>)
    requires
        forall|i: int| 0 <= i < known.len() ==> (#[trigger] known[i]).path != path,
    ensures
        time_of(known, path) == known.len(),
    decreases known.len(),
{
    if known.len() > 0 {
        assert(known[0].path != path);
        let rest = known.drop_first();
        assert forall|i: int| 0 <= i < rest.len() implies (#[trigger] rest[i]).path != path by {
            assert(known[i + 1].path != path);
        }
        lemma_unknown(rest, path);
    }
}

/// The steps that store the branches of some statuses, from the given one on.
pub open spec fn stored_from(statuses: Seq<BranchStatusModel>, i: int) -> Seq<Step>
    decreases statuses.len() - i,
{
    if i < 0 || i >= statuses.len() {
        seq![]
    } else {
        seq![Step::Ask(RequestModel::WriteBranch(statuses[i].branch), ReplyModel::Unit)] + stored_from(statuses, i + 1)
    }
}

proof fn lemma_stored(statuses: Seq<BranchStatusModel>, i: int)
    requires
        0 <= i <= statuses.len(),
    ensures
        comes_to(|s: Seq<ReplyModel>| write_statuses_flow(s, statuses, i), stored_from(statuses, i), ()),
    decreases statuses.len() - i,
{
    broadcast use lemma_told;

    if i < statuses.len() {
        lemma_stored(statuses, i + 1);
        reveal_with_fuel(after, 2);
        reveal_with_fuel(goes_through, 2);
        lemma_goes_on(
            |s: Seq<ReplyModel>| write_statuses_flow(s, statuses, i),
            |s: Seq<ReplyModel>| write_statuses_flow(s, statuses, i + 1),
            seq![Step::Ask(RequestModel::WriteBranch(statuses[i].branch), ReplyModel::Unit)],
            stored_from(statuses, i + 1),
        );
    }
}

proof fn lemma_shared_and_stored(
    diff: Seq<FileDiffModel>,
    branches: Seq<BranchModel>,
    shared: Seq<ReplyModel>,
    statuses: Seq<BranchStatusModel>,
)
    requires
        forall|more: Seq<ReplyModel>| #[trigger]
            share_out_flow(shared + more, diff, branches) == Flow::Done(statuses, more),
    ensures
        comes_to(
            |s: Seq<ReplyModel>|
                share_out_flow(s, diff, branches).and_then(
                    |statuses: Seq<BranchStatusModel>, s: Seq<ReplyModel>|
                        write_statuses_flow(s, statuses, 0).and_then(
                            |u: (), s: Seq<ReplyModel>| Flow::Done(statuses, s),
                        ),
                ),
            seq![Step::Part(shared)] + stored_from(statuses, 0),
            statuses,
        ),
{
    let storing = |s: Seq<ReplyModel>| write_statuses_flow(s, statuses, 0);
    let next = |s: Seq<ReplyModel>|
        write_statuses_flow(s, statuses, 0).and_then(|u: (), s: Seq<ReplyModel>| Flow::Done(statuses, s));
    let steps = stored_from(statuses, 0);
    lemma_stored(statuses, 0);
    lemma_goes_through_first(storing, next, steps);
    assert forall|s: Seq<ReplyModel>| #[trigger]
        next(after(steps, s)) == Flow::Done(statuses, s) by {
        assert(storing(after(steps, s)) == Flow::Done((), s));
    }
    reveal_with_fuel(after, 2);
    reveal_with_fuel(goes_through, 2);
    lemma_goes_on(
        |s: Seq<ReplyModel>|
            share_out_flow(s, diff, branches).and_then(
                |statuses: Seq<BranchStatusModel>, s: Seq<ReplyModel>|
                    write_statuses_flow(s, statuses, 0).and_then(
                        |u: (), s: Seq<ReplyModel>| Flow::Done(statuses, s),
                    ),
            ),
        next,
        seq![Step::Part(shared)],
        steps,
    );
}

/// The status of applied branches is what differs between the target and the working directory,
/// shared out among them in their order. Each is stored as it is then.
pub proof fn the_status_is_what_differs_from_the_target(
    target: TargetModel,
    branches: Seq<BranchModel>,
    diff: Seq<FileDiffModel>,
    shared: Seq<ReplyModel>,
    statuses: Seq<BranchStatusModel>,
)
    requires
        branches.len() > 0 || diff.len() == 0,
        forall|more: Seq<ReplyModel>| #[trigger]
            share_out_flow(shared + more, diff, by_order(branches)) == Flow::Done(statuses, more),
    ensures
        comes_to(
            |s: Seq<ReplyModel>| get_applied_status_flow(s, target, branches),
            seq![
                Step::Ask(RequestModel::DiffWorkdir(target.sha), ReplyModel::Diffs(diff)),
            ] + (seq![Step::Part(shared)]
                + stored_from(statuses, 0)),
            statuses,
        ),
{
    broadcast use lemma_told;

    let served = by_order(branches);
    lemma_shared_and_stored(diff, served, shared, statuses);
    reveal_with_fuel(after, 2);
    reveal_with_fuel(goes_through, 2);
    lemma_goes_on(
        |s: Seq<ReplyModel>| get_applied_status_flow(s, target, branches),
        |s: Seq<ReplyModel>|
            share_out_flow(s, diff, served).and_then(
                |statuses: Seq<BranchStatusModel>, s: Seq<ReplyModel>|
                    write_statuses_flow(s, statuses, 0).and_then(
                        |u: (), s: Seq<ReplyModel>| Flow::Done(statuses, s),
                    ),
            ),
        seq![Step::Ask(RequestModel::DiffWorkdir(target.sha), ReplyModel::Diffs(diff))],
        seq![Step::Part(shared)] + stored_from(statuses, 0),
    );
}

/// Where something differs and no branch is applied, a branch is made that gets it all, with
/// everything left open about it.
pub proof fn a_branch_is_made_for_what_differs(
    target: TargetModel,
    diff: Seq<FileDiffModel>,
    made: Seq<ReplyModel>,
    branch: BranchModel,
    shared: Seq<ReplyModel>,
    statuses: Seq<BranchStatusModel>,
)
    requires
        diff.len() > 0,
        forall|more: Seq<ReplyModel>| #[trigger]
            create_virtual_branch_flow(
                made + more,
                BranchCreateModel { name: None, ownership: None, order: None },
            ) == Flow::Done(branch, more),
        forall|more: Seq<ReplyModel>| #[trigger]
            share_out_flow(shared + more, diff, seq![branch]) == Flow::Done(statuses, more),
    ensures
        comes_to(
            |s: Seq<ReplyModel>| get_applied_status_flow(s, target, seq![]),
            seq![
                Step::Ask(RequestModel::DiffWorkdir(target.sha), ReplyModel::Diffs(diff)),
                Step::Part(made),
            ] + (seq![Step::Part(shared)] + stored_from(statuses, 0)),
            statuses,
        ),
{
    broadcast use lemma_told;

    lemma_shared_and_stored(diff, seq![branch], shared, statuses);
    reveal_with_fuel(after, 3);
    reveal_with_fuel(goes_through, 3);
    lemma_goes_on(
        |s: Seq<ReplyModel>| get_applied_status_flow(s, target, seq![]),
        |s: Seq<ReplyModel>|
            share_out_flow(s, diff, seq![branch]).and_then(
                |statuses: Seq<BranchStatusModel>, s: Seq<ReplyModel>|
                    write_statuses_flow(s, statuses, 0).and_then(
                        |u: (), s: Seq<ReplyModel>| Flow::Done(statuses, s),
                    ),
            ),
        seq![
            Step::Ask(RequestModel::DiffWorkdir(target.sha), ReplyModel::Diffs(diff)),
            Step::Part(made),
        ],
        seq![Step::Part(shared)] + stored_from(statuses, 0),
    );
}

/// The steps that find the status of unapplied branches, from the given one on: what differs from
/// the tree of the target to that of the branch.
pub open spec fn unapplied_from(
    target: TargetModel,
    branches: Seq<BranchModel>,
    commits: Seq<CommitModel>,
    diffs: Seq<Seq<FileDiffModel>>,
    i: int,
) -> Seq<Step>
    decreases branches.len() - i,
{
    if i < 0 || i >= branches.len() {
        seq![]
    } else {
        seq![
            Step::Ask(RequestModel::FindTree(branches[i].tree), ReplyModel::Unit),
            Step::Ask(RequestModel::FindCommit(target.sha), ReplyModel::Commit(commits[i])),
            Step::Ask(
                RequestModel::DiffTrees(commits[i].tree, branches[i].tree),
                ReplyModel::Diffs(diffs[i]),
            ),
        ] + unapplied_from(target, branches, commits, diffs, i + 1)
    }
}

/// Some branches, each with the hunks of its own.
pub open spec fn each_with(branches: Seq<BranchModel>, diffs: Seq<Seq<FileDiffModel>>) -> Seq<
    BranchStatusModel,
> {
    Seq::new(
        branches.len(),
        |i: int| BranchStatusModel { branch: branches[i], files: diffs[i] },
    )
}

proof fn lemma_unapplied(
    target: TargetModel,
    branches: Seq<BranchModel>,
    commits: Seq<CommitModel>,
    diffs: Seq<Seq<FileDiffModel>>,
    i: int,
)
    requires
        0 <= i <= branches.len(),
        commits.len() == branches.len(),
        diffs.len() == branches.len(),
        forall|j: int| 0 <= j < branches.len() ==> !(#[trigger] branches[j]).applied,
    ensures
        comes_to(
            |s: Seq<ReplyModel>|
                get_non_applied_status_flow(
                    s,
                    target,
                    branches,
                    each_with(branches, diffs).take(i),
                ),
            unapplied_from(target, branches, commits, diffs, i),
            each_with(branches, diffs),
        ),
    decreases branches.len() - i,
{
    broadcast use lemma_told;

    let all = each_with(branches, diffs);
    let done = all.take(i);
    if i < branches.len() {
        assert(!branches[i].applied);
        assert(done.push(all[i]) =~= all.take(i + 1));
        lemma_unapplied(target, branches, commits, diffs, i + 1);
        reveal_with_fuel(after, 4);
        reveal_with_fuel(goes_through, 4);
        lemma_goes_on(
            |s: Seq<ReplyModel>| get_non_applied_status_flow(s, target, branches, done),
            |s: Seq<ReplyModel>| get_non_applied_status_flow(s, target, branches, all.take(i + 1)),
            seq![
                Step::Ask(RequestModel::FindTree(branches[i].tree), ReplyModel::Unit),
                Step::Ask(RequestModel::FindCommit(target.sha), ReplyModel::Commit(commits[i])),
                Step::Ask(
                    RequestModel::DiffTrees(commits[i].tree, branches[i].tree),
                    ReplyModel::Diffs(diffs[i]),
                ),
            ],
            unapplied_from(target, branches, commits, diffs, i + 1),
        );
    } else {
        assert(done =~= all);
    }
}

/// The status of an applied branch is not to be had by its tree.
pub proof fn an_applied_branch_is_not_compared_by_its_tree(
    s: Seq<ReplyModel>,
    target: TargetModel,
    branch: BranchModel,
)
    requires
        branch.applied,
    ensures
        non_applied_status_flow(s, target, branch) == fail::<BranchStatusModel>(
            BranchErrorModel::BranchIsApplied(branch.name),
        ),
{
}

/// The status of all branches is that of the applied ones, and then of each of the others what
/// differs from the tree of the target to that of the branch.
pub proof fn an_unapplied_branch_holds_what_its_tree_differs_by(
    target: TargetModel,
    branches: Seq<BranchModel>,
    listed: Seq<ReplyModel>,
    applied: Seq<BranchStatusModel>,
    commits: Seq<CommitModel>,
    diffs: Seq<Seq<FileDiffModel>>,
)
    requires
        forall|more: Seq<ReplyModel>| #[trigger]
            get_applied_status_flow(listed + more, target, applied_only(branches)) == Flow::Done(
                applied,
                more,
            ),
        commits.len() == branches.filter(|b: BranchModel| !b.applied).len(),
        diffs.len() == commits.len(),
    ensures
        ({
            let unapplied = branches.filter(|b: BranchModel| !b.applied);
            comes_to(
                |s: Seq<ReplyModel>| get_status_by_branch_flow(s),
                seq![
                    Step::Ask(RequestModel::OpenSession, ReplyModel::Unit),
                    Step::Ask(RequestModel::ReadDefaultTarget, ReplyModel::Target(target)),
                    Step::Ask(RequestModel::ListBranches, ReplyModel::Branches(branches)),
                    Step::Part(listed),
                ] + unapplied_from(target, unapplied, commits, diffs, 0),
                applied + each_with(unapplied, diffs),
            )
        }),
{
    broadcast use lemma_told;

    let unapplied = unapplied_only(branches);
    assert(unapplied == branches.filter(|b: BranchModel| !b.applied));
    let all = each_with(unapplied, diffs);
    let steps = unapplied_from(target, unapplied, commits, diffs, 0);
    assert forall|j: int| 0 <= j < unapplied.len() implies !(#[trigger] unapplied[j]).applied by {
        assert(unapplied.contains(unapplied[j]));
        branches.lemma_filter_contains_rev(|b: BranchModel| !b.applied, unapplied[j]);
    }
    assert(all.take(0) =~= seq![]);
    lemma_unapplied(target, unapplied, commits, diffs, 0);
    let finding = |s: Seq<ReplyModel>| get_non_applied_status_flow(s, target, unapplied, all.take(0));
    let whole = |s: Seq<ReplyModel>|
        get_non_applied_status_flow(s, target, unapplied, seq![]).and_then(
            |unapplied: Seq<BranchStatusModel>, s: Seq<ReplyModel>| Flow::Done(applied + unapplied, s),
        );
    lemma_goes_through_first(finding, whole, steps);
    assert forall|s: Seq<ReplyModel>| #[trigger]
        whole(after(steps, s)) == Flow::Done(applied + all, s) by {
        assert(finding(after(steps, s)) == Flow::Done(all, s));
    }
    reveal_with_fuel(after, 5);
    reveal_with_fuel(goes_through, 5);
    lemma_goes_on(
        |s: Seq<ReplyModel>| get_status_by_branch_flow(s),
        whole,
        seq![
            Step::Ask(RequestModel::OpenSession, ReplyModel::Unit),
            Step::Ask(RequestModel::ReadDefaultTarget, ReplyModel::Target(target)),
            Step::Ask(RequestModel::ListBranches, ReplyModel::Branches(branches)),
            Step::Part(listed),
        ],
        steps,
    );
}

} // verus!
