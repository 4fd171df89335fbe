//! That replies, once given, stay valid: an operation that has come to an end comes to the same end
//! however many more replies there are.

use crate::apply::{
    apply_branch_flow, apply_onto_flow, bring_in_flow, catch_up_flow, check_out_statuses_flow,
    flush_applied_vbranches_flow, flush_each_flow, flush_status_flow, flush_vbranch_as_tree_flow,
    merge_status_flow, merge_statuses_flow, merge_target_flow, store_tree_flow, strip_claim,
    strip_each_flow, strip_flow, unapply_all_branches_flow, unapply_branch_flow, unapply_each_flow,
    unapply_from_target_flow, unapply_ownership_flow,
};
use crate::branch::{BranchCreateModel, BranchModel, BranchUpdateModel, CommitModel, TargetModel};
use crate::claims::{claim_file, BranchClaimModel};
use crate::commit::{
    amend_applied_flow, amend_flow, amend_head_flow, amend_status_flow, check_reset_flow,
    cherry_pick_applied_flow, cherry_pick_flow, commit_files_flow, commit_flow, commit_pick_flow,
    commit_status_flow, create_commit_flow, finish_pick_flow, pick_onto_flow, reset_branch_flow,
    wip_commit_flow,
};
use crate::conflicts::check_out_conflicts_flow;
use crate::create::{
    create_among_flow, create_virtual_branch_flow, delete_branch_flow, make_room_flow, moved_over,
    rename_flow, set_ownership_flow, set_upstream_flow, take_claim_flow, take_claims_flow,
    update_branch_flow, without_claim,
};
use crate::diff::{place_of, FileDiffModel};
use crate::files::{
    diffs_to_virtual_files_flow, is_conflicted_flow, list_virtual_commit_files_flow,
    show_files_flow, show_hunks_flow, shown_file, shown_hunk, to_files_flow,
    virtual_hunks_by_filepath_flow, virtual_hunks_to_virtual_files_flow, FileHunksModel,
};
use crate::listing::{
    base_current_flow, branch_facts_flow, commit_to_vbranch_commit_flow, describe_upstream_flow,
    find_upstream_flow, list_virtual_branches_flow, pushed_commits_flow, show_branch_flow,
    show_branches_flow, show_commits_flow,
};
use crate::merge::{
    adds_nothing_flow, commit_at_flow, commit_upstream_flow, find_base_tree_flow,
    is_commit_integrated_flow, is_remote_branch_mergeable_flow, is_requires_force_flow,
    is_virtual_branch_mergeable_flow, merge_commit_flow, merge_virtual_branch_upstream_flow,
    merges_cleanly_flow, remote_mergeable_flow, virtual_mergeable_flow,
};
use crate::naming::RemoteBranchModel;
use crate::objects::{BranchId, Oid};
use crate::ownership::{take_from, FileOwnershipModel};
use crate::presentation::{
    VirtualBranchModel, VirtualCommitModel, VirtualFileModel, VirtualHunkModel,
};
use crate::protocol::{
    ask_unit, BranchErrorModel, FailureKind, FailureModel, FileMode, Flow, MergeIndex, ReplyModel,
    RequestModel, StopModel, TreeEditModel,
};
use crate::push::{ask_remote_end, push_flow, push_target_flow, push_to_flow};
use crate::session::{
    get_default_target_flow, list_applied_vbranches_flow, mark_all_unapplied_flow,
    unapply_from_flow,
};
use crate::status::{
    align_branch_flow, align_flow, branches_to_serve_flow, claim_files_flow,
    get_applied_status_flow, get_non_applied_status_flow, get_status_by_branch_flow,
    give_files_flow, give_hunk, give_hunks_flow, give_rest_flow, non_applied_status_flow,
    share_out_flow, write_statuses_flow, AlignmentModel, BranchStatusModel,
};
use crate::times::{get_mtime_flow, FileTimeModel};
use crate::tree::{
    blob_flow, content_flow, edit_flow, edits_flow, write_tree_flow, write_tree_onto_commit_flow,
};
use crate::uncommitted::{calculate_non_commited_diffs_flow, is_unresolved, note_resolved_flow};
use vstd::prelude::*;

verus! {

/// Whether an operation goes on as it did before when there are more replies: one that has come to
/// an end comes to the same end, and leaves the additional replies unused.
pub open spec fn stays_valid<T>(before: Flow<T>, after: Flow<T>, more: Seq<ReplyModel>) -> bool {
    match before {
        Flow::Done(value, rest) => after == Flow::Done(value, rest + more),
        Flow::Stop(StopModel::Fail(error)) => after == Flow::<T>::Stop(StopModel::Fail(error)),
        Flow::Stop(StopModel::Ask(_)) => true,
    }
}

/// Whether an operation cannot do without what it asks for: when that fails, it fails too. There may
/// be no target, no such reference and no such git branch; whether a single file is in conflict need
/// not be known; and what a remote has against a push or a fetch is for the caller to see.
pub open spec fn is_essential(request: RequestModel, failure: FailureModel) -> bool {
    match request {
        RequestModel::ReadDefaultTarget => failure.kind != FailureKind::NotFound,
        RequestModel::FindBranch(_) => failure.kind != FailureKind::NotFound,
        RequestModel::FindReference(_) => failure.kind != FailureKind::NotFound,
        RequestModel::IsConflicting(path) => path is None,
        RequestModel::Push { .. } => false,
        RequestModel::Fetch(_) => false,
        _ => true,
    }
}

/// Whether an operation goes on as it did before when there are more replies, and ends with the
/// failure where the next of them is that what it cannot do without has failed.
pub open spec fn goes_on<T>(before: Flow<T>, after: Flow<T>, more: Seq<ReplyModel>) -> bool {
    &&& stays_valid(before, after, more)
    &&& before matches Flow::Stop(StopModel::Ask(request)) ==> (more.len() > 0 ==> (
    more[0] matches ReplyModel::Failed(failure) ==> (is_essential(request, failure) ==> after
        == Flow::<T>::Stop(StopModel::Fail(BranchErrorModel::Outside(failure))))))
}

broadcast proof fn lemma_skip_more(s: Seq<ReplyModel>, more: Seq<ReplyModel>)
    requires
        s.len() > 0,
    ensures
        #[trigger] (s + more).skip(1) == s.skip(1) + more,
{
    assert((s + more).skip(1) =~= s.skip(1) + more);
}

broadcast proof fn lemma_content_flow(
    s: Seq<ReplyModel>,
    more: Seq<ReplyModel>,
    tree: Oid,
    file: FileDiffModel,
)
    ensures
        goes_on(content_flow(s, tree, file), #[trigger] content_flow(s + more, tree, file), more),
{
    broadcast use lemma_skip_more;
}

broadcast proof fn lemma_blob_flow(
    s: Seq<ReplyModel>,
    more: Seq<ReplyModel>,
    tree: Oid,
    file: FileDiffModel,
    mode: FileMode,
)
    ensures
        goes_on(
            blob_flow(s, tree, file, mode),
            #[trigger] blob_flow(s + more, tree, file, mode),
            more,
        ),
{
    broadcast use {lemma_skip_more, lemma_content_flow};
}

pub broadcast proof fn lemma_edit_flow(
    s: Seq<ReplyModel>,
    more: Seq<ReplyModel>,
    tree: Oid,
    file: FileDiffModel,
)
    ensures
        goes_on(edit_flow(s, tree, file), #[trigger] edit_flow(s + more, tree, file), more),
{
    broadcast use {lemma_skip_more, lemma_blob_flow};
}

broadcast proof fn lemma_edits_flow(
    s: Seq<ReplyModel>,
    more: Seq<ReplyModel>,
    tree: Oid,
    files: Seq<FileDiffModel>,
    i: int,
    edits: Seq<TreeEditModel>,
)
    ensures
        goes_on(
            edits_flow(s, tree, files, i, edits),
            #[trigger] edits_flow(s + more, tree, files, i, edits),
            more,
        ),
    decreases files.len() - i,
{
    broadcast use {lemma_skip_more, lemma_edit_flow};

    if 0 <= i < files.len() {
        match edit_flow(s, tree, files[i]) {
            Flow::Done(edit, rest) => {
                lemma_edits_flow(rest, more, tree, files, i + 1, match edit {
                    Some(edit) => edits.push(edit),
                    None => edits,
                });
            },
            Flow::Stop(_) => {},
        }
    }
}

broadcast proof fn lemma_write_tree_onto_commit_flow(
    s: Seq<ReplyModel>,
    more: Seq<ReplyModel>,
    commit: Oid,
    files: Seq<FileDiffModel>,
)
    ensures
        goes_on(
            write_tree_onto_commit_flow(s, commit, files),
            #[trigger] write_tree_onto_commit_flow(s + more, commit, files),
            more,
        ),
{
    broadcast use {lemma_skip_more, lemma_edits_flow};
}

broadcast proof fn lemma_write_tree_flow(
    s: Seq<ReplyModel>,
    more: Seq<ReplyModel>,
    target: TargetModel,
    files: Seq<FileDiffModel>,
)
    ensures
        goes_on(
            write_tree_flow(s, target, files),
            #[trigger] write_tree_flow(s + more, target, files),
            more,
        ),
{
    broadcast use {lemma_skip_more, lemma_write_tree_onto_commit_flow};
}

broadcast proof fn lemma_merge_status_flow(
    s: Seq<ReplyModel>,
    more: Seq<ReplyModel>,
    target: TargetModel,
    base: Oid,
    status: BranchStatusModel,
    tree: Oid,
)
    ensures
        goes_on(
            merge_status_flow(s, target, base, status, tree),
            #[trigger] merge_status_flow(s + more, target, base, status, tree),
            more,
        ),
{
    broadcast use {lemma_skip_more, lemma_write_tree_flow};
}

broadcast proof fn lemma_merge_statuses_flow(
    s: Seq<ReplyModel>,
    more: Seq<ReplyModel>,
    target: TargetModel,
    base: Oid,
    statuses: Seq<BranchStatusModel>,
    i: int,
    tree: Oid,
)
    ensures
        goes_on(
            merge_statuses_flow(s, target, base, statuses, i, tree),
            #[trigger] merge_statuses_flow(s + more, target, base, statuses, i, tree),
            more,
        ),
    decreases statuses.len() - i,
{
    broadcast use {lemma_skip_more, lemma_merge_status_flow};

    if 0 <= i < statuses.len() {
        match merge_status_flow(s, target, base, statuses[i], tree) {
            Flow::Done(next, rest) => {
                lemma_merge_statuses_flow(rest, more, target, base, statuses, i + 1, next);
            },
            Flow::Stop(_) => {},
        }
    }
}

broadcast proof fn lemma_check_out_statuses_flow(
    s: Seq<ReplyModel>,
    more: Seq<ReplyModel>,
    target: TargetModel,
    statuses: Seq<BranchStatusModel>,
)
    ensures
        goes_on(
            check_out_statuses_flow(s, target, statuses),
            #[trigger] check_out_statuses_flow(s + more, target, statuses),
            more,
        ),
{
    broadcast use {lemma_skip_more, lemma_merge_statuses_flow};
}

broadcast proof fn lemma_make_room_flow(
    s: Seq<ReplyModel>,
    more: Seq<ReplyModel>,
    branches: Seq<BranchModel>,
    order: int,
    i: int,
)
    ensures
        goes_on(
            make_room_flow(s, branches, order, i),
            #[trigger] make_room_flow(s + more, branches, order, i),
            more,
        ),
    decreases branches.len() - i,
{
    broadcast use lemma_skip_more;

    if 0 <= i < branches.len() {
        if branches[i].order == moved_over(i, order) {
            lemma_make_room_flow(s, more, branches, order, i + 1);
        } else {
            match ask_unit(
                s,
                RequestModel::WriteBranch(
                    BranchModel { order: moved_over(i, order) as usize, ..branches[i] },
                ),
            ) {
                Flow::Done(_, rest) => {
                    lemma_make_room_flow(rest, more, branches, order, i + 1);
                },
                Flow::Stop(_) => {},
            }
        }
    }
}

broadcast proof fn lemma_take_claim_flow(
    s: Seq<ReplyModel>,
    more: Seq<ReplyModel>,
    branches: Seq<BranchModel>,
    claim: FileOwnershipModel,
    i: int,
)
    ensures
        goes_on(
            take_claim_flow(s, branches, claim, i),
            #[trigger] take_claim_flow(s + more, branches, claim, i),
            more,
        ),
    decreases branches.len() - i,
{
    broadcast use lemma_skip_more;

    if 0 <= i < branches.len() {
        if take_from(branches[i].ownership, claim).0.len() == 0 {
            lemma_take_claim_flow(
                s,
                more,
                branches.update(i, without_claim(branches[i], claim)),
                claim,
                i + 1,
            );
        } else {
            match ask_unit(s, RequestModel::WriteBranch(without_claim(branches[i], claim))) {
                Flow::Done(_, rest) => {
                    lemma_take_claim_flow(
                        rest,
                        more,
                        branches.update(i, without_claim(branches[i], claim)),
                        claim,
                        i + 1,
                    );
                },
                Flow::Stop(_) => {},
            }
        }
    }
}

broadcast proof fn lemma_take_claims_flow(
    s: Seq<ReplyModel>,
    more: Seq<ReplyModel>,
    branches: Seq<BranchModel>,
    claims: Seq<FileOwnershipModel>,
    i: int,
)
    ensures
        goes_on(
            take_claims_flow(s, branches, claims, i),
            #[trigger] take_claims_flow(s + more, branches, claims, i),
            more,
        ),
    decreases claims.len() - i,
{
    broadcast use {lemma_skip_more, lemma_take_claim_flow};

    if 0 <= i < claims.len() {
        match take_claim_flow(s, branches, claims[i], 0) {
            Flow::Done(next, rest) => {
                lemma_take_claims_flow(rest, more, next, claims, i + 1);
            },
            Flow::Stop(_) => {},
        }
    }
}

broadcast proof fn lemma_set_ownership_flow(
    s: Seq<ReplyModel>,
    more: Seq<ReplyModel>,
    target: BranchModel,
    ownership: Seq<FileOwnershipModel>,
)
    ensures
        goes_on(
            set_ownership_flow(s, target, ownership),
            #[trigger] set_ownership_flow(s + more, target, ownership),
            more,
        ),
{
    broadcast use {lemma_skip_more, lemma_take_claims_flow};
}

broadcast proof fn lemma_create_among_flow(
    s: Seq<ReplyModel>,
    more: Seq<ReplyModel>,
    create: BranchCreateModel,
    target: TargetModel,
    commit: CommitModel,
    branches: Seq<BranchModel>,
)
    ensures
        goes_on(
            create_among_flow(s, create, target, commit, branches),
            #[trigger] create_among_flow(s + more, create, target, commit, branches),
            more,
        ),
{
    broadcast use {lemma_skip_more, lemma_make_room_flow, lemma_set_ownership_flow};
}

broadcast proof fn lemma_create_virtual_branch_flow(
    s: Seq<ReplyModel>,
    more: Seq<ReplyModel>,
    create: BranchCreateModel,
)
    ensures
        goes_on(
            create_virtual_branch_flow(s, create),
            #[trigger] create_virtual_branch_flow(s + more, create),
            more,
        ),
{
    broadcast use {lemma_skip_more, lemma_create_among_flow};
}

broadcast proof fn lemma_branches_to_serve_flow(
    s: Seq<ReplyModel>,
    more: Seq<ReplyModel>,
    branches: Seq<BranchModel>,
    diff: Seq<FileDiffModel>,
)
    ensures
        goes_on(
            branches_to_serve_flow(s, branches, diff),
            #[trigger] branches_to_serve_flow(s + more, branches, diff),
            more,
        ),
{
    broadcast use {lemma_skip_more, lemma_create_virtual_branch_flow};
}

broadcast proof fn lemma_get_mtime_flow(
    s: Seq<ReplyModel>,
    more: Seq<ReplyModel>,
    known: Seq<FileTimeModel>,
    in_repository: bool,
    path: Seq<char>,
)
    ensures
        goes_on(
            get_mtime_flow(s, known, in_repository, path),
            #[trigger] get_mtime_flow(s + more, known, in_repository, path),
            more,
        ),
{
    broadcast use lemma_skip_more;
}

broadcast proof fn lemma_claim_files_flow(
    s: Seq<ReplyModel>,
    more: Seq<ReplyModel>,
    c: BranchClaimModel,
    times: Seq<FileTimeModel>,
    owned: Seq<FileOwnershipModel>,
    i: int,
)
    ensures
        goes_on(
            claim_files_flow(s, c, times, owned, i),
            #[trigger] claim_files_flow(s + more, c, times, owned, i),
            more,
        ),
    decreases owned.len() - i,
{
    broadcast use {lemma_skip_more, lemma_get_mtime_flow};

    if 0 <= i < owned.len() {
        if place_of(c.diff, owned[i].file_path) >= c.diff.len() {
            lemma_claim_files_flow(s, more, c, times, owned, i + 1);
        } else {
            match get_mtime_flow(s, times, false, owned[i].file_path) {
                Flow::Done(m, rest) => {
                    lemma_claim_files_flow(
                        rest,
                        more,
                        claim_file(c, owned[i], m.0),
                        m.1,
                        owned,
                        i + 1,
                    );
                },
                Flow::Stop(_) => {},
            }
        }
    }
}

broadcast proof fn lemma_align_branch_flow(
    s: Seq<ReplyModel>,
    more: Seq<ReplyModel>,
    a: AlignmentModel,
    branch: BranchModel,
)
    ensures
        goes_on(
            align_branch_flow(s, a, branch),
            #[trigger] align_branch_flow(s + more, a, branch),
            more,
        ),
{
    broadcast use {lemma_skip_more, lemma_claim_files_flow};
}

broadcast proof fn lemma_align_flow(
    s: Seq<ReplyModel>,
    more: Seq<ReplyModel>,
    a: AlignmentModel,
    branches: Seq<BranchModel>,
    i: int,
)
    ensures
        goes_on(
            align_flow(s, a, branches, i),
            #[trigger] align_flow(s + more, a, branches, i),
            more,
        ),
    decreases branches.len() - i,
{
    broadcast use {lemma_skip_more, lemma_align_branch_flow};

    if 0 <= i < branches.len() {
        match align_branch_flow(s, a, branches[i]) {
            Flow::Done(next, rest) => {
                lemma_align_flow(rest, more, next, branches, i + 1);
            },
            Flow::Stop(_) => {},
        }
    }
}

broadcast proof fn lemma_give_hunks_flow(
    s: Seq<ReplyModel>,
    more: Seq<ReplyModel>,
    status: BranchStatusModel,
    times: Seq<FileTimeModel>,
    file: FileDiffModel,
    i: int,
)
    ensures
        goes_on(
            give_hunks_flow(s, status, times, file, i),
            #[trigger] give_hunks_flow(s + more, status, times, file, i),
            more,
        ),
    decreases file.hunks.len() - i,
{
    broadcast use {lemma_skip_more, lemma_get_mtime_flow};

    if 0 <= i < file.hunks.len() {
        match get_mtime_flow(s, times, false, file.path) {
            Flow::Done(m, rest) => {
                lemma_give_hunks_flow(
                    rest,
                    more,
                    give_hunk(status, file.path, file.hunks[i], m.0),
                    m.1,
                    file,
                    i + 1,
                );
            },
            Flow::Stop(_) => {},
        }
    }
}

broadcast proof fn lemma_give_files_flow(
    s: Seq<ReplyModel>,
    more: Seq<ReplyModel>,
    status: BranchStatusModel,
    times: Seq<FileTimeModel>,
    diff: Seq<FileDiffModel>,
    i: int,
)
    ensures
        goes_on(
            give_files_flow(s, status, times, diff, i),
            #[trigger] give_files_flow(s + more, status, times, diff, i),
            more,
        ),
    decreases diff.len() - i,
{
    broadcast use {lemma_skip_more, lemma_give_hunks_flow};

    if 0 <= i < diff.len() {
        match give_hunks_flow(s, status, times, diff[i], 0) {
            Flow::Done(g, rest) => {
                lemma_give_files_flow(rest, more, g.0, g.1, diff, i + 1);
            },
            Flow::Stop(_) => {},
        }
    }
}

broadcast proof fn lemma_give_rest_flow(
    s: Seq<ReplyModel>,
    more: Seq<ReplyModel>,
    a: AlignmentModel,
)
    ensures
        goes_on(give_rest_flow(s, a), #[trigger] give_rest_flow(s + more, a), more),
{
    broadcast use {lemma_skip_more, lemma_give_files_flow};
}

broadcast proof fn lemma_share_out_flow(
    s: Seq<ReplyModel>,
    more: Seq<ReplyModel>,
    diff: Seq<FileDiffModel>,
    branches: Seq<BranchModel>,
)
    ensures
        goes_on(
            share_out_flow(s, diff, branches),
            #[trigger] share_out_flow(s + more, diff, branches),
            more,
        ),
{
    broadcast use {lemma_skip_more, lemma_align_flow, lemma_give_rest_flow};
}

broadcast proof fn lemma_write_statuses_flow(
    s: Seq<ReplyModel>,
    more: Seq<ReplyModel>,
    statuses: Seq<BranchStatusModel>,
    i: int,
)
    ensures
        goes_on(
            write_statuses_flow(s, statuses, i),
            #[trigger] write_statuses_flow(s + more, statuses, i),
            more,
        ),
    decreases statuses.len() - i,
{
    broadcast use lemma_skip_more;

    if 0 <= i < statuses.len() {
        match ask_unit(s, RequestModel::WriteBranch(statuses[i].branch)) {
            Flow::Done(_, rest) => {
                lemma_write_statuses_flow(rest, more, statuses, i + 1);
            },
            Flow::Stop(_) => {},
        }
    }
}

broadcast proof fn lemma_get_applied_status_flow(
    s: Seq<ReplyModel>,
    more: Seq<ReplyModel>,
    target: TargetModel,
    branches: Seq<BranchModel>,
)
    ensures
        goes_on(
            get_applied_status_flow(s, target, branches),
            #[trigger] get_applied_status_flow(s + more, target, branches),
            more,
        ),
{
    broadcast use {
        lemma_skip_more,
        lemma_branches_to_serve_flow,
        lemma_share_out_flow,
        lemma_write_statuses_flow,
    };
}

broadcast proof fn lemma_get_default_target_flow(s: Seq<ReplyModel>, more: Seq<ReplyModel>)
    ensures
        goes_on(get_default_target_flow(s), #[trigger] get_default_target_flow(s + more), more),
{
    broadcast use lemma_skip_more;
}

broadcast proof fn lemma_store_tree_flow(
    s: Seq<ReplyModel>,
    more: Seq<ReplyModel>,
    target: TargetModel,
    statuses: Seq<BranchStatusModel>,
    branch: BranchModel,
)
    ensures
        goes_on(
            store_tree_flow(s, target, statuses, branch),
            #[trigger] store_tree_flow(s + more, target, statuses, branch),
            more,
        ),
{
    broadcast use {lemma_skip_more, lemma_write_tree_flow};
}

broadcast proof fn lemma_flush_vbranch_as_tree_flow(
    s: Seq<ReplyModel>,
    more: Seq<ReplyModel>,
    branch: BranchModel,
)
    ensures
        goes_on(
            flush_vbranch_as_tree_flow(s, branch),
            #[trigger] flush_vbranch_as_tree_flow(s + more, branch),
            more,
        ),
{
    broadcast use {
        lemma_skip_more,
        lemma_get_applied_status_flow,
        lemma_get_default_target_flow,
        lemma_store_tree_flow,
    };
}

broadcast proof fn lemma_unapply_branch_flow(
    s: Seq<ReplyModel>,
    more: Seq<ReplyModel>,
    id: BranchId,
)
    ensures
        goes_on(unapply_branch_flow(s, id), #[trigger] unapply_branch_flow(s + more, id), more),
{
    broadcast use {
        lemma_skip_more,
        lemma_check_out_statuses_flow,
        lemma_flush_vbranch_as_tree_flow,
    };
}

broadcast proof fn lemma_unapply_each_flow(
    s: Seq<ReplyModel>,
    more: Seq<ReplyModel>,
    branches: Seq<BranchModel>,
    i: int,
)
    ensures
        goes_on(
            unapply_each_flow(s, branches, i),
            #[trigger] unapply_each_flow(s + more, branches, i),
            more,
        ),
    decreases branches.len() - i,
{
    broadcast use {lemma_skip_more, lemma_unapply_branch_flow};

    if 0 <= i < branches.len() {
        match unapply_branch_flow(s, branches[i].id) {
            Flow::Done(_, rest) => {
                lemma_unapply_each_flow(rest, more, branches, i + 1);
            },
            Flow::Stop(_) => {},
        }
    }
}

broadcast proof fn lemma_list_applied_vbranches_flow(s: Seq<ReplyModel>, more: Seq<ReplyModel>)
    ensures
        goes_on(
            list_applied_vbranches_flow(s),
            #[trigger] list_applied_vbranches_flow(s + more),
            more,
        ),
{
    broadcast use lemma_skip_more;
}

broadcast proof fn lemma_unapply_all_branches_flow(s: Seq<ReplyModel>, more: Seq<ReplyModel>)
    ensures
        goes_on(unapply_all_branches_flow(s), #[trigger] unapply_all_branches_flow(s + more), more),
{
    broadcast use {lemma_skip_more, lemma_list_applied_vbranches_flow, lemma_unapply_each_flow};
}

broadcast proof fn lemma_flush_status_flow(
    s: Seq<ReplyModel>,
    more: Seq<ReplyModel>,
    target: TargetModel,
    status: BranchStatusModel,
)
    ensures
        goes_on(
            flush_status_flow(s, target, status),
            #[trigger] flush_status_flow(s + more, target, status),
            more,
        ),
{
    broadcast use {lemma_skip_more, lemma_write_tree_flow};
}

broadcast proof fn lemma_flush_each_flow(
    s: Seq<ReplyModel>,
    more: Seq<ReplyModel>,
    target: TargetModel,
    statuses: Seq<BranchStatusModel>,
    i: int,
)
    ensures
        goes_on(
            flush_each_flow(s, target, statuses, i),
            #[trigger] flush_each_flow(s + more, target, statuses, i),
            more,
        ),
    decreases statuses.len() - i,
{
    broadcast use {lemma_skip_more, lemma_flush_status_flow};

    if 0 <= i < statuses.len() {
        match flush_status_flow(s, target, statuses[i]) {
            Flow::Done(_, rest) => {
                lemma_flush_each_flow(rest, more, target, statuses, i + 1);
            },
            Flow::Stop(_) => {},
        }
    }
}

broadcast proof fn lemma_flush_applied_vbranches_flow(s: Seq<ReplyModel>, more: Seq<ReplyModel>)
    ensures
        goes_on(
            flush_applied_vbranches_flow(s),
            #[trigger] flush_applied_vbranches_flow(s + more),
            more,
        ),
{
    broadcast use {
        lemma_skip_more,
        lemma_flush_each_flow,
        lemma_get_applied_status_flow,
        lemma_get_default_target_flow,
        lemma_list_applied_vbranches_flow,
    };
}

broadcast proof fn lemma_strip_flow(
    s: Seq<ReplyModel>,
    more: Seq<ReplyModel>,
    status: BranchStatusModel,
    claims: Seq<FileOwnershipModel>,
    i: int,
)
    ensures
        goes_on(
            strip_flow(s, status, claims, i),
            #[trigger] strip_flow(s + more, status, claims, i),
            more,
        ),
    decreases claims.len() - i,
{
    broadcast use lemma_skip_more;

    if 0 <= i < claims.len() {
        if take_from(status.branch.ownership, claims[i]).0.len() == 0 {
            lemma_strip_flow(s, more, BranchStatusModel {
                    branch: BranchModel {
                        ownership: take_from(status.branch.ownership, claims[i]).1,
                        ..status.branch
                    },
                    ..status
                }, claims, i + 1);
        } else {
            match ask_unit(s, RequestModel::WriteBranch(strip_claim(status, claims[i]).branch)) {
                Flow::Done(_, rest) => {
                    lemma_strip_flow(rest, more, strip_claim(status, claims[i]), claims, i + 1);
                },
                Flow::Stop(_) => {},
            }
        }
    }
}

broadcast proof fn lemma_strip_each_flow(
    s: Seq<ReplyModel>,
    more: Seq<ReplyModel>,
    statuses: Seq<BranchStatusModel>,
    claims: Seq<FileOwnershipModel>,
    i: int,
)
    ensures
        goes_on(
            strip_each_flow(s, statuses, claims, i),
            #[trigger] strip_each_flow(s + more, statuses, claims, i),
            more,
        ),
    decreases statuses.len() - i,
{
    broadcast use {lemma_skip_more, lemma_strip_flow};

    if 0 <= i < statuses.len() {
        match strip_flow(s, statuses[i], claims, 0) {
            Flow::Done(next, rest) => {
                lemma_strip_each_flow(rest, more, statuses.update(i, next), claims, i + 1);
            },
            Flow::Stop(_) => {},
        }
    }
}

broadcast proof fn lemma_unapply_from_target_flow(
    s: Seq<ReplyModel>,
    more: Seq<ReplyModel>,
    target: TargetModel,
    ownership: Seq<FileOwnershipModel>,
)
    ensures
        goes_on(
            unapply_from_target_flow(s, target, ownership),
            #[trigger] unapply_from_target_flow(s + more, target, ownership),
            more,
        ),
{
    broadcast use {
        lemma_skip_more,
        lemma_check_out_statuses_flow,
        lemma_get_applied_status_flow,
        lemma_strip_each_flow,
    };
}

broadcast proof fn lemma_unapply_ownership_flow(
    s: Seq<ReplyModel>,
    more: Seq<ReplyModel>,
    ownership: Seq<FileOwnershipModel>,
)
    ensures
        goes_on(
            unapply_ownership_flow(s, ownership),
            #[trigger] unapply_ownership_flow(s + more, ownership),
            more,
        ),
{
    broadcast use {lemma_skip_more, lemma_get_default_target_flow, lemma_unapply_from_target_flow};
}

broadcast proof fn lemma_check_out_conflicts_flow(
    s: Seq<ReplyModel>,
    more: Seq<ReplyModel>,
    index: MergeIndex,
    parent: Oid,
)
    ensures
        goes_on(
            check_out_conflicts_flow(s, index, parent),
            #[trigger] check_out_conflicts_flow(s + more, index, parent),
            more,
        ),
{
    broadcast use lemma_skip_more;
}

broadcast proof fn lemma_merge_target_flow(
    s: Seq<ReplyModel>,
    more: Seq<ReplyModel>,
    branch: BranchModel,
    target: TargetModel,
    index: MergeIndex,
    signed: bool,
)
    ensures
        goes_on(
            merge_target_flow(s, branch, target, index, signed),
            #[trigger] merge_target_flow(s + more, branch, target, index, signed),
            more,
        ),
{
    broadcast use lemma_skip_more;
}

broadcast proof fn lemma_catch_up_flow(
    s: Seq<ReplyModel>,
    more: Seq<ReplyModel>,
    branch: BranchModel,
    target: TargetModel,
    target_tree: Oid,
    merge_base: Oid,
    signed: bool,
)
    ensures
        goes_on(
            catch_up_flow(s, branch, target, target_tree, merge_base, signed),
            #[trigger] catch_up_flow(s + more, branch, target, target_tree, merge_base, signed),
            more,
        ),
{
    broadcast use {
        lemma_skip_more,
        lemma_check_out_conflicts_flow,
        lemma_merge_target_flow,
        lemma_unapply_all_branches_flow,
    };
}

broadcast proof fn lemma_bring_in_flow(
    s: Seq<ReplyModel>,
    more: Seq<ReplyModel>,
    branch: BranchModel,
    target_tree: Oid,
)
    ensures
        goes_on(
            bring_in_flow(s, branch, target_tree),
            #[trigger] bring_in_flow(s + more, branch, target_tree),
            more,
        ),
{
    broadcast use lemma_skip_more;
}

broadcast proof fn lemma_apply_onto_flow(
    s: Seq<ReplyModel>,
    more: Seq<ReplyModel>,
    id: BranchId,
    target: TargetModel,
    signed: bool,
)
    ensures
        goes_on(
            apply_onto_flow(s, id, target, signed),
            #[trigger] apply_onto_flow(s + more, id, target, signed),
            more,
        ),
{
    broadcast use {lemma_skip_more, lemma_bring_in_flow, lemma_catch_up_flow};
}

broadcast proof fn lemma_apply_branch_flow(
    s: Seq<ReplyModel>,
    more: Seq<ReplyModel>,
    id: BranchId,
    signed: bool,
)
    ensures
        goes_on(
            apply_branch_flow(s, id, signed),
            #[trigger] apply_branch_flow(s + more, id, signed),
            more,
        ),
{
    broadcast use {lemma_skip_more, lemma_apply_onto_flow, lemma_get_default_target_flow};
}

broadcast proof fn lemma_create_commit_flow(
    s: Seq<ReplyModel>,
    more: Seq<ReplyModel>,
    head: Oid,
    tree: Oid,
    message: Seq<char>,
    signed: bool,
)
    ensures
        goes_on(
            create_commit_flow(s, head, tree, message, signed),
            #[trigger] create_commit_flow(s + more, head, tree, message, signed),
            more,
        ),
{
    broadcast use lemma_skip_more;
}

broadcast proof fn lemma_commit_files_flow(
    s: Seq<ReplyModel>,
    more: Seq<ReplyModel>,
    branch: BranchModel,
    files: Seq<FileDiffModel>,
    message: Seq<char>,
    signed: bool,
)
    ensures
        goes_on(
            commit_files_flow(s, branch, files, message, signed),
            #[trigger] commit_files_flow(s + more, branch, files, message, signed),
            more,
        ),
{
    broadcast use {lemma_skip_more, lemma_create_commit_flow, lemma_write_tree_onto_commit_flow};
}

broadcast proof fn lemma_note_resolved_flow(
    s: Seq<ReplyModel>,
    more: Seq<ReplyModel>,
    conflicting: Seq<Seq<char>>,
    files: Seq<FileDiffModel>,
    i: int,
)
    ensures
        goes_on(
            note_resolved_flow(s, conflicting, files, i),
            #[trigger] note_resolved_flow(s + more, conflicting, files, i),
            more,
        ),
    decreases files.len() - i,
{
    broadcast use lemma_skip_more;

    if 0 <= i < files.len() {
        if !(conflicting.contains(files[i].path) && !is_unresolved(files[i].hunks)) {
            lemma_note_resolved_flow(s, more, conflicting, files, i + 1);
        } else {
            match ask_unit(s, RequestModel::ResolveConflict(files[i].path)) {
                Flow::Done(_, rest) => {
                    lemma_note_resolved_flow(rest, more, conflicting, files, i + 1);
                },
                Flow::Stop(_) => {},
            }
        }
    }
}

broadcast proof fn lemma_calculate_non_commited_diffs_flow(
    s: Seq<ReplyModel>,
    more: Seq<ReplyModel>,
    branch: BranchModel,
    target: TargetModel,
    files: Seq<FileDiffModel>,
)
    ensures
        goes_on(
            calculate_non_commited_diffs_flow(s, branch, target, files),
            #[trigger] calculate_non_commited_diffs_flow(s + more, branch, target, files),
            more,
        ),
{
    broadcast use {lemma_skip_more, lemma_note_resolved_flow, lemma_write_tree_flow};
}

broadcast proof fn lemma_commit_status_flow(
    s: Seq<ReplyModel>,
    more: Seq<ReplyModel>,
    target: TargetModel,
    status: BranchStatusModel,
    message: Seq<char>,
    ownership: Option<Seq<FileOwnershipModel>>,
    signed: bool,
)
    ensures
        goes_on(
            commit_status_flow(s, target, status, message, ownership, signed),
            #[trigger] commit_status_flow(s + more, target, status, message, ownership, signed),
            more,
        ),
{
    broadcast use {
        lemma_skip_more,
        lemma_calculate_non_commited_diffs_flow,
        lemma_commit_files_flow,
    };
}

broadcast proof fn lemma_non_applied_status_flow(
    s: Seq<ReplyModel>,
    more: Seq<ReplyModel>,
    target: TargetModel,
    branch: BranchModel,
)
    ensures
        goes_on(
            non_applied_status_flow(s, target, branch),
            #[trigger] non_applied_status_flow(s + more, target, branch),
            more,
        ),
{
    broadcast use lemma_skip_more;
}

broadcast proof fn lemma_get_non_applied_status_flow(
    s: Seq<ReplyModel>,
    more: Seq<ReplyModel>,
    target: TargetModel,
    branches: Seq<BranchModel>,
    done: Seq<BranchStatusModel>,
)
    ensures
        goes_on(
            get_non_applied_status_flow(s, target, branches, done),
            #[trigger] get_non_applied_status_flow(s + more, target, branches, done),
            more,
        ),
    decreases branches.len() - done.len(),
{
    broadcast use {lemma_skip_more, lemma_non_applied_status_flow};

    if done.len() < branches.len() {
        match non_applied_status_flow(s, target, branches[done.len() as int]) {
            Flow::Done(next, rest) => {
                lemma_get_non_applied_status_flow(rest, more, target, branches, done.push(next));
            },
            Flow::Stop(_) => {},
        }
    }
}

broadcast proof fn lemma_get_status_by_branch_flow(s: Seq<ReplyModel>, more: Seq<ReplyModel>)
    ensures
        goes_on(get_status_by_branch_flow(s), #[trigger] get_status_by_branch_flow(s + more), more),
{
    broadcast use {
        lemma_skip_more,
        lemma_get_applied_status_flow,
        lemma_get_default_target_flow,
        lemma_get_non_applied_status_flow,
    };
}

broadcast proof fn lemma_commit_flow(
    s: Seq<ReplyModel>,
    more: Seq<ReplyModel>,
    id: BranchId,
    message: Seq<char>,
    ownership: Option<Seq<FileOwnershipModel>>,
    signed: bool,
)
    ensures
        goes_on(
            commit_flow(s, id, message, ownership, signed),
            #[trigger] commit_flow(s + more, id, message, ownership, signed),
            more,
        ),
{
    broadcast use {lemma_skip_more, lemma_commit_status_flow, lemma_get_status_by_branch_flow};
}

broadcast proof fn lemma_amend_head_flow(
    s: Seq<ReplyModel>,
    more: Seq<ReplyModel>,
    branch: BranchModel,
    head: CommitModel,
    files: Seq<FileDiffModel>,
    signed: bool,
)
    ensures
        goes_on(
            amend_head_flow(s, branch, head, files, signed),
            #[trigger] amend_head_flow(s + more, branch, head, files, signed),
            more,
        ),
{
    broadcast use {lemma_skip_more, lemma_write_tree_onto_commit_flow};
}

broadcast proof fn lemma_amend_status_flow(
    s: Seq<ReplyModel>,
    more: Seq<ReplyModel>,
    target: TargetModel,
    status: BranchStatusModel,
    ownership: Seq<FileOwnershipModel>,
    signed: bool,
)
    ensures
        goes_on(
            amend_status_flow(s, target, status, ownership, signed),
            #[trigger] amend_status_flow(s + more, target, status, ownership, signed),
            more,
        ),
{
    broadcast use {lemma_skip_more, lemma_amend_head_flow, lemma_calculate_non_commited_diffs_flow};
}

broadcast proof fn lemma_amend_applied_flow(
    s: Seq<ReplyModel>,
    more: Seq<ReplyModel>,
    id: BranchId,
    applied: Seq<BranchModel>,
    ownership: Seq<FileOwnershipModel>,
    signed: bool,
)
    ensures
        goes_on(
            amend_applied_flow(s, id, applied, ownership, signed),
            #[trigger] amend_applied_flow(s + more, id, applied, ownership, signed),
            more,
        ),
{
    broadcast use {
        lemma_skip_more,
        lemma_amend_status_flow,
        lemma_get_applied_status_flow,
        lemma_get_default_target_flow,
    };
}

broadcast proof fn lemma_amend_flow(
    s: Seq<ReplyModel>,
    more: Seq<ReplyModel>,
    id: BranchId,
    ownership: Seq<FileOwnershipModel>,
    signed: bool,
)
    ensures
        goes_on(
            amend_flow(s, id, ownership, signed),
            #[trigger] amend_flow(s + more, id, ownership, signed),
            more,
        ),
{
    broadcast use {lemma_skip_more, lemma_amend_applied_flow};
}

broadcast proof fn lemma_wip_commit_flow(
    s: Seq<ReplyModel>,
    more: Seq<ReplyModel>,
    target: TargetModel,
    head: Oid,
    files: Seq<FileDiffModel>,
)
    ensures
        goes_on(
            wip_commit_flow(s, target, head, files),
            #[trigger] wip_commit_flow(s + more, target, head, files),
            more,
        ),
{
    broadcast use {lemma_skip_more, lemma_write_tree_flow};
}

broadcast proof fn lemma_commit_pick_flow(
    s: Seq<ReplyModel>,
    more: Seq<ReplyModel>,
    branch: BranchModel,
    picked: CommitModel,
    index: MergeIndex,
)
    ensures
        goes_on(
            commit_pick_flow(s, branch, picked, index),
            #[trigger] commit_pick_flow(s + more, branch, picked, index),
            more,
        ),
{
    broadcast use lemma_skip_more;
}

broadcast proof fn lemma_finish_pick_flow(
    s: Seq<ReplyModel>,
    more: Seq<ReplyModel>,
    branch: BranchModel,
    picked: CommitModel,
    index: MergeIndex,
)
    ensures
        goes_on(
            finish_pick_flow(s, branch, picked, index),
            #[trigger] finish_pick_flow(s + more, branch, picked, index),
            more,
        ),
{
    broadcast use {lemma_skip_more, lemma_check_out_conflicts_flow, lemma_commit_pick_flow};
}

broadcast proof fn lemma_pick_onto_flow(
    s: Seq<ReplyModel>,
    more: Seq<ReplyModel>,
    branch: BranchModel,
    id: BranchId,
    picked: CommitModel,
    target: TargetModel,
)
    ensures
        goes_on(
            pick_onto_flow(s, branch, id, picked, target),
            #[trigger] pick_onto_flow(s + more, branch, id, picked, target),
            more,
        ),
{
    broadcast use {
        lemma_skip_more,
        lemma_finish_pick_flow,
        lemma_get_applied_status_flow,
        lemma_unapply_each_flow,
        lemma_wip_commit_flow,
    };
}

broadcast proof fn lemma_cherry_pick_applied_flow(
    s: Seq<ReplyModel>,
    more: Seq<ReplyModel>,
    branch: BranchModel,
    id: BranchId,
    oid: Oid,
)
    ensures
        goes_on(
            cherry_pick_applied_flow(s, branch, id, oid),
            #[trigger] cherry_pick_applied_flow(s + more, branch, id, oid),
            more,
        ),
{
    broadcast use {lemma_skip_more, lemma_get_default_target_flow, lemma_pick_onto_flow};
}

broadcast proof fn lemma_cherry_pick_flow(
    s: Seq<ReplyModel>,
    more: Seq<ReplyModel>,
    id: BranchId,
    oid: Oid,
)
    ensures
        goes_on(cherry_pick_flow(s, id, oid), #[trigger] cherry_pick_flow(s + more, id, oid), more),
{
    broadcast use {lemma_skip_more, lemma_cherry_pick_applied_flow};
}

broadcast proof fn lemma_check_reset_flow(
    s: Seq<ReplyModel>,
    more: Seq<ReplyModel>,
    target: TargetModel,
    branch: BranchModel,
    oid: Oid,
)
    ensures
        goes_on(
            check_reset_flow(s, target, branch, oid),
            #[trigger] check_reset_flow(s + more, target, branch, oid),
            more,
        ),
{
    broadcast use lemma_skip_more;
}

broadcast proof fn lemma_reset_branch_flow(
    s: Seq<ReplyModel>,
    more: Seq<ReplyModel>,
    id: BranchId,
    oid: Oid,
)
    ensures
        goes_on(
            reset_branch_flow(s, id, oid),
            #[trigger] reset_branch_flow(s + more, id, oid),
            more,
        ),
{
    broadcast use {lemma_skip_more, lemma_check_reset_flow, lemma_get_default_target_flow};
}

broadcast proof fn lemma_rename_flow(
    s: Seq<ReplyModel>,
    more: Seq<ReplyModel>,
    branch: BranchModel,
    name: Seq<char>,
)
    ensures
        goes_on(rename_flow(s, branch, name), #[trigger] rename_flow(s + more, branch, name), more),
{
    broadcast use lemma_skip_more;
}

broadcast proof fn lemma_set_upstream_flow(
    s: Seq<ReplyModel>,
    more: Seq<ReplyModel>,
    branch: BranchModel,
    name: Seq<char>,
)
    ensures
        goes_on(
            set_upstream_flow(s, branch, name),
            #[trigger] set_upstream_flow(s + more, branch, name),
            more,
        ),
{
    broadcast use {lemma_skip_more, lemma_get_default_target_flow};
}

#[verifier::rlimit(80)]
broadcast proof fn lemma_update_branch_flow(
    s: Seq<ReplyModel>,
    more: Seq<ReplyModel>,
    update: BranchUpdateModel,
)
    ensures
        goes_on(
            update_branch_flow(s, update),
            #[trigger] update_branch_flow(s + more, update),
            more,
        ),
{
    broadcast use {
        lemma_skip_more,
        lemma_rename_flow,
        lemma_set_ownership_flow,
        lemma_set_upstream_flow,
    };
}

broadcast proof fn lemma_delete_branch_flow(s: Seq<ReplyModel>, more: Seq<ReplyModel>, id: BranchId)
    ensures
        goes_on(delete_branch_flow(s, id), #[trigger] delete_branch_flow(s + more, id), more),
{
    broadcast use lemma_skip_more;
}

broadcast proof fn lemma_show_hunks_flow(
    s: Seq<ReplyModel>,
    more: Seq<ReplyModel>,
    file: FileDiffModel,
    times: Seq<FileTimeModel>,
    shown: Seq<VirtualHunkModel>,
)
    ensures
        goes_on(
            show_hunks_flow(s, file, times, shown),
            #[trigger] show_hunks_flow(s + more, file, times, shown),
            more,
        ),
    decreases file.hunks.len() - shown.len(),
{
    broadcast use {lemma_skip_more, lemma_get_mtime_flow};

    if shown.len() < file.hunks.len() {
        match get_mtime_flow(s, times, true, file.path) {
            Flow::Done(m, rest) => {
                lemma_show_hunks_flow(
                    rest,
                    more,
                    file,
                    m.1,
                    shown.push(shown_hunk(file.path, file.hunks[shown.len() as int], m.0)),
                );
            },
            Flow::Stop(_) => {},
        }
    }
}

broadcast proof fn lemma_show_files_flow(
    s: Seq<ReplyModel>,
    more: Seq<ReplyModel>,
    diff: Seq<FileDiffModel>,
    times: Seq<FileTimeModel>,
    shown: Seq<FileHunksModel>,
)
    ensures
        goes_on(
            show_files_flow(s, diff, times, shown),
            #[trigger] show_files_flow(s + more, diff, times, shown),
            more,
        ),
    decreases diff.len() - shown.len(),
{
    broadcast use {lemma_skip_more, lemma_show_hunks_flow};

    if shown.len() < diff.len() {
        match show_hunks_flow(s, diff[shown.len() as int], times, seq![]) {
            Flow::Done(h, rest) => {
                lemma_show_files_flow(
                    rest,
                    more,
                    diff,
                    h.1,
                    shown.push(FileHunksModel { path: diff[shown.len() as int].path, hunks: h.0 }),
                );
            },
            Flow::Stop(_) => {},
        }
    }
}

broadcast proof fn lemma_virtual_hunks_by_filepath_flow(
    s: Seq<ReplyModel>,
    more: Seq<ReplyModel>,
    diff: Seq<FileDiffModel>,
)
    ensures
        goes_on(
            virtual_hunks_by_filepath_flow(s, diff),
            #[trigger] virtual_hunks_by_filepath_flow(s + more, diff),
            more,
        ),
{
    broadcast use {lemma_skip_more, lemma_show_files_flow};
}

broadcast proof fn lemma_is_conflicted_flow(
    s: Seq<ReplyModel>,
    more: Seq<ReplyModel>,
    path: Seq<char>,
)
    ensures
        goes_on(is_conflicted_flow(s, path), #[trigger] is_conflicted_flow(s + more, path), more),
{
    broadcast use lemma_skip_more;
}

broadcast proof fn lemma_to_files_flow(
    s: Seq<ReplyModel>,
    more: Seq<ReplyModel>,
    groups: Seq<FileHunksModel>,
    shown: Seq<VirtualFileModel>,
)
    ensures
        goes_on(
            to_files_flow(s, groups, shown),
            #[trigger] to_files_flow(s + more, groups, shown),
            more,
        ),
    decreases groups.len() - shown.len(),
{
    broadcast use {lemma_skip_more, lemma_is_conflicted_flow};

    if shown.len() < groups.len() {
        match is_conflicted_flow(s, groups[shown.len() as int].path) {
            Flow::Done(conflicted, rest) => {
                lemma_to_files_flow(
                    rest,
                    more,
                    groups,
                    shown.push(shown_file(groups[shown.len() as int], conflicted)),
                );
            },
            Flow::Stop(_) => {},
        }
    }
}

broadcast proof fn lemma_virtual_hunks_to_virtual_files_flow(
    s: Seq<ReplyModel>,
    more: Seq<ReplyModel>,
    hunks: Seq<VirtualHunkModel>,
)
    ensures
        goes_on(
            virtual_hunks_to_virtual_files_flow(s, hunks),
            #[trigger] virtual_hunks_to_virtual_files_flow(s + more, hunks),
            more,
        ),
{
    broadcast use {lemma_skip_more, lemma_to_files_flow};
}

broadcast proof fn lemma_diffs_to_virtual_files_flow(
    s: Seq<ReplyModel>,
    more: Seq<ReplyModel>,
    diffs: Seq<FileDiffModel>,
)
    ensures
        goes_on(
            diffs_to_virtual_files_flow(s, diffs),
            #[trigger] diffs_to_virtual_files_flow(s + more, diffs),
            more,
        ),
{
    broadcast use {
        lemma_skip_more,
        lemma_virtual_hunks_by_filepath_flow,
        lemma_virtual_hunks_to_virtual_files_flow,
    };
}

broadcast proof fn lemma_list_virtual_commit_files_flow(
    s: Seq<ReplyModel>,
    more: Seq<ReplyModel>,
    commit: CommitModel,
)
    ensures
        goes_on(
            list_virtual_commit_files_flow(s, commit),
            #[trigger] list_virtual_commit_files_flow(s + more, commit),
            more,
        ),
{
    broadcast use {lemma_skip_more, lemma_diffs_to_virtual_files_flow};
}

broadcast proof fn lemma_adds_nothing_flow(
    s: Seq<ReplyModel>,
    more: Seq<ReplyModel>,
    merge_base: Oid,
    remote_head: Oid,
    commit: CommitModel,
)
    ensures
        goes_on(
            adds_nothing_flow(s, merge_base, remote_head, commit),
            #[trigger] adds_nothing_flow(s + more, merge_base, remote_head, commit),
            more,
        ),
{
    broadcast use lemma_skip_more;
}

broadcast proof fn lemma_is_commit_integrated_flow(
    s: Seq<ReplyModel>,
    more: Seq<ReplyModel>,
    target: TargetModel,
    commit: CommitModel,
)
    ensures
        goes_on(
            is_commit_integrated_flow(s, target, commit),
            #[trigger] is_commit_integrated_flow(s + more, target, commit),
            more,
        ),
{
    broadcast use {lemma_skip_more, lemma_adds_nothing_flow};
}

broadcast proof fn lemma_commit_to_vbranch_commit_flow(
    s: Seq<ReplyModel>,
    more: Seq<ReplyModel>,
    target: TargetModel,
    commit: CommitModel,
    pushed: Option<Seq<Oid>>,
)
    ensures
        goes_on(
            commit_to_vbranch_commit_flow(s, target, commit, pushed),
            #[trigger] commit_to_vbranch_commit_flow(s + more, target, commit, pushed),
            more,
        ),
{
    broadcast use {
        lemma_skip_more,
        lemma_is_commit_integrated_flow,
        lemma_list_virtual_commit_files_flow,
    };
}

broadcast proof fn lemma_show_commits_flow(
    s: Seq<ReplyModel>,
    more: Seq<ReplyModel>,
    target: TargetModel,
    commits: Seq<CommitModel>,
    pushed: Seq<Oid>,
    shown: Seq<VirtualCommitModel>,
)
    ensures
        goes_on(
            show_commits_flow(s, target, commits, pushed, shown),
            #[trigger] show_commits_flow(s + more, target, commits, pushed, shown),
            more,
        ),
    decreases commits.len() - shown.len(),
{
    broadcast use {lemma_skip_more, lemma_commit_to_vbranch_commit_flow};

    if shown.len() < commits.len() {
        match commit_to_vbranch_commit_flow(s, target, commits[shown.len() as int], Some(pushed)) {
            Flow::Done(next, rest) => {
                lemma_show_commits_flow(rest, more, target, commits, pushed, shown.push(next));
            },
            Flow::Stop(_) => {},
        }
    }
}

broadcast proof fn lemma_find_upstream_flow(
    s: Seq<ReplyModel>,
    more: Seq<ReplyModel>,
    branch: BranchModel,
)
    ensures
        goes_on(
            find_upstream_flow(s, branch),
            #[trigger] find_upstream_flow(s + more, branch),
            more,
        ),
{
    broadcast use lemma_skip_more;
}

broadcast proof fn lemma_pushed_commits_flow(
    s: Seq<ReplyModel>,
    more: Seq<ReplyModel>,
    target: TargetModel,
    upstream: Option<CommitModel>,
)
    ensures
        goes_on(
            pushed_commits_flow(s, target, upstream),
            #[trigger] pushed_commits_flow(s + more, target, upstream),
            more,
        ),
{
    broadcast use lemma_skip_more;
}

broadcast proof fn lemma_base_current_flow(
    s: Seq<ReplyModel>,
    more: Seq<ReplyModel>,
    target: TargetModel,
    branch: BranchModel,
)
    ensures
        goes_on(
            base_current_flow(s, target, branch),
            #[trigger] base_current_flow(s + more, target, branch),
            more,
        ),
{
    broadcast use lemma_skip_more;
}

broadcast proof fn lemma_describe_upstream_flow(
    s: Seq<ReplyModel>,
    more: Seq<ReplyModel>,
    branch: BranchModel,
    found: bool,
)
    ensures
        goes_on(
            describe_upstream_flow(s, branch, found),
            #[trigger] describe_upstream_flow(s + more, branch, found),
            more,
        ),
{
    broadcast use lemma_skip_more;
}

broadcast proof fn lemma_branch_facts_flow(
    s: Seq<ReplyModel>,
    more: Seq<ReplyModel>,
    target: TargetModel,
    branch: BranchModel,
)
    ensures
        goes_on(
            branch_facts_flow(s, target, branch),
            #[trigger] branch_facts_flow(s + more, target, branch),
            more,
        ),
{
    broadcast use {
        lemma_skip_more,
        lemma_base_current_flow,
        lemma_describe_upstream_flow,
        lemma_find_upstream_flow,
        lemma_pushed_commits_flow,
        lemma_show_commits_flow,
    };
}

broadcast proof fn lemma_is_requires_force_flow(
    s: Seq<ReplyModel>,
    more: Seq<ReplyModel>,
    branch: BranchModel,
)
    ensures
        goes_on(
            is_requires_force_flow(s, branch),
            #[trigger] is_requires_force_flow(s + more, branch),
            more,
        ),
{
    broadcast use lemma_skip_more;
}

broadcast proof fn lemma_show_branch_flow(
    s: Seq<ReplyModel>,
    more: Seq<ReplyModel>,
    target: TargetModel,
    status: BranchStatusModel,
)
    ensures
        goes_on(
            show_branch_flow(s, target, status),
            #[trigger] show_branch_flow(s + more, target, status),
            more,
        ),
{
    broadcast use {
        lemma_skip_more,
        lemma_branch_facts_flow,
        lemma_calculate_non_commited_diffs_flow,
        lemma_diffs_to_virtual_files_flow,
        lemma_is_requires_force_flow,
    };
}

broadcast proof fn lemma_show_branches_flow(
    s: Seq<ReplyModel>,
    more: Seq<ReplyModel>,
    target: TargetModel,
    statuses: Seq<BranchStatusModel>,
    shown: Seq<VirtualBranchModel>,
)
    ensures
        goes_on(
            show_branches_flow(s, target, statuses, shown),
            #[trigger] show_branches_flow(s + more, target, statuses, shown),
            more,
        ),
    decreases statuses.len() - shown.len(),
{
    broadcast use {lemma_skip_more, lemma_show_branch_flow};

    if shown.len() < statuses.len() {
        match show_branch_flow(s, target, statuses[shown.len() as int]) {
            Flow::Done(next, rest) => {
                lemma_show_branches_flow(rest, more, target, statuses, shown.push(next));
            },
            Flow::Stop(_) => {},
        }
    }
}

broadcast proof fn lemma_list_virtual_branches_flow(s: Seq<ReplyModel>, more: Seq<ReplyModel>)
    ensures
        goes_on(
            list_virtual_branches_flow(s),
            #[trigger] list_virtual_branches_flow(s + more),
            more,
        ),
{
    broadcast use {
        lemma_skip_more,
        lemma_get_default_target_flow,
        lemma_get_status_by_branch_flow,
        lemma_show_branches_flow,
    };
}

broadcast proof fn lemma_find_base_tree_flow(
    s: Seq<ReplyModel>,
    more: Seq<ReplyModel>,
    branch_commit: Oid,
    target_commit: Oid,
)
    ensures
        goes_on(
            find_base_tree_flow(s, branch_commit, target_commit),
            #[trigger] find_base_tree_flow(s + more, branch_commit, target_commit),
            more,
        ),
{
    broadcast use lemma_skip_more;
}

broadcast proof fn lemma_commit_at_flow(
    s: Seq<ReplyModel>,
    more: Seq<ReplyModel>,
    refname: Seq<char>,
)
    ensures
        stays_valid(
            commit_at_flow(s, refname),
            #[trigger] commit_at_flow(s + more, refname),
            more,
        ),
{
    broadcast use lemma_skip_more;
}

broadcast proof fn lemma_commit_upstream_flow(
    s: Seq<ReplyModel>,
    more: Seq<ReplyModel>,
    branch: BranchModel,
    upstream: CommitModel,
    index: MergeIndex,
    signed: bool,
)
    ensures
        goes_on(
            commit_upstream_flow(s, branch, upstream, index, signed),
            #[trigger] commit_upstream_flow(s + more, branch, upstream, index, signed),
            more,
        ),
{
    broadcast use lemma_skip_more;
}

#[verifier::rlimit(80)]
broadcast proof fn lemma_merge_commit_flow(
    s: Seq<ReplyModel>,
    more: Seq<ReplyModel>,
    branch: BranchModel,
    id: BranchId,
    upstream: CommitModel,
    signed: bool,
)
    ensures
        goes_on(
            merge_commit_flow(s, branch, id, upstream, signed),
            #[trigger] merge_commit_flow(s + more, branch, id, upstream, signed),
            more,
        ),
{
    broadcast use {
        lemma_skip_more,
        lemma_check_out_conflicts_flow,
        lemma_commit_upstream_flow,
        lemma_find_base_tree_flow,
        lemma_unapply_each_flow,
    };
}

broadcast proof fn lemma_merge_virtual_branch_upstream_flow(
    s: Seq<ReplyModel>,
    more: Seq<ReplyModel>,
    id: BranchId,
    signed: bool,
)
    ensures
        stays_valid(
            merge_virtual_branch_upstream_flow(s, id, signed),
            #[trigger] merge_virtual_branch_upstream_flow(s + more, id, signed),
            more,
        ),
{
    broadcast use {lemma_skip_more, lemma_commit_at_flow, lemma_merge_commit_flow};
}

broadcast proof fn lemma_merges_cleanly_flow(
    s: Seq<ReplyModel>,
    more: Seq<ReplyModel>,
    base: Oid,
    ours: Oid,
    theirs: Oid,
)
    ensures
        goes_on(
            merges_cleanly_flow(s, base, ours, theirs),
            #[trigger] merges_cleanly_flow(s + more, base, ours, theirs),
            more,
        ),
{
    broadcast use lemma_skip_more;
}

broadcast proof fn lemma_remote_mergeable_flow(
    s: Seq<ReplyModel>,
    more: Seq<ReplyModel>,
    target: TargetModel,
    name: Seq<char>,
)
    ensures
        goes_on(
            remote_mergeable_flow(s, target, name),
            #[trigger] remote_mergeable_flow(s + more, target, name),
            more,
        ),
{
    broadcast use {lemma_skip_more, lemma_find_base_tree_flow, lemma_merges_cleanly_flow};
}

broadcast proof fn lemma_is_remote_branch_mergeable_flow(
    s: Seq<ReplyModel>,
    more: Seq<ReplyModel>,
    name: Seq<char>,
)
    ensures
        goes_on(
            is_remote_branch_mergeable_flow(s, name),
            #[trigger] is_remote_branch_mergeable_flow(s + more, name),
            more,
        ),
{
    broadcast use {lemma_skip_more, lemma_get_default_target_flow, lemma_remote_mergeable_flow};
}

broadcast proof fn lemma_virtual_mergeable_flow(
    s: Seq<ReplyModel>,
    more: Seq<ReplyModel>,
    target: TargetModel,
    branch: BranchModel,
)
    ensures
        goes_on(
            virtual_mergeable_flow(s, target, branch),
            #[trigger] virtual_mergeable_flow(s + more, target, branch),
            more,
        ),
{
    broadcast use {lemma_skip_more, lemma_find_base_tree_flow, lemma_merges_cleanly_flow};
}

broadcast proof fn lemma_is_virtual_branch_mergeable_flow(
    s: Seq<ReplyModel>,
    more: Seq<ReplyModel>,
    id: BranchId,
)
    ensures
        goes_on(
            is_virtual_branch_mergeable_flow(s, id),
            #[trigger] is_virtual_branch_mergeable_flow(s + more, id),
            more,
        ),
{
    broadcast use {lemma_skip_more, lemma_get_default_target_flow, lemma_virtual_mergeable_flow};
}

broadcast proof fn lemma_push_target_flow(
    s: Seq<ReplyModel>,
    more: Seq<ReplyModel>,
    branch: BranchModel,
)
    ensures
        goes_on(push_target_flow(s, branch), #[trigger] push_target_flow(s + more, branch), more),
{
    broadcast use {lemma_skip_more, lemma_get_default_target_flow};
}

broadcast proof fn lemma_ask_remote_end(
    s: Seq<ReplyModel>,
    more: Seq<ReplyModel>,
    request: RequestModel,
)
    ensures
        stays_valid(ask_remote_end(s, request), #[trigger] ask_remote_end(s + more, request), more),
{
    broadcast use lemma_skip_more;
}

broadcast proof fn lemma_push_to_flow(
    s: Seq<ReplyModel>,
    more: Seq<ReplyModel>,
    branch: BranchModel,
    remote: RemoteBranchModel,
    force: bool,
)
    ensures
        goes_on(
            push_to_flow(s, branch, remote, force),
            #[trigger] push_to_flow(s + more, branch, remote, force),
            more,
        ),
{
    broadcast use {lemma_skip_more, lemma_ask_remote_end};
}

broadcast proof fn lemma_push_flow(
    s: Seq<ReplyModel>,
    more: Seq<ReplyModel>,
    id: BranchId,
    force: bool,
)
    ensures
        goes_on(push_flow(s, id, force), #[trigger] push_flow(s + more, id, force), more),
{
    broadcast use {lemma_skip_more, lemma_push_target_flow, lemma_push_to_flow};
}

broadcast proof fn lemma_unapply_from_flow(
    s: Seq<ReplyModel>,
    more: Seq<ReplyModel>,
    branches: Seq<BranchModel>,
    i: int,
)
    ensures
        goes_on(
            unapply_from_flow(s, branches, i),
            #[trigger] unapply_from_flow(s + more, branches, i),
            more,
        ),
    decreases branches.len() - i,
{
    broadcast use lemma_skip_more;

    if 0 <= i < branches.len() {
        match ask_unit(
            s,
            RequestModel::WriteBranch(BranchModel { applied: false, ..branches[i] }),
        ) {
            Flow::Done(_, rest) => {
                lemma_unapply_from_flow(rest, more, branches, i + 1);
            },
            Flow::Stop(_) => {},
        }
    }
}

broadcast proof fn lemma_mark_all_unapplied_flow(s: Seq<ReplyModel>, more: Seq<ReplyModel>)
    ensures
        goes_on(mark_all_unapplied_flow(s), #[trigger] mark_all_unapplied_flow(s + more), more),
{
    broadcast use {lemma_skip_more, lemma_list_applied_vbranches_flow, lemma_unapply_from_flow};
}

/// Replies stay valid: no operation goes back on what it has made of the replies so far when more
/// of them come. When the reply to something that an operation cannot do without is a failure, that
/// is how the operation ends; only merging from upstream takes it that nothing is there where it does
/// not find it.
pub proof fn replies_stay_valid(
    s: Seq<ReplyModel>,
    more: Seq<ReplyModel>,
    id: BranchId,
    signed: bool,
    ownership: Seq<FileOwnershipModel>,
    target: TargetModel,
    commit: CommitModel,
    pushed: Option<Seq<Oid>>,
    create: BranchCreateModel,
    update: BranchUpdateModel,
    diff: Seq<FileDiffModel>,
    oid: Oid,
    files: Seq<FileDiffModel>,
    message: Seq<char>,
    ownership_of_commit: Option<Seq<FileOwnershipModel>>,
    force: bool,
    name: Seq<char>,
)
    ensures
        goes_on(get_default_target_flow(s), get_default_target_flow(s + more), more),
        goes_on(apply_branch_flow(s, id, signed), apply_branch_flow(s + more, id, signed), more),
        goes_on(
            unapply_ownership_flow(s, ownership),
            unapply_ownership_flow(s + more, ownership),
            more,
        ),
        goes_on(unapply_branch_flow(s, id), unapply_branch_flow(s + more, id), more),
        goes_on(flush_applied_vbranches_flow(s), flush_applied_vbranches_flow(s + more), more),
        goes_on(list_virtual_branches_flow(s), list_virtual_branches_flow(s + more), more),
        goes_on(
            commit_to_vbranch_commit_flow(s, target, commit, pushed),
            commit_to_vbranch_commit_flow(s + more, target, commit, pushed),
            more,
        ),
        goes_on(
            create_virtual_branch_flow(s, create),
            create_virtual_branch_flow(s + more, create),
            more,
        ),
        stays_valid(
            merge_virtual_branch_upstream_flow(s, id, signed),
            merge_virtual_branch_upstream_flow(s + more, id, signed),
            more,
        ),
        goes_on(update_branch_flow(s, update), update_branch_flow(s + more, update), more),
        goes_on(delete_branch_flow(s, id), delete_branch_flow(s + more, id), more),
        goes_on(
            virtual_hunks_by_filepath_flow(s, diff),
            virtual_hunks_by_filepath_flow(s + more, diff),
            more,
        ),
        goes_on(get_status_by_branch_flow(s), get_status_by_branch_flow(s + more), more),
        goes_on(reset_branch_flow(s, id, oid), reset_branch_flow(s + more, id, oid), more),
        goes_on(write_tree_flow(s, target, files), write_tree_flow(s + more, target, files), more),
        goes_on(
            commit_flow(s, id, message, ownership_of_commit, signed),
            commit_flow(s + more, id, message, ownership_of_commit, signed),
            more,
        ),
        goes_on(push_flow(s, id, force), push_flow(s + more, id, force), more),
        goes_on(mark_all_unapplied_flow(s), mark_all_unapplied_flow(s + more), more),
        goes_on(
            is_remote_branch_mergeable_flow(s, name),
            is_remote_branch_mergeable_flow(s + more, name),
            more,
        ),
        goes_on(
            is_virtual_branch_mergeable_flow(s, id),
            is_virtual_branch_mergeable_flow(s + more, id),
            more,
        ),
        goes_on(
            amend_flow(s, id, ownership, signed),
            amend_flow(s + more, id, ownership, signed),
            more,
        ),
        goes_on(cherry_pick_flow(s, id, oid), cherry_pick_flow(s + more, id, oid), more),
{
    broadcast use {
        lemma_get_default_target_flow,
        lemma_apply_branch_flow,
        lemma_unapply_ownership_flow,
        lemma_unapply_branch_flow,
        lemma_flush_applied_vbranches_flow,
        lemma_list_virtual_branches_flow,
        lemma_commit_to_vbranch_commit_flow,
        lemma_create_virtual_branch_flow,
        lemma_merge_virtual_branch_upstream_flow,
        lemma_update_branch_flow,
        lemma_delete_branch_flow,
        lemma_virtual_hunks_by_filepath_flow,
        lemma_get_status_by_branch_flow,
        lemma_reset_branch_flow,
        lemma_write_tree_flow,
        lemma_commit_flow,
        lemma_push_flow,
        lemma_mark_all_unapplied_flow,
        lemma_is_remote_branch_mergeable_flow,
        lemma_is_virtual_branch_mergeable_flow,
        lemma_amend_flow,
        lemma_cherry_pick_flow,
    };
}

} // verus!
