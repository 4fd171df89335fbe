//! What holds of the hunks however they are shared out among the branches.

use crate::apply::strip_claim;
use crate::branch::{BranchModel, TargetModel};
use crate::claims::{
    claim_file, claim_hunk, claim_hunks, claimed_at, file_claim, hunks_at, lemma_claimed_at,
    with_hunks, BranchClaimModel, FileClaimModel,
};
use crate::diff::{any_lists, lemma_place_of, place_of, select, DiffHunkModel, FileDiffModel};
use crate::digest::diff_hash_of;
use crate::ownership::{
    holds, is_free_of, lemma_position_of, position_of, put_each, put_into, take_from, taken_is_gone,
    FileOwnershipModel, HunkModel,
};
use crate::protocol::{ask_diffs, Flow, ReplyModel, RequestModel};
use crate::seqs::{lemma_filter_from, sorting_orders_the_elements};
use crate::status::{
    align_branch_flow, align_flow, branches_to_serve_flow, claim_files_flow,
    get_applied_status_flow, give_files_flow, give_hunk, give_hunks_flow, give_rest_flow,
    share_out_flow, AlignmentModel, BranchStatusModel,
};
use crate::times::{get_mtime_flow, FileTimeModel};
use vstd::multiset::Multiset;
use vstd::prelude::*;

verus! {

/// Some hunks of a file, each with the path of the file, in no order.
pub open spec fn tagged(path: Seq<char>, hunks: Seq<DiffHunkModel>) -> Multiset<
    (Seq<char>, DiffHunkModel),
> {
    Seq::new(hunks.len(), |i: int| (path, hunks[i])).to_multiset()
}

/// All hunks of a diff, each with the path of its file, in no order.
pub open spec fn all_hunks(files: Seq<FileDiffModel>) -> Multiset<(Seq<char>, DiffHunkModel)>
    decreases files.len(),
{
    if files.len() == 0 {
        Multiset::empty()
    } else {
        all_hunks(files.drop_last()).add(tagged(files.last().path, files.last().hunks))
    }
}

/// All hunks that some branches have got.
pub open spec fn all_shared(statuses: Seq<BranchStatusModel>) -> Multiset<
    (Seq<char>, DiffHunkModel),
>
    decreases statuses.len(),
{
    if statuses.len() == 0 {
        Multiset::empty()
    } else {
        all_shared(statuses.drop_last()).add(all_hunks(statuses.last().files))
    }
}

proof fn lemma_tagged_push(path: Seq<char>, hunks: Seq<DiffHunkModel>, hunk: DiffHunkModel)
    ensures
        tagged(path, hunks.push(hunk)) == tagged(path, hunks).insert((path, hunk)),
{
    broadcast use vstd::seq_lib::group_to_multiset_ensures;

    let pairs = Seq::new(hunks.len(), |i: int| (path, hunks[i]));
    assert(Seq::new(hunks.push(hunk).len(), |i: int| (path, hunks.push(hunk)[i])) =~= pairs.push(
        (path, hunk),
    ));
}

proof fn lemma_tagged_insert(path: Seq<char>, hunks: Seq<DiffHunkModel>, hunk: DiffHunkModel)
    ensures
        tagged(path, hunks.insert(0, hunk)) == tagged(path, hunks).insert((path, hunk)),
{
    broadcast use vstd::seq_lib::group_to_multiset_ensures;

    let pairs = Seq::new(hunks.len(), |i: int| (path, hunks[i]));
    assert(Seq::new(hunks.insert(0, hunk).len(), |i: int| (path, hunks.insert(0, hunk)[i]))
        =~= pairs.insert(0, (path, hunk)));
}

proof fn lemma_tagged_remove(path: Seq<char>, hunks: Seq<DiffHunkModel>, at: int)
    requires
        0 <= at < hunks.len(),
    ensures
        tagged(path, hunks) == tagged(path, hunks.remove(at)).insert((path, hunks[at])),
{
    broadcast use vstd::seq_lib::group_to_multiset_ensures;

    let pairs = Seq::new(hunks.len(), |i: int| (path, hunks[i]));
    let rest = Seq::new(hunks.remove(at).len(), |i: int| (path, hunks.remove(at)[i]));
    assert(rest =~= pairs.remove(at));
    assert(pairs =~= rest.insert(at, (path, hunks[at])));
}

proof fn lemma_all_hunks_update(files: Seq<FileDiffModel>, at: int, file: FileDiffModel)
    requires
        0 <= at < files.len(),
    ensures
        all_hunks(files.update(at, file)).add(tagged(files[at].path, files[at].hunks))
            =~= all_hunks(files).add(tagged(file.path, file.hunks)),
    decreases files.len(),
{
    let new = files.update(at, file);
    if at == files.len() - 1 {
        assert(new.drop_last() =~= files.drop_last());
    } else {
        lemma_all_hunks_update(files.drop_last(), at, file);
        assert(new.drop_last() =~= files.drop_last().update(at, file));
        let rest = all_hunks(new.drop_last());
        let old_file = tagged(files[at].path, files[at].hunks);
        assert forall|p: (Seq<char>, DiffHunkModel)| #[trigger]
            all_hunks(new).add(old_file).count(p) == all_hunks(files).add(
                tagged(file.path, file.hunks),
            ).count(p) by {
            assert(rest.add(old_file).count(p) == all_hunks(files.drop_last()).add(
                tagged(file.path, file.hunks),
            ).count(p));
        }
    }
}

proof fn lemma_all_hunks_push(files: Seq<FileDiffModel>, file: FileDiffModel)
    ensures
        all_hunks(files.push(file)) == all_hunks(files).add(tagged(file.path, file.hunks)),
{
    assert(files.push(file).drop_last() =~= files);
}

proof fn lemma_with_hunks(files: Seq<FileDiffModel>, path: Seq<char>, hunks: Seq<DiffHunkModel>)
    ensures
        all_hunks(with_hunks(files, path, hunks)).add(tagged(path, hunks_at(files, path)))
            =~= all_hunks(files).add(tagged(path, hunks)),
{
    let at = place_of(files, path);
    lemma_place_of(files, path);
    if at < files.len() {
        lemma_all_hunks_update(files, at, FileDiffModel { path, hunks });
    } else {
        assert(tagged(path, seq![]) =~= Multiset::empty()) by {
            broadcast use vstd::seq_lib::group_to_multiset_ensures;

        }
        if hunks.len() == 0 {
            assert(hunks =~= seq![]);
        } else {
            lemma_all_hunks_push(files, FileDiffModel { path, hunks });
        }
    }
}

proof fn lemma_claim_hunks(path: Seq<char>, c: FileClaimModel, owned: Seq<HunkModel>, mtime: u128)
    ensures
        tagged(path, claim_hunks(c, owned, mtime).left).add(
            tagged(path, claim_hunks(c, owned, mtime).listed),
        ) =~= tagged(path, c.left).add(tagged(path, c.listed)),
    decreases owned.len(),
{
    if owned.len() > 0 {
        lemma_claim_hunks(path, c, owned.drop_last(), mtime);
        let before = claim_hunks(c, owned.drop_last(), mtime);
        let last = owned.last();
        let at = claimed_at(before.left, last);
        lemma_claimed_at(before.left, last);
        if at < before.left.len() {
            lemma_tagged_remove(path, before.left, at);
            lemma_tagged_push(path, before.listed, before.left[at]);
            lemma_tagged_insert(path, before.listed, before.left[at]);
        }
    }
}

proof fn lemma_claim_file(c: BranchClaimModel, owned: FileOwnershipModel, mtime: u128)
    ensures
        all_hunks(claim_file(c, owned, mtime).diff).add(
            all_hunks(claim_file(c, owned, mtime).files),
        ) =~= all_hunks(c.diff).add(all_hunks(c.files)),
{
    let path = owned.file_path;
    let claim = file_claim(c, owned, mtime);
    lemma_with_hunks(c.diff, path, claim.left);
    lemma_with_hunks(c.files, path, claim.listed);
    lemma_claim_hunks(
        path,
        FileClaimModel {
            left: hunks_at(c.diff, path),
            listed: hunks_at(c.files, path),
            kept: seq![],
            promoted: seq![],
        },
        owned.hunks,
        mtime,
    );
    let new = claim_file(c, owned, mtime);
    assert forall|p: (Seq<char>, DiffHunkModel)| #[trigger]
        all_hunks(new.diff).add(all_hunks(new.files)).count(p) == all_hunks(c.diff).add(
            all_hunks(c.files),
        ).count(p) by {
        let d = all_hunks(new.diff).add(tagged(path, hunks_at(c.diff, path)));
        let f = all_hunks(new.files).add(tagged(path, hunks_at(c.files, path)));
        assert(d.count(p) == all_hunks(c.diff).add(tagged(path, claim.left)).count(p));
        assert(f.count(p) == all_hunks(c.files).add(tagged(path, claim.listed)).count(p));
        assert(tagged(path, claim.left).add(tagged(path, claim.listed)).count(p) == tagged(
            path,
            hunks_at(c.diff, path),
        ).add(tagged(path, hunks_at(c.files, path))).count(p));
    }
}

proof fn lemma_claim_files(
    s: Seq<ReplyModel>,
    c: BranchClaimModel,
    times: Seq<FileTimeModel>,
    owned: Seq<FileOwnershipModel>,
    i: int,
)
    ensures
        claim_files_flow(s, c, times, owned, i) matches Flow::Done(r, _) ==> all_hunks(
            r.0.diff,
        ).add(all_hunks(r.0.files)) == all_hunks(c.diff).add(all_hunks(c.files)),
    decreases owned.len() - i,
{
    if 0 <= i < owned.len() {
        if place_of(c.diff, owned[i].file_path) >= c.diff.len() {
            lemma_claim_files(s, c, times, owned, i + 1);
        } else {
            match get_mtime_flow(s, times, false, owned[i].file_path) {
                Flow::Done(m, rest) => {
                    lemma_claim_file(c, owned[i], m.0);
                    lemma_claim_files(rest, claim_file(c, owned[i], m.0), m.1, owned, i + 1);
                },
                Flow::Stop(_) => {},
            }
        }
    }
}

proof fn lemma_all_shared_push(statuses: Seq<BranchStatusModel>, status: BranchStatusModel)
    ensures
        all_shared(statuses.push(status)) == all_shared(statuses).add(all_hunks(status.files)),
{
    assert(statuses.push(status).drop_last() =~= statuses);
}

proof fn lemma_align(s: Seq<ReplyModel>, a: AlignmentModel, branches: Seq<BranchModel>, i: int)
    ensures
        align_flow(s, a, branches, i) matches Flow::Done(r, _) ==> all_shared(r.statuses).add(
            all_hunks(r.diff),
        ) == all_shared(a.statuses).add(all_hunks(a.diff)),
    decreases branches.len() - i,
{
    if 0 <= i < branches.len() && branches[i].applied {
        let start = BranchClaimModel { diff: a.diff, files: seq![], kept: seq![], promoted: seq![] };
        lemma_claim_files(s, start, a.times, branches[i].ownership, 0);
        match align_branch_flow(s, a, branches[i]) {
            Flow::Done(next, rest) => {
                let status = next.statuses.last();
                lemma_all_shared_push(a.statuses, status);
                assert(all_hunks(next.diff).add(all_hunks(status.files)) == all_hunks(a.diff).add(
                    all_hunks(start.files),
                ));
                assert(all_shared(next.statuses).add(all_hunks(next.diff)) =~= all_shared(
                    a.statuses,
                ).add(all_hunks(next.diff).add(all_hunks(status.files))));
                assert(all_hunks(a.diff).add(all_hunks(start.files)) =~= all_hunks(a.diff));
                lemma_align(rest, next, branches, i + 1);
            },
            Flow::Stop(_) => {},
        }
    }
}

proof fn lemma_give_hunk(status: BranchStatusModel, path: Seq<char>, hunk: DiffHunkModel, mtime: u128)
    ensures
        all_hunks(give_hunk(status, path, hunk, mtime).files) =~= all_hunks(status.files).insert(
            (path, hunk),
        ),
{
    let before = hunks_at(status.files, path);
    lemma_with_hunks(status.files, path, before.push(hunk));
    lemma_tagged_push(path, before, hunk);
    let new = all_hunks(give_hunk(status, path, hunk, mtime).files);
    assert forall|p: (Seq<char>, DiffHunkModel)| #[trigger]
        new.count(p) == all_hunks(status.files).insert((path, hunk)).count(p) by {
        assert(new.add(tagged(path, before)).count(p) == all_hunks(status.files).add(
            tagged(path, before).insert((path, hunk)),
        ).count(p));
    }
}

proof fn lemma_give_hunks(
    s: Seq<ReplyModel>,
    status: BranchStatusModel,
    times: Seq<FileTimeModel>,
    file: FileDiffModel,
    i: int,
)
    requires
        0 <= i <= file.hunks.len(),
    ensures
        give_hunks_flow(s, status, times, file, i) matches Flow::Done(r, _) ==> all_hunks(
            r.0.files,
        ).add(tagged(file.path, file.hunks.take(i))) == all_hunks(status.files).add(
            tagged(file.path, file.hunks),
        ),
    decreases file.hunks.len() - i,
{
    if i < file.hunks.len() {
        match get_mtime_flow(s, times, false, file.path) {
            Flow::Done(m, rest) => {
                let next = give_hunk(status, file.path, file.hunks[i], m.0);
                lemma_give_hunk(status, file.path, file.hunks[i], m.0);
                lemma_give_hunks(rest, next, m.1, file, i + 1);
                lemma_tagged_push(file.path, file.hunks.take(i), file.hunks[i]);
                assert(file.hunks.take(i + 1) =~= file.hunks.take(i).push(file.hunks[i]));
                match give_hunks_flow(rest, next, m.1, file, i + 1) {
                    Flow::Done(r, _) => {
                        let got = all_hunks(r.0.files);
                        let all = tagged(file.path, file.hunks);
                        let taken = tagged(file.path, file.hunks.take(i));
                        assert forall|p: (Seq<char>, DiffHunkModel)| #[trigger]
                            got.add(taken).count(p) == all_hunks(status.files).add(all).count(p) by {
                            assert(got.add(tagged(file.path, file.hunks.take(i + 1))).count(p)
                                == all_hunks(next.files).add(all).count(p));
                        }
                        assert(got.add(taken) =~= all_hunks(status.files).add(all));
                    },
                    Flow::Stop(_) => {},
                }
            },
            Flow::Stop(_) => {},
        }
    } else {
        assert(file.hunks.take(i) =~= file.hunks);
    }
}

proof fn lemma_give_files(
    s: Seq<ReplyModel>,
    status: BranchStatusModel,
    times: Seq<FileTimeModel>,
    diff: Seq<FileDiffModel>,
    i: int,
)
    requires
        0 <= i <= diff.len(),
    ensures
        give_files_flow(s, status, times, diff, i) matches Flow::Done(r, _) ==> all_hunks(
            r.0.files,
        ).add(all_hunks(diff.take(i))) == all_hunks(status.files).add(all_hunks(diff)),
    decreases diff.len() - i,
{
    if i < diff.len() {
        lemma_give_hunks(s, status, times, diff[i], 0);
        match give_hunks_flow(s, status, times, diff[i], 0) {
            Flow::Done(g, rest) => {
                lemma_give_files(rest, g.0, g.1, diff, i + 1);
                assert(diff.take(i + 1).drop_last() =~= diff.take(i));
                assert(diff[i].hunks.take(0) =~= seq![]);
                assert(tagged(diff[i].path, seq![]) =~= Multiset::empty()) by {
                    broadcast use vstd::seq_lib::group_to_multiset_ensures;

                }
                match give_files_flow(rest, g.0, g.1, diff, i + 1) {
                    Flow::Done(r, _) => {
                        let got = all_hunks(r.0.files);
                        let these = tagged(diff[i].path, diff[i].hunks);
                        assert forall|p: (Seq<char>, DiffHunkModel)| #[trigger]
                            got.add(all_hunks(diff.take(i))).count(p) == all_hunks(
                                status.files,
                            ).add(all_hunks(diff)).count(p) by {
                            assert(got.add(all_hunks(diff.take(i + 1))).count(p) == all_hunks(
                                g.0.files,
                            ).add(all_hunks(diff)).count(p));
                            assert(all_hunks(g.0.files).add(
                                tagged(diff[i].path, diff[i].hunks.take(0)),
                            ).count(p) == all_hunks(status.files).add(these).count(p));
                        }
                        assert(got.add(all_hunks(diff.take(i))) =~= all_hunks(status.files).add(
                            all_hunks(diff),
                        ));
                    },
                    Flow::Stop(_) => {},
                }
            },
            Flow::Stop(_) => {},
        }
    } else {
        assert(diff.take(i) =~= diff);
    }
}

proof fn lemma_all_shared_update(
    statuses: Seq<BranchStatusModel>,
    at: int,
    status: BranchStatusModel,
)
    requires
        0 <= at < statuses.len(),
    ensures
        all_shared(statuses.update(at, status)).add(all_hunks(statuses[at].files)) =~= all_shared(
            statuses,
        ).add(all_hunks(status.files)),
    decreases statuses.len(),
{
    let new = statuses.update(at, status);
    if at == statuses.len() - 1 {
        assert(new.drop_last() =~= statuses.drop_last());
    } else {
        lemma_all_shared_update(statuses.drop_last(), at, status);
        assert(new.drop_last() =~= statuses.drop_last().update(at, status));
        let rest = all_shared(new.drop_last());
        let old_hunks = all_hunks(statuses[at].files);
        assert forall|p: (Seq<char>, DiffHunkModel)| #[trigger]
            all_shared(new).add(old_hunks).count(p) == all_shared(statuses).add(
                all_hunks(status.files),
            ).count(p) by {
            assert(rest.add(old_hunks).count(p) == all_shared(statuses.drop_last()).add(
                all_hunks(status.files),
            ).count(p));
        }
    }
}

proof fn lemma_align_count(s: Seq<ReplyModel>, a: AlignmentModel, branches: Seq<BranchModel>, i: int)
    requires
        0 <= i <= branches.len(),
        a.statuses.len() == i,
        forall|k: int|
            0 <= k < i ==> same_but_ownership((#[trigger] a.statuses[k]).branch, branches[k]),
    ensures
        align_flow(s, a, branches, i) matches Flow::Done(r, _) ==> {
            &&& r.statuses.len() == branches.len()
            &&& forall|k: int|
                0 <= k < branches.len() ==> same_but_ownership(
                    (#[trigger] r.statuses[k]).branch,
                    branches[k],
                )
        },
    decreases branches.len() - i,
{
    if i < branches.len() {
        match align_branch_flow(s, a, branches[i]) {
            Flow::Done(next, rest) => {
                lemma_align_count(rest, next, branches, i + 1);
            },
            Flow::Stop(_) => {},
        }
    }
}

/// Whether two branches are the same but for what they own.
pub open spec fn same_but_ownership(one: BranchModel, other: BranchModel) -> bool {
    one == (BranchModel { ownership: one.ownership, ..other })
}

proof fn lemma_give_keeps_branch(
    s: Seq<ReplyModel>,
    status: BranchStatusModel,
    times: Seq<FileTimeModel>,
    file: FileDiffModel,
    i: int,
)
    ensures
        give_hunks_flow(s, status, times, file, i) matches Flow::Done(r, _) ==> same_but_ownership(
            r.0.branch,
            status.branch,
        ),
    decreases file.hunks.len() - i,
{
    if 0 <= i < file.hunks.len() {
        match get_mtime_flow(s, times, false, file.path) {
            Flow::Done(m, rest) => {
                lemma_give_keeps_branch(
                    rest,
                    give_hunk(status, file.path, file.hunks[i], m.0),
                    m.1,
                    file,
                    i + 1,
                );
            },
            Flow::Stop(_) => {},
        }
    }
}

proof fn lemma_give_files_keeps_branch(
    s: Seq<ReplyModel>,
    status: BranchStatusModel,
    times: Seq<FileTimeModel>,
    diff: Seq<FileDiffModel>,
    i: int,
)
    ensures
        give_files_flow(s, status, times, diff, i) matches Flow::Done(r, _) ==> same_but_ownership(
            r.0.branch,
            status.branch,
        ),
    decreases diff.len() - i,
{
    if 0 <= i < diff.len() {
        lemma_give_keeps_branch(s, status, times, diff[i], 0);
        match give_hunks_flow(s, status, times, diff[i], 0) {
            Flow::Done(g, rest) => {
                lemma_give_files_keeps_branch(rest, g.0, g.1, diff, i + 1);
            },
            Flow::Stop(_) => {},
        }
    }
}

/// Each hunk goes to one branch, and to one only: where there is a branch at all, what the branches
/// have got together is the diff, no hunk missing and none twice.
pub proof fn every_hunk_goes_to_one_branch(
    s: Seq<ReplyModel>,
    diff: Seq<FileDiffModel>,
    branches: Seq<BranchModel>,
)
    requires
        branches.len() > 0,
    ensures
        share_out_flow(s, diff, branches) matches Flow::Done(statuses, _) ==> all_shared(statuses)
            == all_hunks(diff),
{
    let start = AlignmentModel { statuses: seq![], diff, times: seq![] };
    lemma_align(s, start, branches, 0);
    lemma_align_count(s, start, branches, 0);
    match align_flow(s, start, branches, 0) {
        Flow::Done(a, rest) => {
            lemma_give_files(rest, a.statuses[0], a.times, a.diff, 0);
            match give_files_flow(rest, a.statuses[0], a.times, a.diff, 0) {
                Flow::Done(g, _) => {
                    let statuses = a.statuses.update(0, g.0);
                    lemma_all_shared_update(a.statuses, 0, g.0);
                    assert(a.diff.take(0) =~= seq![]);
                    assert forall|p: (Seq<char>, DiffHunkModel)| #[trigger]
                        all_shared(statuses).count(p) == all_hunks(diff).count(p) by {
                        assert(all_shared(statuses).add(all_hunks(a.statuses[0].files)).count(p)
                            == all_shared(a.statuses).add(all_hunks(g.0.files)).count(p));
                        assert(all_hunks(g.0.files).add(all_hunks(a.diff.take(0))).count(p)
                            == all_hunks(a.statuses[0].files).add(all_hunks(a.diff)).count(p));
                        assert(all_shared(a.statuses).add(all_hunks(a.diff)).count(p) == all_shared(
                            start.statuses,
                        ).add(all_hunks(diff)).count(p));
                    }
                    assert(all_shared(statuses) =~= all_hunks(diff));
                },
                Flow::Stop(_) => {},
            }
        },
        Flow::Stop(_) => {},
    }
}

/// Every branch gets a status, in the order of the branches, and sharing out changes nothing of a
/// branch but what it owns.
pub proof fn every_branch_has_a_status(
    s: Seq<ReplyModel>,
    diff: Seq<FileDiffModel>,
    branches: Seq<BranchModel>,
)
    ensures
        share_out_flow(s, diff, branches) matches Flow::Done(statuses, _) ==> {
            &&& statuses.len() == branches.len()
            &&& forall|k: int|
                0 <= k < branches.len() ==> same_but_ownership(
                    (#[trigger] statuses[k]).branch,
                    branches[k],
                )
        },
{
    let start = AlignmentModel { statuses: seq![], diff, times: seq![] };
    lemma_align_count(s, start, branches, 0);
    match align_flow(s, start, branches, 0) {
        Flow::Done(a, rest) => {
            if a.statuses.len() > 0 {
                lemma_give_files_keeps_branch(rest, a.statuses[0], a.times, a.diff, 0);
            }
        },
        Flow::Stop(_) => {},
    }
}

/// What the applied branches have got together is what differs between the target and the working
/// directory, no hunk missing and none twice.
pub proof fn the_status_is_the_diff(
    s: Seq<ReplyModel>,
    target: TargetModel,
    branches: Seq<BranchModel>,
)
    ensures
        get_applied_status_flow(s, target, branches) matches Flow::Done(statuses, _) ==> {
            &&& s.len() > 0
            &&& s[0] matches ReplyModel::Diffs(diff)
            &&& all_shared(statuses) == all_hunks(diff)
        },
{
    sorting_orders_the_elements(branches, |b: BranchModel| b.order as int);
    match ask_diffs(s, RequestModel::DiffWorkdir(target.sha)) {
        Flow::Done(diff, rest) => {
            match branches_to_serve_flow(rest, branches, diff) {
                Flow::Done(served, rest) => {
                    if served.len() > 0 {
                        every_hunk_goes_to_one_branch(rest, diff, served);
                    } else {
                        every_branch_has_a_status(rest, diff, served);
                    }
                },
                Flow::Stop(_) => {},
            }
        },
        Flow::Stop(_) => {},
    }
}

/// Whether an owned hunk stands for one of some hunks.
pub open spec fn backed(hunks: Seq<DiffHunkModel>, owned: HunkModel) -> bool {
    exists|j: int| 0 <= j < hunks.len() && owned.same((#[trigger] hunks[j]).to_own())
}

/// Whether all of some owned hunks stand for some of the hunks that are there.
pub open spec fn all_backed(hunks: Seq<DiffHunkModel>, owned: Seq<HunkModel>) -> bool {
    forall|k: int| 0 <= k < owned.len() ==> backed(hunks, #[trigger] owned[k])
}

/// Whether everything that is owned of some files is there.
pub open spec fn owns_only(files: Seq<FileDiffModel>, owned: Seq<FileOwnershipModel>) -> bool {
    forall|i: int|
        0 <= i < owned.len() ==> all_backed(
            hunks_at(files, (#[trigger] owned[i]).file_path),
            owned[i].hunks,
        )
}

/// Whether all hunks of one sequence are in another.
pub open spec fn within(hunks: Seq<DiffHunkModel>, others: Seq<DiffHunkModel>) -> bool {
    forall|j: int| 0 <= j < hunks.len() ==> others.contains(#[trigger] hunks[j])
}

proof fn lemma_backed_within(hunks: Seq<DiffHunkModel>, others: Seq<DiffHunkModel>, owned: HunkModel)
    requires
        within(hunks, others),
        backed(hunks, owned),
    ensures
        backed(others, owned),
{
    let j = choose|j: int| 0 <= j < hunks.len() && owned.same((#[trigger] hunks[j]).to_own());
    let k = choose|k: int| 0 <= k < others.len() && others[k] == hunks[j];
    assert(owned.same(others[k].to_own()));
}

proof fn lemma_claim_hunk_backed(c: FileClaimModel, owned: HunkModel, mtime: u128)
    requires
        all_backed(c.listed, c.kept),
        all_backed(c.listed, c.promoted),
    ensures
        all_backed(claim_hunk(c, owned, mtime).listed, claim_hunk(c, owned, mtime).kept),
        all_backed(claim_hunk(c, owned, mtime).listed, claim_hunk(c, owned, mtime).promoted),
        within(c.listed, claim_hunk(c, owned, mtime).listed),
{
    let new = claim_hunk(c, owned, mtime);
    let at = claimed_at(c.left, owned);
    lemma_claimed_at(c.left, owned);
    if at < c.left.len() {
        let hunk = c.left[at];
        let same = owned.same(hunk.to_own());
        let place = if same {
            new.listed.len() - 1
        } else {
            0
        };
        assert(new.listed[place] == hunk);
        assert forall|j: int| 0 <= j < c.listed.len() implies new.listed.contains(
            #[trigger] c.listed[j],
        ) by {
            if same {
                assert(new.listed[j] == c.listed[j]);
            } else {
                assert(new.listed[j + 1] == c.listed[j]);
            }
        }
        assert forall|k: int| 0 <= k < new.kept.len() implies backed(
            new.listed,
            #[trigger] new.kept[k],
        ) by {
            if k < c.kept.len() {
                lemma_backed_within(c.listed, new.listed, c.kept[k]);
            } else {
                assert(new.kept[k].same(new.listed[place].to_own()));
            }
        }
        assert forall|k: int| 0 <= k < new.promoted.len() implies backed(
            new.listed,
            #[trigger] new.promoted[k],
        ) by {
            if k < c.promoted.len() {
                lemma_backed_within(c.listed, new.listed, c.promoted[k]);
            } else {
                assert(new.promoted[k].same(new.listed[place].to_own()));
            }
        }
    }
}

pub proof fn lemma_within_through(
    one: Seq<DiffHunkModel>,
    two: Seq<DiffHunkModel>,
    three: Seq<DiffHunkModel>,
)
    requires
        within(one, two),
        within(two, three),
    ensures
        within(one, three),
{
    assert forall|j: int| 0 <= j < one.len() implies three.contains(#[trigger] one[j]) by {
        let k = choose|k: int| 0 <= k < two.len() && two[k] == one[j];
        assert(three.contains(two[k]));
    }
}

proof fn lemma_claim_hunks_backed(c: FileClaimModel, owned: Seq<HunkModel>, mtime: u128)
    requires
        c.kept.len() == 0,
        c.promoted.len() == 0,
    ensures
        all_backed(claim_hunks(c, owned, mtime).listed, claim_hunks(c, owned, mtime).kept),
        all_backed(claim_hunks(c, owned, mtime).listed, claim_hunks(c, owned, mtime).promoted),
        within(c.listed, claim_hunks(c, owned, mtime).listed),
    decreases owned.len(),
{
    if owned.len() > 0 {
        let before = claim_hunks(c, owned.drop_last(), mtime);
        lemma_claim_hunks_backed(c, owned.drop_last(), mtime);
        lemma_claim_hunk_backed(before, owned.last(), mtime);
        lemma_within_through(c.listed, before.listed, claim_hunks(c, owned, mtime).listed);
    }
}

pub proof fn lemma_hunks_at_with_hunks(
    files: Seq<FileDiffModel>,
    path: Seq<char>,
    hunks: Seq<DiffHunkModel>,
    other: Seq<char>,
)
    ensures
        hunks_at(with_hunks(files, path, hunks), other) == (if other == path {
            if place_of(files, path) < files.len() || hunks.len() > 0 {
                hunks
            } else {
                seq![]
            }
        } else {
            hunks_at(files, other)
        }),
{
    let new = with_hunks(files, path, hunks);
    lemma_place_of(files, path);
    lemma_place_of(files, other);
    lemma_place_of(new, other);
    lemma_place_of(new, path);
    let at = place_of(files, path);
    let there = place_of(files, other);
    if at < files.len() {
        if other == path {
            assert(new[at].path == path);
            assert(place_of(new, path) == at) by {
                assert forall|k: int| 0 <= k < at implies (#[trigger] new[k]).path != path by {
                    assert(new[k] == files[k]);
                }
            }
        } else {
            assert(place_of(new, other) == there) by {
                assert forall|k: int| 0 <= k < there implies (#[trigger] new[k]).path != other by {
                    if k != at {
                        assert(new[k] == files[k]);
                    }
                }
                if there < files.len() {
                    assert(new[there] == files[there]);
                } else {
                    let n = place_of(new, other);
                    if n < new.len() {
                        assert(new[n].path == other);
                        if n != at {
                            assert(files[n].path == other);
                        }
                    }
                }
            }
        }
    } else if hunks.len() > 0 {
        assert forall|k: int| 0 <= k < files.len() implies (#[trigger] new[k]) == files[k] by {}
        if other == path {
            assert(new[files.len() as int].path == path);
            let n = place_of(new, path);
            if n < files.len() {
                assert(files[n].path == path);
            }
        } else {
            let n = place_of(new, other);
            if there < files.len() {
                assert(new[there].path == other);
                if n < there {
                    assert(files[n].path == other);
                }
            } else {
                if n < new.len() {
                    assert(new[n].path == other);
                    assert(n < files.len());
                    assert(files[n].path == other);
                }
            }
        }
    }
}

proof fn lemma_owns_only_grows(
    files: Seq<FileDiffModel>,
    path: Seq<char>,
    hunks: Seq<DiffHunkModel>,
    owned: Seq<FileOwnershipModel>,
)
    requires
        owns_only(files, owned),
        within(hunks_at(files, path), hunks),
    ensures
        owns_only(with_hunks(files, path, hunks), owned),
{
    let new = with_hunks(files, path, hunks);
    assert forall|i: int| 0 <= i < owned.len() implies all_backed(
        hunks_at(new, (#[trigger] owned[i]).file_path),
        owned[i].hunks,
    ) by {
        lemma_hunks_at_with_hunks(files, path, hunks, owned[i].file_path);
        if owned[i].file_path == path {
            assert forall|k: int| 0 <= k < owned[i].hunks.len() implies backed(
                hunks_at(new, path),
                #[trigger] owned[i].hunks[k],
            ) by {
                lemma_backed_within(hunks_at(files, path), hunks, owned[i].hunks[k]);
            }
        }
    }
}

proof fn lemma_claim_file_backed(c: BranchClaimModel, owned: FileOwnershipModel, mtime: u128)
    requires
        owns_only(c.files, c.kept),
        owns_only(c.files, c.promoted),
    ensures
        owns_only(claim_file(c, owned, mtime).files, claim_file(c, owned, mtime).kept),
        owns_only(claim_file(c, owned, mtime).files, claim_file(c, owned, mtime).promoted),
{
    let path = owned.file_path;
    let claim = file_claim(c, owned, mtime);
    let new = claim_file(c, owned, mtime);
    lemma_claim_hunks_backed(
        FileClaimModel {
            left: hunks_at(c.diff, path),
            listed: hunks_at(c.files, path),
            kept: seq![],
            promoted: seq![],
        },
        owned.hunks,
        mtime,
    );
    lemma_owns_only_grows(c.files, path, claim.listed, c.kept);
    lemma_owns_only_grows(c.files, path, claim.listed, c.promoted);
    lemma_hunks_at_with_hunks(c.files, path, claim.listed, path);
    if claim.kept.len() > 0 {
        assert(backed(claim.listed, claim.kept[0]));
    }
    if claim.promoted.len() > 0 {
        assert(backed(claim.listed, claim.promoted[0]));
    }
    assert forall|i: int| 0 <= i < new.promoted.len() implies all_backed(
        hunks_at(new.files, (#[trigger] new.promoted[i]).file_path),
        new.promoted[i].hunks,
    ) by {
        if i >= c.promoted.len() {
            let k = i - c.promoted.len();
            assert(new.promoted[i].hunks =~= seq![claim.promoted[k]]);
            assert(backed(claim.listed, claim.promoted[k]));
        } else {
            assert(new.promoted[i] == c.promoted[i]);
        }
    }
}

proof fn lemma_put_backed(
    files: Seq<FileDiffModel>,
    owned: Seq<FileOwnershipModel>,
    claim: FileOwnershipModel,
)
    requires
        owns_only(files, owned),
        all_backed(hunks_at(files, claim.file_path), claim.hunks),
    ensures
        owns_only(files, put_into(owned, claim)),
{
    let path = claim.file_path;
    let new = put_into(owned, claim);
    let at = position_of(owned, path);
    let keep = |f: FileOwnershipModel| f.file_path != path;
    let others = owned.filter(keep);
    lemma_position_of(owned, path);
    assert forall|i: int| 0 <= i < new.len() implies all_backed(
        hunks_at(files, (#[trigger] new[i]).file_path),
        new[i].hunks,
    ) by {
        if i == 0 {
            if at < owned.len() {
                let first = owned[at];
                let fresh = |h: HunkModel| !holds(claim.hunks, h);
                assert forall|k: int| 0 <= k < new[0].hunks.len() implies backed(
                    hunks_at(files, path),
                    #[trigger] new[0].hunks[k],
                ) by {
                    if !first.is_full() && !claim.is_full() {
                        if k < claim.hunks.len() {
                            assert(new[0].hunks[k] == claim.hunks[claim.hunks.len() - 1 - k]);
                        } else {
                            lemma_filter_from(first.hunks, fresh, k - claim.hunks.len());
                        }
                    }
                }
            }
        } else {
            lemma_filter_from(owned, keep, i - 1);
            assert(new[i] == others[i - 1]);
        }
    }
}

proof fn lemma_put_each_backed(
    files: Seq<FileDiffModel>,
    owned: Seq<FileOwnershipModel>,
    claims: Seq<FileOwnershipModel>,
)
    requires
        owns_only(files, owned),
        owns_only(files, claims),
    ensures
        owns_only(files, put_each(owned, claims)),
    decreases claims.len(),
{
    if claims.len() > 0 {
        let before = claims.drop_last();
        assert forall|i: int| 0 <= i < before.len() implies all_backed(
            hunks_at(files, (#[trigger] before[i]).file_path),
            before[i].hunks,
        ) by {
            assert(before[i] == claims[i]);
        }
        lemma_put_each_backed(files, owned, before);
        assert(claims[claims.len() - 1] == claims.last());
        lemma_put_backed(files, put_each(owned, before), claims.last());
    }
}

proof fn lemma_claim_files_backed(
    s: Seq<ReplyModel>,
    c: BranchClaimModel,
    times: Seq<FileTimeModel>,
    owned: Seq<FileOwnershipModel>,
    i: int,
)
    requires
        owns_only(c.files, c.kept),
        owns_only(c.files, c.promoted),
    ensures
        claim_files_flow(s, c, times, owned, i) matches Flow::Done(r, _) ==> owns_only(
            r.0.files,
            r.0.kept,
        ) && owns_only(r.0.files, r.0.promoted),
    decreases owned.len() - i,
{
    if 0 <= i < owned.len() {
        if place_of(c.diff, owned[i].file_path) >= c.diff.len() {
            lemma_claim_files_backed(s, c, times, owned, i + 1);
        } else {
            match get_mtime_flow(s, times, false, owned[i].file_path) {
                Flow::Done(m, rest) => {
                    lemma_claim_file_backed(c, owned[i], m.0);
                    lemma_claim_files_backed(rest, claim_file(c, owned[i], m.0), m.1, owned, i + 1);
                },
                Flow::Stop(_) => {},
            }
        }
    }
}

/// Whether a branch owns only what it has got.
pub open spec fn is_aligned(status: BranchStatusModel) -> bool {
    owns_only(status.files, status.branch.ownership)
}

proof fn lemma_align_aligned(s: Seq<ReplyModel>, a: AlignmentModel, branches: Seq<BranchModel>, i: int)
    requires
        forall|k: int| 0 <= k < a.statuses.len() ==> is_aligned(#[trigger] a.statuses[k]),
    ensures
        align_flow(s, a, branches, i) matches Flow::Done(r, _) ==> forall|k: int|
            0 <= k < r.statuses.len() ==> is_aligned(#[trigger] r.statuses[k]),
    decreases branches.len() - i,
{
    if 0 <= i < branches.len() && branches[i].applied {
        let start = BranchClaimModel { diff: a.diff, files: seq![], kept: seq![], promoted: seq![] };
        lemma_claim_files_backed(s, start, a.times, branches[i].ownership, 0);
        match claim_files_flow(s, start, a.times, branches[i].ownership, 0) {
            Flow::Done(c, rest) => {
                lemma_put_each_backed(c.0.files, c.0.kept, c.0.promoted);
                match align_branch_flow(s, a, branches[i]) {
                    Flow::Done(next, rest) => {
                        assert forall|k: int| 0 <= k < next.statuses.len() implies is_aligned(
                            #[trigger] next.statuses[k],
                        ) by {
                            if k < a.statuses.len() {
                                assert(next.statuses[k] == a.statuses[k]);
                            }
                        }
                        lemma_align_aligned(rest, next, branches, i + 1);
                    },
                    Flow::Stop(_) => {},
                }
            },
            Flow::Stop(_) => {},
        }
    }
}

proof fn lemma_give_aligned(status: BranchStatusModel, path: Seq<char>, hunk: DiffHunkModel, mtime: u128)
    requires
        is_aligned(status),
    ensures
        is_aligned(give_hunk(status, path, hunk, mtime)),
{
    let before = hunks_at(status.files, path);
    let after = before.push(hunk);
    let new = give_hunk(status, path, hunk, mtime);
    assert forall|j: int| 0 <= j < before.len() implies after.contains(#[trigger] before[j]) by {
        assert(after[j] == before[j]);
    }
    lemma_owns_only_grows(status.files, path, after, status.branch.ownership);
    lemma_hunks_at_with_hunks(status.files, path, after, path);
    let claim = FileOwnershipModel {
        file_path: path,
        hunks: seq![hunk.to_own().with_timestamp(mtime).with_hash(diff_hash_of(hunk.diff))],
    };
    assert(claim.hunks[0].same(after[before.len() as int].to_own()));
    lemma_put_backed(new.files, status.branch.ownership, claim);
}

proof fn lemma_give_hunks_aligned(
    s: Seq<ReplyModel>,
    status: BranchStatusModel,
    times: Seq<FileTimeModel>,
    file: FileDiffModel,
    i: int,
)
    requires
        is_aligned(status),
    ensures
        give_hunks_flow(s, status, times, file, i) matches Flow::Done(r, _) ==> is_aligned(r.0),
    decreases file.hunks.len() - i,
{
    if 0 <= i < file.hunks.len() {
        match get_mtime_flow(s, times, false, file.path) {
            Flow::Done(m, rest) => {
                lemma_give_aligned(status, file.path, file.hunks[i], m.0);
                lemma_give_hunks_aligned(
                    rest,
                    give_hunk(status, file.path, file.hunks[i], m.0),
                    m.1,
                    file,
                    i + 1,
                );
            },
            Flow::Stop(_) => {},
        }
    }
}

proof fn lemma_give_files_aligned(
    s: Seq<ReplyModel>,
    status: BranchStatusModel,
    times: Seq<FileTimeModel>,
    diff: Seq<FileDiffModel>,
    i: int,
)
    requires
        is_aligned(status),
    ensures
        give_files_flow(s, status, times, diff, i) matches Flow::Done(r, _) ==> is_aligned(r.0),
    decreases diff.len() - i,
{
    if 0 <= i < diff.len() {
        lemma_give_hunks_aligned(s, status, times, diff[i], 0);
        match give_hunks_flow(s, status, times, diff[i], 0) {
            Flow::Done(g, rest) => {
                lemma_give_files_aligned(rest, g.0, g.1, diff, i + 1);
            },
            Flow::Stop(_) => {},
        }
    }
}

/// Once the hunks are shared out, no branch owns anything that it has not got: owned hunks that are
/// no longer there are gone, and those that have moved are owned where they are.
pub proof fn ownership_is_aligned(
    s: Seq<ReplyModel>,
    diff: Seq<FileDiffModel>,
    branches: Seq<BranchModel>,
)
    ensures
        share_out_flow(s, diff, branches) matches Flow::Done(statuses, _) ==> forall|k: int|
            0 <= k < statuses.len() ==> is_aligned(#[trigger] statuses[k]),
{
    let start = AlignmentModel { statuses: seq![], diff, times: seq![] };
    lemma_align_aligned(s, start, branches, 0);
    match align_flow(s, start, branches, 0) {
        Flow::Done(a, rest) => {
            if a.statuses.len() > 0 {
                lemma_give_files_aligned(rest, a.statuses[0], a.times, a.diff, 0);
            }
        },
        Flow::Stop(_) => {},
    }
}

/// What no branch lays claim to goes to the first branch: the others have only what they laid claim
/// to.
pub proof fn the_rest_goes_to_the_first(s: Seq<ReplyModel>, a: AlignmentModel)
    ensures
        give_rest_flow(s, a) matches Flow::Done(statuses, _) ==> {
            &&& statuses.len() == a.statuses.len()
            &&& forall|k: int| 0 < k < statuses.len() ==> #[trigger] statuses[k] == a.statuses[k]
            &&& statuses.len() > 0 ==> all_hunks(statuses[0].files) == all_hunks(
                a.statuses[0].files,
            ).add(all_hunks(a.diff))
        },
{
    if a.statuses.len() > 0 {
        lemma_give_files(s, a.statuses[0], a.times, a.diff, 0);
        assert(a.diff.take(0) =~= seq![]);
        match give_files_flow(s, a.statuses[0], a.times, a.diff, 0) {
            Flow::Done(g, _) => {
                assert(all_hunks(g.0.files).add(all_hunks(a.diff.take(0))) =~= all_hunks(
                    g.0.files,
                ));
            },
            Flow::Stop(_) => {},
        }
    }
}

pub proof fn lemma_tagged_count(path: Seq<char>, hunks: Seq<DiffHunkModel>, p: (Seq<char>, DiffHunkModel))
    ensures
        tagged(path, hunks).count(p) == (if p.0 == path {
            hunks.to_multiset().count(p.1)
        } else {
            0
        }),
    decreases hunks.len(),
{
    broadcast use vstd::seq_lib::group_to_multiset_ensures;

    if hunks.len() > 0 {
        let before = hunks.drop_last();
        lemma_tagged_count(path, before, p);
        lemma_tagged_push(path, before, hunks.last());
        assert(hunks =~= before.push(hunks.last()));
    } else {
        assert(hunks =~= seq![]);
        assert(Seq::new(hunks.len(), |i: int| (path, hunks[i])) =~= seq![]);
    }
}

proof fn lemma_filter_count<A>(s: Seq<A>, keep: spec_fn(A) -> bool, v: A)
    ensures
        s.filter(keep).to_multiset().count(v) == (if keep(v) {
            s.to_multiset().count(v)
        } else {
            0
        }),
    decreases s.len(),
{
    broadcast use vstd::seq_lib::group_to_multiset_ensures;

    reveal(Seq::filter);
    if s.len() > 0 {
        lemma_filter_count(s.drop_last(), keep, v);
        assert(s =~= s.drop_last().push(s.last()));
    } else {
        assert(s.filter(keep) =~= s);
    }
}

/// Selecting hunks keeps each that is wanted as often as it is there, and no other.
pub proof fn selecting_keeps_what_is_wanted(
    files: Seq<FileDiffModel>,
    keep: spec_fn(Seq<char>, DiffHunkModel) -> bool,
    path: Seq<char>,
    hunk: DiffHunkModel,
)
    ensures
        all_hunks(select(files, keep)).count((path, hunk)) == (if keep(path, hunk) {
            all_hunks(files).count((path, hunk))
        } else {
            0
        }),
    decreases files.len(),
{
    if files.len() > 0 {
        let file = files.last();
        let keep_hunk = |h: DiffHunkModel| keep(file.path, h);
        let hunks = file.hunks.filter(keep_hunk);
        selecting_keeps_what_is_wanted(files.drop_last(), keep, path, hunk);
        lemma_tagged_count(file.path, file.hunks, (path, hunk));
        lemma_tagged_count(file.path, hunks, (path, hunk));
        lemma_filter_count(file.hunks, keep_hunk, hunk);
        if hunks.len() > 0 {
            lemma_all_hunks_push(
                select(files.drop_last(), keep),
                FileDiffModel { path: file.path, hunks },
            );
        } else {
            broadcast use vstd::seq_lib::group_to_multiset_ensures;

            assert(hunks =~= seq![]);
        }
    }
}

/// A branch that a claim is taken from no longer holds a hunk that was taken, and keeps every other.
pub proof fn what_is_unapplied_is_gone(
    status: BranchStatusModel,
    claim: FileOwnershipModel,
    path: Seq<char>,
    hunk: DiffHunkModel,
)
    ensures
        all_hunks(strip_claim(status, claim).files).count((path, hunk)) == (if any_lists(
            take_from(status.branch.ownership, claim).0,
            path,
            hunk,
        ) {
            0
        } else {
            all_hunks(status.files).count((path, hunk))
        }),
        is_free_of(strip_claim(status, claim).branch.ownership, claim),
{
    let taken = take_from(status.branch.ownership, claim).0;
    selecting_keeps_what_is_wanted(
        status.files,
        |path: Seq<char>, h: DiffHunkModel| !any_lists(taken, path, h),
        path,
        hunk,
    );
    taken_is_gone(status.branch.ownership, claim);
}

} // verus!
