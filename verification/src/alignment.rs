//! That sharing a diff out again, among branches that own what they have got, changes nothing.

use crate::branch::{BranchModel, TargetModel};
use crate::claims::{
    claim_file, claim_hunk, claim_hunks, claimed_at, claims, file_claim, hunks_at,
    lemma_claimed_at, with_hunks, BranchClaimModel, FileClaimModel,
};
use crate::create::by_order;
use crate::diff::{distinct_paths, lemma_place_of, place_of, DiffHunkModel, FileDiffModel};
use crate::ownership::{FileOwnershipModel, HunkModel};
use crate::owning::{
    all_apart, apart, every_hunk_is_owned, is_plain_diff, lemma_files_keep_paths, one_entry_each,
    owns_all, owns_hunk, owns_in, plain_ownership,
};
use crate::protocol::{Flow, ReplyModel};
use crate::reordering::is_same_diff;
use crate::seqs::{distinct_keys, sorting_orders_the_elements};
use crate::sharing::{
    all_hunks, all_shared, backed, every_branch_has_a_status, every_hunk_goes_to_one_branch,
    is_aligned, lemma_hunks_at_with_hunks, lemma_tagged_count, lemma_within_through, owns_only,
    ownership_is_aligned, the_rest_goes_to_the_first, within,
};
use crate::status::{
    align_branch_flow, align_flow, claim_files_flow, get_applied_status_flow, give_files_flow,
    give_hunk, give_hunks_flow, give_rest_flow, share_out_flow, AlignmentModel, BranchStatusModel,
};
use crate::times::{get_mtime_flow, FileTimeModel};
use vstd::prelude::*;

verus! {

/// Whether two hunks begin at different lines and have no line in common, the line behind a hunk
/// included.
pub open spec fn separate(one: DiffHunkModel, other: DiffHunkModel) -> bool {
    one.new_start != other.new_start && !one.to_own().intersects(other.to_own())
}

/// Whether some hunks are all separate.
pub open spec fn all_separate(hunks: Seq<DiffHunkModel>) -> bool {
    forall|i: int, j: int|
        0 <= i < j < hunks.len() ==> separate(#[trigger] hunks[i], #[trigger] hunks[j])
}

/// Whether the hunks of every file of a diff are separate, and no file comes twice.
pub open spec fn is_separate_diff(files: Seq<FileDiffModel>) -> bool {
    &&& distinct_paths(files)
    &&& forall|i: int| 0 <= i < files.len() ==> all_separate((#[trigger] files[i]).hunks)
}

pub proof fn lemma_separate_at(files: Seq<FileDiffModel>, path: Seq<char>)
    requires
        is_separate_diff(files),
    ensures
        all_separate(hunks_at(files, path)),
{
    lemma_place_of(files, path);
}

proof fn lemma_separate_is_plain(files: Seq<FileDiffModel>)
    requires
        is_separate_diff(files),
    ensures
        is_plain_diff(files),
{
    assert forall|i: int| 0 <= i < files.len() implies all_apart((#[trigger] files[i]).hunks) by {
        let hunks = files[i].hunks;
        assert forall|a: int, b: int| 0 <= a < b < hunks.len() implies apart(
            #[trigger] hunks[a],
            #[trigger] hunks[b],
        ) by {
            assert(separate(hunks[a], hunks[b]));
        }
    }
}

/// An owned hunk that stands for one of some separate hunks lays claim to no other.
proof fn lemma_claims_its_own(
    all: Seq<DiffHunkModel>,
    owned: HunkModel,
    mine: DiffHunkModel,
    hunk: DiffHunkModel,
)
    requires
        all_separate(all),
        all.contains(mine),
        all.contains(hunk),
        owned.same(mine.to_own()),
        claims(owned, hunk),
    ensures
        hunk == mine,
{
    let i = choose|i: int| 0 <= i < all.len() && all[i] == mine;
    let j = choose|j: int| 0 <= j < all.len() && all[j] == hunk;
    if i < j {
        assert(separate(all[i], all[j]));
    }
    if j < i {
        assert(separate(all[j], all[i]));
    }
}

/// How the claims of some owned hunks are met when each stands for one of `mine`: what is got is
/// one of them, and what is left is claimed by none of the owned hunks.
proof fn lemma_claims_met(
    all: Seq<DiffHunkModel>,
    mine: Seq<DiffHunkModel>,
    c: FileClaimModel,
    owned: Seq<HunkModel>,
    mtime: u128,
)
    requires
        all_separate(all),
        within(mine, all),
        within(c.left, all),
        all_apart(c.left),
        within(c.listed, mine),
        forall|k: int| 0 <= k < owned.len() ==> backed(mine, #[trigger] owned[k]),
    ensures
        within(claim_hunks(c, owned, mtime).left, c.left),
        all_apart(claim_hunks(c, owned, mtime).left),
        within(claim_hunks(c, owned, mtime).listed, mine),
        claim_hunks(c, owned, mtime).listed.len() >= c.listed.len(),
        forall|k: int, j: int|
            0 <= k < owned.len() && 0 <= j < claim_hunks(c, owned, mtime).left.len() ==> !claims(
                #[trigger] owned[k],
                #[trigger] claim_hunks(c, owned, mtime).left[j],
            ),
    decreases owned.len(),
{
    if owned.len() > 0 {
        let before = claim_hunks(c, owned.drop_last(), mtime);
        let last = owned.last();
        let new = claim_hunk(before, last, mtime);
        assert forall|k: int| 0 <= k < owned.drop_last().len() implies backed(
            mine,
            #[trigger] owned.drop_last()[k],
        ) by {
            assert(owned.drop_last()[k] == owned[k]);
        }
        lemma_claims_met(all, mine, c, owned.drop_last(), mtime);
        lemma_within_through(before.left, c.left, all);
        let at = claimed_at(before.left, last);
        lemma_claimed_at(before.left, last);
        assert(backed(mine, owned[owned.len() - 1]));
        let m = choose|m: int| 0 <= m < mine.len() && last.same((#[trigger] mine[m]).to_own());
        assert(all.contains(mine[m]));
        if at < before.left.len() {
            let hunk = before.left[at];
            assert(all.contains(before.left[at]));
            lemma_claims_its_own(all, last, mine[m], hunk);
            assert forall|j: int| 0 <= j < new.left.len() implies before.left.contains(
                #[trigger] new.left[j],
            ) by {
                let from = if j < at {
                    j
                } else {
                    j + 1
                };
                assert(new.left[j] == before.left[from]);
            }
            assert forall|i: int, j: int| 0 <= i < j < new.left.len() implies apart(
                #[trigger] new.left[i],
                #[trigger] new.left[j],
            ) by {
                let a = if i < at {
                    i
                } else {
                    i + 1
                };
                let b = if j < at {
                    j
                } else {
                    j + 1
                };
                assert(apart(before.left[a], before.left[b]));
            }
            assert forall|j: int| 0 <= j < new.left.len() implies !claims(
                last,
                #[trigger] new.left[j],
            ) by {
                let from = if j < at {
                    j
                } else {
                    j + 1
                };
                assert(all.contains(before.left[from]));
                if claims(last, new.left[j]) {
                    lemma_claims_its_own(all, last, mine[m], new.left[j]);
                    if from < at {
                        assert(apart(before.left[from], before.left[at]));
                    } else {
                        assert(apart(before.left[at], before.left[from]));
                    }
                }
            }
            assert forall|j: int| 0 <= j < new.listed.len() implies mine.contains(
                #[trigger] new.listed[j],
            ) by {
                if last.same(hunk.to_own()) {
                    if j < before.listed.len() {
                        assert(mine.contains(before.listed[j]));
                    }
                } else if j > 0 {
                    assert(mine.contains(before.listed[j - 1]));
                }
            }
        } else {
            assert forall|j: int| 0 <= j < new.left.len() implies before.left.contains(
                #[trigger] new.left[j],
            ) by {
                assert(before.left[j] == new.left[j]);
            }
        }
        lemma_within_through(new.left, before.left, c.left);
        assert forall|k: int, j: int|
            0 <= k < owned.len() && 0 <= j < new.left.len() implies !claims(
            #[trigger] owned[k],
            #[trigger] new.left[j],
        ) by {
            if k < owned.len() - 1 {
                assert(owned.drop_last()[k] == owned[k]);
                let i = choose|i: int| 0 <= i < before.left.len() && before.left[i] == new.left[j];
                assert(!claims(owned.drop_last()[k], before.left[i]));
            }
        }
    } else {
        assert forall|j: int| 0 <= j < c.left.len() implies c.left.contains(
            #[trigger] c.left[j],
        ) by {}
    }
}

/// Whether one diff holds only hunks of another.
pub open spec fn is_within(files: Seq<FileDiffModel>, others: Seq<FileDiffModel>) -> bool {
    forall|path: Seq<char>| within(#[trigger] hunks_at(files, path), hunks_at(others, path))
}

/// Whether all hunks of each file of a diff are different ranges of lines.
pub open spec fn is_apart(files: Seq<FileDiffModel>) -> bool {
    forall|path: Seq<char>| all_apart(#[trigger] hunks_at(files, path))
}

/// Whether no hunk of a diff is claimed by the owned hunks of an entry.
pub open spec fn is_unclaimed(files: Seq<FileDiffModel>, owned: FileOwnershipModel) -> bool {
    forall|k: int, j: int|
        0 <= k < owned.hunks.len() && 0 <= j < hunks_at(files, owned.file_path).len() ==> !claims(
            #[trigger] owned.hunks[k],
            #[trigger] hunks_at(files, owned.file_path)[j],
        )
}

proof fn lemma_within_itself(files: Seq<FileDiffModel>)
    ensures
        is_within(files, files),
{
    assert forall|p: Seq<char>| within(#[trigger] hunks_at(files, p), hunks_at(files, p)) by {
        let hunks = hunks_at(files, p);
        assert forall|j: int| 0 <= j < hunks.len() implies hunks.contains(#[trigger] hunks[j]) by {}
    }
}

proof fn lemma_is_within_through(
    one: Seq<FileDiffModel>,
    two: Seq<FileDiffModel>,
    three: Seq<FileDiffModel>,
)
    requires
        is_within(one, two),
        is_within(two, three),
    ensures
        is_within(one, three),
{
    assert forall|p: Seq<char>| within(#[trigger] hunks_at(one, p), hunks_at(three, p)) by {
        assert(within(hunks_at(two, p), hunks_at(three, p)));
        lemma_within_through(hunks_at(one, p), hunks_at(two, p), hunks_at(three, p));
    }
}

proof fn lemma_unclaimed_within(
    one: Seq<FileDiffModel>,
    two: Seq<FileDiffModel>,
    owned: FileOwnershipModel,
)
    requires
        is_within(one, two),
        is_unclaimed(two, owned),
    ensures
        is_unclaimed(one, owned),
{
    let p = owned.file_path;
    assert forall|k: int, j: int|
        0 <= k < owned.hunks.len() && 0 <= j < hunks_at(one, p).len() implies !claims(
        #[trigger] owned.hunks[k],
        #[trigger] hunks_at(one, p)[j],
    ) by {
        assert(within(hunks_at(one, p), hunks_at(two, p)));
        assert(hunks_at(two, p).contains(hunks_at(one, p)[j]));
        let i = choose|i: int|
            0 <= i < hunks_at(two, p).len() && hunks_at(two, p)[i] == hunks_at(one, p)[j];
        assert(!claims(owned.hunks[k], hunks_at(two, p)[i]));
    }
}

proof fn lemma_claim_file_met(
    all: Seq<FileDiffModel>,
    mine: Seq<FileDiffModel>,
    c: BranchClaimModel,
    owned: FileOwnershipModel,
    mtime: u128,
)
    requires
        is_separate_diff(all),
        is_within(mine, all),
        is_within(c.diff, all),
        is_apart(c.diff),
        is_within(c.files, mine),
        forall|k: int|
            0 <= k < owned.hunks.len() ==> backed(
                hunks_at(mine, owned.file_path),
                #[trigger] owned.hunks[k],
            ),
    ensures
        is_within(claim_file(c, owned, mtime).diff, c.diff),
        is_apart(claim_file(c, owned, mtime).diff),
        is_within(claim_file(c, owned, mtime).files, mine),
        is_unclaimed(claim_file(c, owned, mtime).diff, owned),
{
    let path = owned.file_path;
    let claim = file_claim(c, owned, mtime);
    let new = claim_file(c, owned, mtime);
    let start = FileClaimModel {
        left: hunks_at(c.diff, path),
        listed: hunks_at(c.files, path),
        kept: seq![],
        promoted: seq![],
    };
    lemma_separate_at(all, path);
    assert(within(hunks_at(mine, path), hunks_at(all, path)));
    assert(within(hunks_at(c.diff, path), hunks_at(all, path)));
    assert(within(hunks_at(c.files, path), hunks_at(mine, path)));
    assert(all_apart(hunks_at(c.diff, path)));
    lemma_claims_met(hunks_at(all, path), hunks_at(mine, path), start, owned.hunks, mtime);
    lemma_within_itself(c.diff);
    assert forall|p: Seq<char>|
        within(#[trigger] hunks_at(new.diff, p), hunks_at(c.diff, p)) && all_apart(
            hunks_at(new.diff, p),
        ) by {
        lemma_hunks_at_with_hunks(c.diff, path, claim.left, p);
        assert(within(hunks_at(c.diff, p), hunks_at(c.diff, p)));
        assert(all_apart(hunks_at(c.diff, p)));
    }
    assert forall|p: Seq<char>| within(#[trigger] hunks_at(new.files, p), hunks_at(mine, p)) by {
        lemma_hunks_at_with_hunks(c.files, path, claim.listed, p);
        assert(within(hunks_at(c.files, p), hunks_at(mine, p)));
    }
    lemma_hunks_at_with_hunks(c.diff, path, claim.left, path);
    assert forall|k: int, j: int|
        0 <= k < owned.hunks.len() && 0 <= j < hunks_at(new.diff, path).len() implies !claims(
        #[trigger] owned.hunks[k],
        #[trigger] hunks_at(new.diff, path)[j],
    ) by {
        assert(hunks_at(new.diff, path)[j] == claim.left[j]);
    }
}

proof fn lemma_claim_files_met(
    s: Seq<ReplyModel>,
    all: Seq<FileDiffModel>,
    mine: Seq<FileDiffModel>,
    c: BranchClaimModel,
    times: Seq<FileTimeModel>,
    owned: Seq<FileOwnershipModel>,
    i: int,
)
    requires
        0 <= i <= owned.len(),
        is_separate_diff(all),
        is_within(mine, all),
        is_within(c.diff, all),
        is_apart(c.diff),
        is_within(c.files, mine),
        owns_only(mine, owned),
    ensures
        claim_files_flow(s, c, times, owned, i) matches Flow::Done(r, _) ==> {
            &&& is_within(r.0.diff, c.diff)
            &&& is_apart(r.0.diff)
            &&& is_within(r.0.files, mine)
            &&& forall|m: int|
                i <= m < owned.len() ==> is_unclaimed(r.0.diff, #[trigger] owned[m])
        },
    decreases owned.len() - i,
{
    if i < owned.len() {
        if place_of(c.diff, owned[i].file_path) >= c.diff.len() {
            lemma_claim_files_met(s, all, mine, c, times, owned, i + 1);
            if let Flow::Done(r, _) = claim_files_flow(s, c, times, owned, i + 1) {
                assert(hunks_at(c.diff, owned[i].file_path).len() == 0);
                assert(is_unclaimed(c.diff, owned[i]));
                lemma_unclaimed_within(r.0.diff, c.diff, owned[i]);
            }
        } else {
            match get_mtime_flow(s, times, false, owned[i].file_path) {
                Flow::Done(m, rest) => {
                    let next = claim_file(c, owned[i], m.0);
                    lemma_claim_file_met(all, mine, c, owned[i], m.0);
                    lemma_is_within_through(next.diff, c.diff, all);
                    lemma_claim_files_met(rest, all, mine, next, m.1, owned, i + 1);
                    if let Flow::Done(r, _) = claim_files_flow(rest, next, m.1, owned, i + 1) {
                        lemma_is_within_through(r.0.diff, next.diff, c.diff);
                        lemma_unclaimed_within(r.0.diff, next.diff, owned[i]);
                    }
                },
                Flow::Stop(_) => {},
            }
        }
    } else {
        lemma_within_itself(c.diff);
    }
}

/// Whether two diffs have no hunk in common.
pub open spec fn is_disjoint(one: Seq<FileDiffModel>, other: Seq<FileDiffModel>) -> bool {
    forall|path: Seq<char>, j: int|
        0 <= j < hunks_at(one, path).len() ==> !hunks_at(other, path).contains(
            #[trigger] hunks_at(one, path)[j],
        )
}

proof fn lemma_disjoint_within(
    one: Seq<FileDiffModel>,
    two: Seq<FileDiffModel>,
    other: Seq<FileDiffModel>,
)
    requires
        is_within(one, two),
        is_disjoint(two, other),
    ensures
        is_disjoint(one, other),
{
    assert forall|p: Seq<char>, j: int| 0 <= j < hunks_at(one, p).len() implies !hunks_at(
        other,
        p,
    ).contains(#[trigger] hunks_at(one, p)[j]) by {
        assert(within(hunks_at(one, p), hunks_at(two, p)));
        assert(hunks_at(two, p).contains(hunks_at(one, p)[j]));
        let i = choose|i: int|
            0 <= i < hunks_at(two, p).len() && hunks_at(two, p)[i] == hunks_at(one, p)[j];
        assert(!hunks_at(other, p).contains(hunks_at(two, p)[i]));
    }
}

proof fn lemma_all_claimed(
    left: Seq<FileDiffModel>,
    mine: Seq<FileDiffModel>,
    owned: Seq<FileOwnershipModel>,
)
    requires
        owns_all(mine, owned),
        forall|m: int| 0 <= m < owned.len() ==> is_unclaimed(left, #[trigger] owned[m]),
    ensures
        is_disjoint(left, mine),
{
    assert forall|p: Seq<char>, j: int| 0 <= j < hunks_at(left, p).len() implies !hunks_at(
        mine,
        p,
    ).contains(#[trigger] hunks_at(left, p)[j]) by {
        let d = hunks_at(left, p)[j];
        if hunks_at(mine, p).contains(d) {
            let n = choose|n: int| 0 <= n < hunks_at(mine, p).len() && hunks_at(mine, p)[n] == d;
            assert(owns_in(owned, p, hunks_at(mine, p)[n]));
            let i = choose|i: int|
                0 <= i < owned.len() && (#[trigger] owned[i]).file_path == p && owns_hunk(
                    owned[i].hunks,
                    d,
                );
            let k = choose|k: int|
                0 <= k < owned[i].hunks.len() && (#[trigger] owned[i].hunks[k]).same(d.to_own());
            assert(is_unclaimed(left, owned[i]));
            assert(!claims(owned[i].hunks[k], hunks_at(left, owned[i].file_path)[j]));
        }
    }
}

proof fn lemma_align_again(
    s: Seq<ReplyModel>,
    all: Seq<FileDiffModel>,
    before: Seq<BranchStatusModel>,
    a: AlignmentModel,
    branches: Seq<BranchModel>,
    i: int,
)
    requires
        0 <= i <= branches.len(),
        branches.len() == before.len(),
        is_separate_diff(all),
        forall|k: int|
            0 <= k < before.len() ==> {
                &&& is_within((#[trigger] before[k]).files, all)
                &&& owns_all(before[k].files, before[k].branch.ownership)
                &&& is_aligned(before[k])
                &&& branches[k].ownership == before[k].branch.ownership
            },
        a.statuses.len() == i,
        is_within(a.diff, all),
        is_apart(a.diff),
        forall|k: int|
            0 <= k < i ==> is_within((#[trigger] a.statuses[k]).files, before[k].files),
        forall|k: int| 0 <= k < i ==> is_disjoint(a.diff, (#[trigger] before[k]).files),
    ensures
        align_flow(s, a, branches, i) matches Flow::Done(r, _) ==> {
            &&& r.statuses.len() == branches.len()
            &&& is_within(r.diff, all)
            &&& forall|k: int|
                0 <= k < branches.len() ==> is_within(
                    (#[trigger] r.statuses[k]).files,
                    before[k].files,
                )
            &&& forall|k: int|
                0 <= k < branches.len() ==> is_disjoint(r.diff, (#[trigger] before[k]).files)
        },
    decreases branches.len() - i,
{
    if i < branches.len() && branches[i].applied {
        let mine = before[i].files;
        let owned = branches[i].ownership;
        let start = BranchClaimModel { diff: a.diff, files: seq![], kept: seq![], promoted: seq![] };
        assert forall|p: Seq<char>| within(#[trigger] hunks_at(start.files, p), hunks_at(mine, p)) by {
            assert(hunks_at(start.files, p).len() == 0);
        }
        assert(is_aligned(before[i]));
        lemma_claim_files_met(s, all, mine, start, a.times, owned, 0);
        if let Flow::Done(c, rest) = claim_files_flow(s, start, a.times, owned, 0) {
            lemma_all_claimed(c.0.diff, mine, owned);
            lemma_is_within_through(c.0.diff, a.diff, all);
            assert forall|k: int| 0 <= k < i + 1 implies is_disjoint(
                c.0.diff,
                (#[trigger] before[k]).files,
            ) by {
                if k < i {
                    lemma_disjoint_within(c.0.diff, a.diff, before[k].files);
                }
            }
            if let Flow::Done(next, rest) = align_branch_flow(s, a, branches[i]) {
                assert forall|k: int| 0 <= k < i + 1 implies is_within(
                    (#[trigger] next.statuses[k]).files,
                    before[k].files,
                ) by {
                    if k < i {
                        assert(next.statuses[k] == a.statuses[k]);
                    }
                }
                lemma_align_again(rest, all, before, next, branches, i + 1);
            }
        }
    }
}

/// Whether no file comes twice in a diff, and none without hunks.
pub open spec fn is_tidy(files: Seq<FileDiffModel>) -> bool {
    &&& distinct_paths(files)
    &&& forall|i: int| 0 <= i < files.len() ==> (#[trigger] files[i]).hunks.len() > 0
}

proof fn lemma_with_hunks_tidy(
    files: Seq<FileDiffModel>,
    path: Seq<char>,
    hunks: Seq<DiffHunkModel>,
)
    requires
        is_tidy(files),
        hunks.len() >= hunks_at(files, path).len(),
    ensures
        is_tidy(with_hunks(files, path, hunks)),
{
    let new = with_hunks(files, path, hunks);
    lemma_place_of(files, path);
    assert forall|i: int| 0 <= i < new.len() implies (#[trigger] new[i]).hunks.len() > 0 by {
        if i < files.len() {
            assert(files[i].hunks.len() > 0);
        }
    }
    assert forall|i: int, j: int| 0 <= i < j < new.len() implies (#[trigger] new[i]).path != (
    #[trigger] new[j]).path by {
        if j < files.len() {
            assert(files[i].path != files[j].path);
        }
    }
}

proof fn lemma_claims_grow(c: FileClaimModel, owned: Seq<HunkModel>, mtime: u128)
    ensures
        claim_hunks(c, owned, mtime).listed.len() >= c.listed.len(),
    decreases owned.len(),
{
    if owned.len() > 0 {
        lemma_claims_grow(c, owned.drop_last(), mtime);
    }
}

proof fn lemma_claim_files_tidy(
    s: Seq<ReplyModel>,
    c: BranchClaimModel,
    times: Seq<FileTimeModel>,
    owned: Seq<FileOwnershipModel>,
    i: int,
)
    requires
        is_tidy(c.files),
    ensures
        claim_files_flow(s, c, times, owned, i) matches Flow::Done(r, _) ==> is_tidy(r.0.files),
    decreases owned.len() - i,
{
    if 0 <= i < owned.len() {
        let path = owned[i].file_path;
        if place_of(c.diff, path) >= c.diff.len() {
            lemma_claim_files_tidy(s, c, times, owned, i + 1);
        } else if let Flow::Done(m, rest) = get_mtime_flow(s, times, false, path) {
            let start = FileClaimModel {
                left: hunks_at(c.diff, path),
                listed: hunks_at(c.files, path),
                kept: seq![],
                promoted: seq![],
            };
            lemma_claims_grow(start, owned[i].hunks, m.0);
            lemma_with_hunks_tidy(c.files, path, file_claim(c, owned[i], m.0).listed);
            lemma_claim_files_tidy(rest, claim_file(c, owned[i], m.0), m.1, owned, i + 1);
        }
    }
}

proof fn lemma_give_hunks_tidy(
    s: Seq<ReplyModel>,
    status: BranchStatusModel,
    times: Seq<FileTimeModel>,
    file: FileDiffModel,
    i: int,
)
    requires
        is_tidy(status.files),
    ensures
        give_hunks_flow(s, status, times, file, i) matches Flow::Done(r, _) ==> is_tidy(r.0.files),
    decreases file.hunks.len() - i,
{
    if 0 <= i < file.hunks.len() {
        if let Flow::Done(m, rest) = get_mtime_flow(s, times, false, file.path) {
            let next = give_hunk(status, file.path, file.hunks[i], m.0);
            lemma_with_hunks_tidy(
                status.files,
                file.path,
                hunks_at(status.files, file.path).push(file.hunks[i]),
            );
            lemma_give_hunks_tidy(rest, next, m.1, file, i + 1);
        }
    }
}

proof fn lemma_give_files_tidy(
    s: Seq<ReplyModel>,
    status: BranchStatusModel,
    times: Seq<FileTimeModel>,
    diff: Seq<FileDiffModel>,
    i: int,
)
    requires
        is_tidy(status.files),
    ensures
        give_files_flow(s, status, times, diff, i) matches Flow::Done(r, _) ==> is_tidy(r.0.files),
    decreases diff.len() - i,
{
    if 0 <= i < diff.len() {
        lemma_give_hunks_tidy(s, status, times, diff[i], 0);
        if let Flow::Done(g, rest) = give_hunks_flow(s, status, times, diff[i], 0) {
            lemma_give_files_tidy(rest, g.0, g.1, diff, i + 1);
        }
    }
}

proof fn lemma_align_tidy(
    s: Seq<ReplyModel>,
    a: AlignmentModel,
    branches: Seq<BranchModel>,
    i: int,
)
    requires
        0 <= i,
        distinct_paths(a.diff),
        forall|k: int| 0 <= k < a.statuses.len() ==> is_tidy((#[trigger] a.statuses[k]).files),
    ensures
        align_flow(s, a, branches, i) matches Flow::Done(r, _) ==> {
            &&& distinct_paths(r.diff)
            &&& forall|k: int|
                0 <= k < r.statuses.len() ==> is_tidy((#[trigger] r.statuses[k]).files)
        },
    decreases branches.len() - i,
{
    if i < branches.len() && branches[i].applied {
        let owned = branches[i].ownership;
        let start = BranchClaimModel { diff: a.diff, files: seq![], kept: seq![], promoted: seq![] };
        lemma_claim_files_tidy(s, start, a.times, owned, 0);
        lemma_files_keep_paths(s, start, a.times, owned, 0);
        if let Flow::Done(next, rest) = align_branch_flow(s, a, branches[i]) {
            assert forall|k: int| 0 <= k < next.statuses.len() implies is_tidy(
                (#[trigger] next.statuses[k]).files,
            ) by {
                if k < a.statuses.len() {
                    assert(next.statuses[k] == a.statuses[k]);
                }
            }
            lemma_align_tidy(rest, next, branches, i + 1);
        }
    }
}

/// Once a diff is shared out, no file comes twice in what a branch has got, and none without hunks.
pub proof fn what_is_shared_out_is_tidy(
    s: Seq<ReplyModel>,
    diff: Seq<FileDiffModel>,
    branches: Seq<BranchModel>,
)
    requires
        distinct_paths(diff),
    ensures
        share_out_flow(s, diff, branches) matches Flow::Done(statuses, _) ==> forall|k: int|
            0 <= k < statuses.len() ==> is_tidy((#[trigger] statuses[k]).files),
{
    let start = AlignmentModel { statuses: seq![], diff, times: seq![] };
    lemma_align_tidy(s, start, branches, 0);
    if let Flow::Done(a, rest) = align_flow(s, start, branches, 0) {
        if a.statuses.len() > 0 {
            lemma_give_files_tidy(rest, a.statuses[0], a.times, a.diff, 0);
        }
    }
}

pub proof fn lemma_count_at(files: Seq<FileDiffModel>, path: Seq<char>, hunk: DiffHunkModel)
    requires
        distinct_paths(files),
    ensures
        all_hunks(files).count((path, hunk)) == hunks_at(files, path).to_multiset().count(hunk),
    decreases files.len(),
{
    broadcast use vstd::seq_lib::group_to_multiset_ensures;

    if files.len() > 0 {
        let before = files.drop_last();
        let last = files.last();
        lemma_count_at(before, path, hunk);
        lemma_tagged_count(last.path, last.hunks, (path, hunk));
        lemma_place_of(files, path);
        lemma_place_of(before, path);
        let at = place_of(before, path);
        if at < before.len() {
            assert(files[at].path == path);
            assert(last.path != path) by {
                assert(files[at].path != files[files.len() - 1].path);
            }
            assert(place_of(files, path) == at) by {
                let found = place_of(files, path);
                if found < at {
                    assert(before[found].path == path);
                }
            }
        } else {
            assert forall|k: int| 0 <= k < before.len() implies (#[trigger] files[k]).path != path by {
                assert(before[k].path != path);
            }
            assert(Seq::<DiffHunkModel>::empty().to_multiset().count(hunk) == 0);
        }
    } else {
        assert(hunks_at(files, path) =~= seq![]);
    }
}

pub proof fn lemma_contains_at(files: Seq<FileDiffModel>, path: Seq<char>, hunk: DiffHunkModel)
    requires
        distinct_paths(files),
    ensures
        all_hunks(files).count((path, hunk)) > 0 <==> hunks_at(files, path).contains(hunk),
{
    broadcast use vstd::seq_lib::group_to_multiset_ensures;

    lemma_count_at(files, path, hunk);
}

proof fn lemma_shared_one(
    statuses: Seq<BranchStatusModel>,
    k: int,
    x: (Seq<char>, DiffHunkModel),
)
    requires
        0 <= k < statuses.len(),
    ensures
        all_hunks(statuses[k].files).count(x) <= all_shared(statuses).count(x),
    decreases statuses.len(),
{
    if k < statuses.len() - 1 {
        lemma_shared_one(statuses.drop_last(), k, x);
    }
}

proof fn lemma_shared_two(
    statuses: Seq<BranchStatusModel>,
    j: int,
    k: int,
    x: (Seq<char>, DiffHunkModel),
)
    requires
        0 <= j < k < statuses.len(),
    ensures
        all_hunks(statuses[j].files).count(x) + all_hunks(statuses[k].files).count(x)
            <= all_shared(statuses).count(x),
    decreases statuses.len(),
{
    if k < statuses.len() - 1 {
        lemma_shared_two(statuses.drop_last(), j, k, x);
    } else {
        lemma_shared_one(statuses.drop_last(), j, x);
    }
}

proof fn lemma_shared_some(
    statuses: Seq<BranchStatusModel>,
    x: (Seq<char>, DiffHunkModel),
) -> (k: int)
    requires
        all_shared(statuses).count(x) > 0,
    ensures
        0 <= k < statuses.len(),
        all_hunks(statuses[k].files).count(x) > 0,
    decreases statuses.len(),
{
    if statuses.len() > 0 && all_hunks(statuses.last().files).count(x) == 0 {
        lemma_shared_some(statuses.drop_last(), x)
    } else {
        statuses.len() - 1
    }
}

pub proof fn lemma_once(files: Seq<FileDiffModel>, x: (Seq<char>, DiffHunkModel))
    requires
        is_separate_diff(files),
    ensures
        all_hunks(files).count(x) <= 1,
{
    broadcast use vstd::seq_lib::group_to_multiset_ensures;

    let hunks = hunks_at(files, x.0);
    lemma_separate_at(files, x.0);
    lemma_count_at(files, x.0, x.1);
    assert forall|i: int, j: int|
        0 <= i < hunks.len() && 0 <= j < hunks.len() && i != j implies hunks[i] != hunks[j] by {
        if i < j {
            assert(separate(hunks[i], hunks[j]));
        } else {
            assert(separate(hunks[j], hunks[i]));
        }
    }
    hunks.lemma_multiset_has_no_duplicates();
}

proof fn lemma_shared_within(
    diff: Seq<FileDiffModel>,
    statuses: Seq<BranchStatusModel>,
    k: int,
)
    requires
        distinct_paths(diff),
        all_shared(statuses) == all_hunks(diff),
        0 <= k < statuses.len(),
        distinct_paths(statuses[k].files),
    ensures
        is_within(statuses[k].files, diff),
{
    let files = statuses[k].files;
    assert forall|p: Seq<char>| within(#[trigger] hunks_at(files, p), hunks_at(diff, p)) by {
        assert forall|j: int| 0 <= j < hunks_at(files, p).len() implies hunks_at(diff, p).contains(
            #[trigger] hunks_at(files, p)[j],
        ) by {
            let d = hunks_at(files, p)[j];
            lemma_contains_at(files, p, d);
            lemma_contains_at(diff, p, d);
            lemma_shared_one(statuses, k, (p, d));
        }
    }
}

proof fn lemma_nothing_is_left(
    diff: Seq<FileDiffModel>,
    statuses: Seq<BranchStatusModel>,
    left: Seq<FileDiffModel>,
)
    requires
        distinct_paths(diff),
        distinct_paths(left),
        all_shared(statuses) == all_hunks(diff),
        forall|k: int|
            0 <= k < statuses.len() ==> distinct_paths((#[trigger] statuses[k]).files),
        is_within(left, diff),
        forall|k: int|
            0 <= k < statuses.len() ==> is_disjoint(left, (#[trigger] statuses[k]).files),
    ensures
        forall|x: (Seq<char>, DiffHunkModel)| #[trigger] all_hunks(left).count(x) == 0,
{
    assert forall|x: (Seq<char>, DiffHunkModel)| #[trigger] all_hunks(left).count(x) == 0 by {
        if all_hunks(left).count(x) > 0 {
            lemma_contains_at(left, x.0, x.1);
            assert(within(hunks_at(left, x.0), hunks_at(diff, x.0)));
            let j = choose|j: int| 0 <= j < hunks_at(left, x.0).len() && hunks_at(left, x.0)[j] == x.1;
            assert(hunks_at(diff, x.0).contains(hunks_at(left, x.0)[j]));
            lemma_contains_at(diff, x.0, x.1);
            assert(x == (x.0, x.1));
            let k = lemma_shared_some(statuses, x);
            lemma_contains_at(statuses[k].files, x.0, x.1);
            assert(is_disjoint(left, statuses[k].files));
            assert(!hunks_at(statuses[k].files, x.0).contains(hunks_at(left, x.0)[j]));
        }
    }
}

proof fn lemma_same_shares(
    diff: Seq<FileDiffModel>,
    before: Seq<BranchStatusModel>,
    again: Seq<BranchStatusModel>,
    k: int,
)
    requires
        is_separate_diff(diff),
        before.len() == again.len(),
        all_shared(before) == all_hunks(diff),
        all_shared(again) == all_hunks(diff),
        forall|j: int, x: (Seq<char>, DiffHunkModel)|
            0 <= j < before.len() && all_hunks(again[j].files).count(x) > 0 ==> #[trigger] all_hunks(
                before[j].files,
            ).count(x) > 0,
        0 <= k < before.len(),
    ensures
        all_hunks(again[k].files) == all_hunks(before[k].files),
{
    assert forall|x: (Seq<char>, DiffHunkModel)| #[trigger]
        all_hunks(again[k].files).count(x) == all_hunks(before[k].files).count(x) by {
        lemma_once(diff, x);
        lemma_shared_one(before, k, x);
        lemma_shared_one(again, k, x);
        let had = all_hunks(before[k].files).count(x);
        if had > 0 {
            let j = lemma_shared_some(again, x);
            assert(all_hunks(before[j].files).count(x) > 0);
            if j < k {
                lemma_shared_two(before, j, k, x);
            }
            if k < j {
                lemma_shared_two(before, k, j, x);
            }
        }
    }
    assert(all_hunks(again[k].files) =~= all_hunks(before[k].files));
}

/// When a diff is shared out again among branches that own what they got the first time, each gets
/// the same hunks again, provided that the hunks of each file are separate and that no file comes
/// twice, neither in the diff nor in what a branch owned at first.
pub proof fn sharing_out_again_changes_nothing(
    s: Seq<ReplyModel>,
    t: Seq<ReplyModel>,
    diff: Seq<FileDiffModel>,
    branches: Seq<BranchModel>,
    aligned: Seq<BranchModel>,
)
    requires
        is_separate_diff(diff),
        plain_ownership(branches),
        share_out_flow(s, diff, branches) matches Flow::Done(statuses, _) && {
            &&& aligned.len() == statuses.len()
            &&& forall|k: int|
                0 <= k < aligned.len() ==> (#[trigger] aligned[k]).ownership
                    == statuses[k].branch.ownership
        },
    ensures
        share_out_flow(s, diff, branches) matches Flow::Done(statuses, _) ==> (share_out_flow(
            t,
            diff,
            aligned,
        ) matches Flow::Done(again, _) ==> {
            &&& again.len() == statuses.len()
            &&& forall|k: int|
                0 <= k < statuses.len() ==> all_hunks((#[trigger] again[k]).files) == all_hunks(
                    statuses[k].files,
                )
        }),
{
    let before = share_out_flow(s, diff, branches)->Done_0;
    every_branch_has_a_status(s, diff, branches);
    every_branch_has_a_status(t, diff, aligned);
    if before.len() > 0 {
        lemma_separate_is_plain(diff);
        every_hunk_goes_to_one_branch(s, diff, branches);
        every_hunk_goes_to_one_branch(t, diff, aligned);
        every_hunk_is_owned(s, diff, branches);
        ownership_is_aligned(s, diff, branches);
        what_is_shared_out_is_tidy(s, diff, branches);
        assert forall|k: int| 0 <= k < before.len() implies {
            &&& is_within((#[trigger] before[k]).files, diff)
            &&& owns_all(before[k].files, before[k].branch.ownership)
            &&& is_aligned(before[k])
            &&& aligned[k].ownership == before[k].branch.ownership
        } by {
            assert(is_tidy(before[k].files));
            lemma_shared_within(diff, before, k);
        }
        assert forall|p: Seq<char>| all_apart(#[trigger] hunks_at(diff, p)) by {
            let hunks = hunks_at(diff, p);
            lemma_separate_at(diff, p);
            assert forall|a: int, b: int| 0 <= a < b < hunks.len() implies apart(
                #[trigger] hunks[a],
                #[trigger] hunks[b],
            ) by {
                assert(separate(hunks[a], hunks[b]));
            }
        }
        lemma_within_itself(diff);
        let start = AlignmentModel { statuses: seq![], diff, times: seq![] };
        lemma_align_again(t, diff, before, start, aligned, 0);
        lemma_align_tidy(t, start, aligned, 0);
        if let Flow::Done(a, rest) = align_flow(t, start, aligned, 0) {
            assert forall|k: int| 0 <= k < before.len() implies distinct_paths(
                (#[trigger] before[k]).files,
            ) by {
                assert(is_tidy(before[k].files));
            }
            lemma_nothing_is_left(diff, before, a.diff);
            the_rest_goes_to_the_first(rest, a);
            if let Flow::Done(again, _) = give_rest_flow(rest, a) {
                assert forall|j: int, x: (Seq<char>, DiffHunkModel)|
                    0 <= j < before.len() && all_hunks(again[j].files).count(
                        x,
                    ) > 0 implies #[trigger] all_hunks(before[j].files).count(x) > 0 by {
                    assert(all_hunks(a.diff).count(x) == 0);
                    assert(all_hunks(a.statuses[j].files).count(x) > 0);
                    assert(is_tidy(a.statuses[j].files));
                    lemma_contains_at(a.statuses[j].files, x.0, x.1);
                    assert(is_within(a.statuses[j].files, before[j].files));
                    let hunks = hunks_at(a.statuses[j].files, x.0);
                    assert(within(hunks, hunks_at(before[j].files, x.0)));
                    let i = choose|i: int| 0 <= i < hunks.len() && hunks[i] == x.1;
                    assert(hunks_at(before[j].files, x.0).contains(hunks[i]));
                    lemma_contains_at(before[j].files, x.0, x.1);
                    assert(x == (x.0, x.1));
                }
                assert forall|k: int| 0 <= k < before.len() implies all_hunks(
                    (#[trigger] again[k]).files,
                ) == all_hunks(before[k].files) by {
                    lemma_same_shares(diff, before, again, k);
                }
            }
        }
    }
}

proof fn lemma_align_applied(
    s: Seq<ReplyModel>,
    a: AlignmentModel,
    branches: Seq<BranchModel>,
    i: int,
)
    requires
        0 <= i,
    ensures
        align_flow(s, a, branches, i) is Done ==> forall|k: int|
            i <= k < branches.len() ==> (#[trigger] branches[k]).applied,
    decreases branches.len() - i,
{
    if i < branches.len() {
        if let Flow::Done(next, rest) = align_branch_flow(s, a, branches[i]) {
            lemma_align_applied(rest, next, branches, i + 1);
        }
    }
}

/// A diff is shared out among applied branches only.
pub proof fn hunks_go_to_applied_branches(
    s: Seq<ReplyModel>,
    diff: Seq<FileDiffModel>,
    branches: Seq<BranchModel>,
)
    ensures
        share_out_flow(s, diff, branches) matches Flow::Done(statuses, _) ==> forall|k: int|
            0 <= k < statuses.len() ==> (#[trigger] statuses[k]).branch.applied,
{
    let start = AlignmentModel { statuses: seq![], diff, times: seq![] };
    lemma_align_applied(s, start, branches, 0);
    every_branch_has_a_status(s, diff, branches);
    if let Flow::Done(statuses, _) = share_out_flow(s, diff, branches) {
        assert forall|k: int| 0 <= k < statuses.len() implies (
        #[trigger] statuses[k]).branch.applied by {
            assert(branches[k].applied);
        }
    }
}

proof fn lemma_shared_starts(
    diff: Seq<FileDiffModel>,
    statuses: Seq<BranchStatusModel>,
    k: int,
    i: int,
)
    requires
        is_separate_diff(diff),
        all_shared(statuses) == all_hunks(diff),
        0 <= k < statuses.len(),
        is_tidy(statuses[k].files),
        0 <= i < statuses[k].files.len(),
    ensures
        distinct_keys(statuses[k].files[i].hunks, |h: DiffHunkModel| h.new_start as int),
{
    broadcast use vstd::seq_lib::group_to_multiset_ensures;

    let files = statuses[k].files;
    let path = files[i].path;
    let hunks = files[i].hunks;
    let all = hunks_at(diff, path);
    lemma_place_of(files, path);
    assert(place_of(files, path) == i) by {
        let at = place_of(files, path);
        if at < i {
            assert(files[at].path != files[i].path);
        }
    }
    lemma_shared_within(diff, statuses, k);
    lemma_separate_at(diff, path);
    assert(within(hunks_at(files, path), all));
    assert forall|h: DiffHunkModel| hunks.to_multiset().contains(
        h,
    ) implies hunks.to_multiset().count(h) == 1 by {
        lemma_count_at(files, path, h);
        lemma_shared_one(statuses, k, (path, h));
        lemma_once(diff, (path, h));
    }
    hunks.lemma_multiset_has_no_duplicates_conv();
    let key = |h: DiffHunkModel| h.new_start as int;
    assert forall|a: int, b: int| 0 <= a < b < hunks.len() implies key(#[trigger] hunks[a]) != key(
        #[trigger] hunks[b],
    ) by {
        assert(hunks[a] != hunks[b]);
        assert(all.contains(hunks[a]) && all.contains(hunks[b]));
        let x = choose|x: int| 0 <= x < all.len() && all[x] == hunks[a];
        let y = choose|y: int| 0 <= y < all.len() && all[y] == hunks[b];
        if x < y {
            assert(separate(all[x], all[y]));
        } else {
            assert(separate(all[y], all[x]));
        }
    }
}

proof fn lemma_sorting_keeps_plain(branches: Seq<BranchModel>)
    requires
        plain_ownership(branches),
    ensures
        plain_ownership(by_order(branches)),
        by_order(branches).len() == branches.len(),
{
    broadcast use vstd::seq_lib::group_to_multiset_ensures;

    let sorted = by_order(branches);
    sorting_orders_the_elements(branches, |b: BranchModel| b.order as int);
    assert forall|i: int| 0 <= i < sorted.len() implies one_entry_each(
        (#[trigger] sorted[i]).ownership,
    ) by {
        assert(sorted.to_multiset().count(sorted[i]) > 0);
        assert(branches.contains(sorted[i]));
        let k = choose|k: int| 0 <= k < branches.len() && branches[k] == sorted[i];
        assert(one_entry_each(branches[k].ownership));
    }
}

/// When the status of the applied branches is found again, the working directory has not changed,
/// and the branches own what they were stored with the first time, each has the same hunks as
/// before, provided that the hunks of each file are separate and that no file comes twice, neither
/// in the diff nor in what a branch owned at first.
pub proof fn the_status_is_found_again(
    s: Seq<ReplyModel>,
    t: Seq<ReplyModel>,
    target: TargetModel,
    diff: Seq<FileDiffModel>,
    branches: Seq<BranchModel>,
    stored: Seq<BranchModel>,
    statuses: Seq<BranchStatusModel>,
    again: Seq<BranchStatusModel>,
    rest: Seq<ReplyModel>,
    other_rest: Seq<ReplyModel>,
)
    requires
        s.len() > 0 && s[0] == ReplyModel::Diffs(diff),
        t.len() > 0 && t[0] == ReplyModel::Diffs(diff),
        is_separate_diff(diff),
        branches.len() > 0,
        plain_ownership(branches),
        get_applied_status_flow(s, target, branches) == Flow::Done(statuses, rest),
        get_applied_status_flow(t, target, stored) == Flow::Done(again, other_rest),
        stored.len() == branches.len(),
        forall|k: int|
            0 <= k < stored.len() ==> (#[trigger] by_order(stored)[k]).ownership
                == statuses[k].branch.ownership,
    ensures
        statuses.len() == branches.len(),
        again.len() == branches.len(),
        forall|k: int|
            0 <= k < statuses.len() ==> is_same_diff(
                (#[trigger] statuses[k]).files,
                again[k].files,
            ) && statuses[k].branch.applied && again[k].branch.applied,
{
    let served = by_order(branches);
    let aligned = by_order(stored);
    lemma_sorting_keeps_plain(branches);
    sorting_orders_the_elements(stored, |b: BranchModel| b.order as int);
    let u = s.drop_first();
    let v = t.drop_first();
    assert(share_out_flow(u, diff, served) matches Flow::Done(found, _) && found == statuses);
    assert(share_out_flow(v, diff, aligned) matches Flow::Done(found, _) && found == again);
    every_branch_has_a_status(u, diff, served);
    every_hunk_goes_to_one_branch(u, diff, served);
    what_is_shared_out_is_tidy(u, diff, served);
    what_is_shared_out_is_tidy(v, diff, aligned);
    hunks_go_to_applied_branches(u, diff, served);
    hunks_go_to_applied_branches(v, diff, aligned);
    sharing_out_again_changes_nothing(u, v, diff, served, aligned);
    assert forall|k: int| 0 <= k < statuses.len() implies is_same_diff(
        (#[trigger] statuses[k]).files,
        again[k].files,
    ) && statuses[k].branch.applied && again[k].branch.applied by {
        assert(is_tidy(statuses[k].files));
        assert(is_tidy(again[k].files));
        assert(all_hunks(again[k].files) == all_hunks(statuses[k].files));
        assert forall|i: int| 0 <= i < statuses[k].files.len() implies distinct_keys(
            (#[trigger] statuses[k].files[i]).hunks,
            |h: DiffHunkModel| h.new_start as int,
        ) by {
            lemma_shared_starts(diff, statuses, k, i);
        }
    }
}

} // verus!
