//! That a branch keeps the hunks whose lines it owns, also when they have moved or changed.

use crate::branch::BranchModel;
use crate::claims::{
    claim_file, claim_hunk, claim_hunks, claimed_at, claims, file_claim, hunks_at,
    lemma_claimed_at, BranchClaimModel, FileClaimModel,
};
use crate::diff::{lemma_place_of, place_of, DiffHunkModel, FileDiffModel};
use crate::digest::diff_hash_of;
use crate::ownership::{put_each, FileOwnershipModel, HunkModel};
use crate::protocol::{Flow, ReplyModel, RequestModel, StopModel};
use crate::sharing::lemma_hunks_at_with_hunks;
use crate::status::{
    align_branch_flow, align_flow, claim_files_flow, give_files_flow, give_hunk, give_hunks_flow,
    share_out_flow, AlignmentModel, BranchStatusModel,
};
use crate::times::{get_mtime_flow, FileTimeModel};
use vstd::prelude::*;

verus! {

/// Whether an owned range and a hunk have a line in common, the line behind the last of each
/// included.
pub open spec fn touches(owned: HunkModel, hunk: DiffHunkModel) -> bool {
    let end = hunk.new_start + hunk.new_lines;
    let first = if owned.start > hunk.new_start {
        owned.start as int
    } else {
        hunk.new_start as int
    };
    let last = if owned.end < end {
        owned.end as int
    } else {
        end
    };
    first <= last
}

/// Whether the lines of a hunk can be counted.
pub open spec fn fits(hunk: DiffHunkModel) -> bool {
    hunk.new_start + hunk.new_lines <= u32::MAX
}

/// Whether no range of some ownership ends before it begins.
pub open spec fn is_valid(owned: Seq<FileOwnershipModel>) -> bool {
    forall|e: int, i: int|
        #![trigger owned[e].hunks[i]]
        0 <= e < owned.len() && 0 <= i < owned[e].hunks.len() ==> owned[e].hunks[i].start
            <= owned[e].hunks[i].end
}

/// Whether some ownership owns a line of a hunk of a file.
pub open spec fn owns_line_of(
    owned: Seq<FileOwnershipModel>,
    path: Seq<char>,
    hunk: DiffHunkModel,
) -> bool {
    exists|e: int, i: int|
        #![trigger owned[e].hunks[i]]
        0 <= e < owned.len() && owned[e].file_path == path && 0 <= i < owned[e].hunks.len()
            && touches(owned[e].hunks[i], hunk)
}

proof fn lemma_claims(owned: HunkModel, hunk: DiffHunkModel)
    requires
        owned.start <= owned.end,
        fits(hunk),
    ensures
        claims(owned, hunk) == touches(owned, hunk),
{
}

/// An owned range gets the first hunk that is left and that it has a line in common with, and that
/// hunk is left no longer. It is listed last where it is the same as the range, which is owned from
/// then on with a time; and first where it has changed, and then its own lines are owned, with its
/// hash. A range that has no line in common with any hunk that is left gets none.
pub proof fn a_range_gets_the_first_hunk_that_it_touches(
    c: FileClaimModel,
    owned: HunkModel,
    mtime: u128,
    at: int,
)
    requires
        owned.start <= owned.end,
        forall|k: int| 0 <= k < c.left.len() ==> fits(#[trigger] c.left[k]),
        0 <= at <= c.left.len(),
        forall|k: int| 0 <= k < at ==> !touches(owned, #[trigger] c.left[k]),
        at < c.left.len() ==> touches(owned, c.left[at]),
    ensures
        at == c.left.len() ==> claim_hunk(c, owned, mtime) == c,
        at < c.left.len() ==> {
            let hunk = c.left[at];
            let after = claim_hunk(c, owned, mtime);
            &&& after.left == c.left.remove(at)
            &&& owned.same(hunk.to_own()) ==> after.listed == c.listed.push(hunk)
            &&& !owned.same(hunk.to_own()) ==> after.listed == seq![hunk] + c.listed
            &&& after.kept.len() == c.kept.len() + 1
            &&& after.kept.drop_last() == c.kept
            &&& after.kept.last().start == hunk.new_start
            &&& after.kept.last().end == hunk.new_start + hunk.new_lines
            &&& owned.same(hunk.to_own()) ==> after.kept.last() == (HunkModel {
                timestamp_ms: Some(
                    if owned.timestamp_ms is Some {
                        owned.timestamp_ms->0
                    } else {
                        mtime
                    },
                ),
                ..owned
            }) && after.promoted == c.promoted
            &&& !owned.same(hunk.to_own()) ==> after.kept.last().hash == Some(
                diff_hash_of(hunk.diff),
            ) && after.kept.last().timestamp_ms is None && after.promoted == c.promoted.push(
                after.kept.last(),
            )
        },
{
    lemma_claimed_at(c.left, owned);
    assert forall|k: int| 0 <= k < c.left.len() implies claims(owned, #[trigger] c.left[k])
        == touches(owned, c.left[k]) by {
        lemma_claims(owned, c.left[k]);
    }
    let found = claimed_at(c.left, owned);
    if found < at {
        assert(claims(owned, c.left[found]));
    }
    if at < found {
        assert(!claims(owned, c.left[at]));
    }
    if at < c.left.len() {
        let hunk = c.left[at];
        let after = claim_hunk(c, owned, mtime);
        assert(c.listed.insert(0, hunk) =~= seq![hunk] + c.listed);
        assert(after.kept.drop_last() =~= c.kept);
    }
}

/// The ranges that are owned of a file are served one after the other, and what comes of the file is
/// what comes of them: the hunks that are left stay in the diff, those that are listed go to the
/// branch, and a file of which nothing is owned any more is owned no longer.
pub proof fn ranges_are_served_in_turn(
    c: BranchClaimModel,
    f: FileClaimModel,
    owned: FileOwnershipModel,
    ranges: Seq<HunkModel>,
    last: HunkModel,
    mtime: u128,
)
    requires
        0 <= place_of(c.diff, owned.file_path) < c.diff.len(),
    ensures
        claim_hunks(f, seq![], mtime) == f,
        claim_hunks(f, ranges.push(last), mtime) == claim_hunk(
            claim_hunks(f, ranges, mtime),
            last,
            mtime,
        ),
        ({
            let path = owned.file_path;
            let served = claim_hunks(
                FileClaimModel {
                    left: hunks_at(c.diff, path),
                    listed: hunks_at(c.files, path),
                    kept: seq![],
                    promoted: seq![],
                },
                owned.hunks,
                mtime,
            );
            let r = claim_file(c, owned, mtime);
            &&& hunks_at(r.diff, path) == served.left
            &&& hunks_at(r.files, path) == served.listed
            &&& served.kept.len() == 0 ==> r.kept == c.kept
            &&& served.kept.len() > 0 ==> r.kept == c.kept.push(
                FileOwnershipModel { file_path: path, hunks: served.kept },
            )
            &&& r.promoted.len() == c.promoted.len() + served.promoted.len()
            &&& forall|i: int|
                0 <= i < served.promoted.len() ==> (#[trigger] r.promoted[c.promoted.len() + i]) == (
                FileOwnershipModel { file_path: path, hunks: seq![served.promoted[i]] })
        }),
{
    let path = owned.file_path;
    let served = file_claim(c, owned, mtime);
    assert(ranges.push(last).drop_last() =~= ranges);
    lemma_hunks_at_with_hunks(c.diff, path, served.left, path);
    lemma_hunks_at_with_hunks(c.files, path, served.listed, path);
    if served.listed.len() == 0 {
        assert(served.listed =~= seq![]);
    }
}

/// The files that a branch owns are served one after the other, each with its time. One that is not
/// in the diff is passed over.
pub proof fn files_are_served_in_turn(
    c: BranchClaimModel,
    times: Seq<FileTimeModel>,
    owned: Seq<FileOwnershipModel>,
    i: int,
    asked: Seq<ReplyModel>,
    mtime: u128,
    known: Seq<FileTimeModel>,
)
    requires
        0 <= i < owned.len(),
        forall|more: Seq<ReplyModel>| #[trigger]
            get_mtime_flow(asked + more, times, false, owned[i].file_path) == Flow::Done(
                (mtime, known),
                more,
            ),
    ensures
        forall|s: Seq<ReplyModel>| #[trigger]
            claim_files_flow(s, c, times, owned, owned.len() as int) == Flow::Done((c, times), s),
        (forall|k: int| 0 <= k < c.diff.len() ==> (#[trigger] c.diff[k]).path != owned[i].file_path)
            ==> forall|s: Seq<ReplyModel>| #[trigger]
            claim_files_flow(s, c, times, owned, i) == claim_files_flow(s, c, times, owned, i + 1),
        (exists|k: int| 0 <= k < c.diff.len() && (#[trigger] c.diff[k]).path == owned[i].file_path)
            ==> forall|s: Seq<ReplyModel>| #[trigger]
            claim_files_flow(asked + s, c, times, owned, i) == claim_files_flow(
                s,
                claim_file(c, owned[i], mtime),
                known,
                owned,
                i + 1,
            ),
{
    lemma_place_of(c.diff, owned[i].file_path);
    let at = place_of(c.diff, owned[i].file_path);
    if at < c.diff.len() {
        assert(c.diff[at].path == owned[i].file_path);
    }
}

/// The branches are served one after the other: each gets what comes of the files that it owns, and
/// owns what it has kept from then on, with what has changed foremost. The next is served with what is
/// left of the diff, and the rest goes to the first.
pub proof fn branches_are_served_in_turn(
    s: Seq<ReplyModel>,
    a: AlignmentModel,
    branches: Seq<BranchModel>,
    i: int,
    c: BranchClaimModel,
    times: Seq<FileTimeModel>,
    rest: Seq<ReplyModel>,
)
    requires
        0 <= i < branches.len(),
        branches[i].applied,
        claim_files_flow(
            s,
            BranchClaimModel { diff: a.diff, files: seq![], kept: seq![], promoted: seq![] },
            a.times,
            branches[i].ownership,
            0,
        ) == Flow::Done((c, times), rest),
    ensures
        align_flow(s, a, branches, i) == align_flow(
            rest,
            AlignmentModel {
                statuses: a.statuses.push(
                    BranchStatusModel {
                        branch: BranchModel {
                            ownership: put_each(c.kept, c.promoted),
                            ..branches[i]
                        },
                        files: c.files,
                    },
                ),
                diff: c.diff,
                times,
            },
            branches,
            i + 1,
        ),
{
}

/// How the claims to the hunks of a file stand: what is left and what is listed are all from the
/// file, and each fits.
pub open spec fn is_from(
    left: Seq<DiffHunkModel>,
    listed: Seq<DiffHunkModel>,
    all: Seq<DiffHunkModel>,
) -> bool {
    &&& forall|k: int| 0 <= k < left.len() ==> all.contains(#[trigger] left[k])
    &&& forall|k: int| 0 <= k < listed.len() ==> all.contains(#[trigger] listed[k])
}

pub open spec fn all_fit(hunks: Seq<DiffHunkModel>) -> bool {
    forall|k: int| 0 <= k < hunks.len() ==> fits(#[trigger] hunks[k])
}

/// Whether one of some hunks has a line in common with an owned range.
pub open spec fn one_touches(hunks: Seq<DiffHunkModel>, owned: HunkModel) -> bool {
    exists|k: int| 0 <= k < hunks.len() && touches(owned, #[trigger] hunks[k])
}

proof fn lemma_claim_one(
    c: FileClaimModel,
    owned: HunkModel,
    mtime: u128,
    all: Seq<DiffHunkModel>,
    hunk: DiffHunkModel,
)
    requires
        owned.start <= owned.end,
        is_from(c.left, c.listed, all),
        all_fit(all),
    ensures
        ({
            let r = claim_hunk(c, owned, mtime);
            &&& is_from(r.left, r.listed, all)
            &&& forall|x: DiffHunkModel| c.listed.contains(x) ==> #[trigger] r.listed.contains(x)
            &&& c.left.contains(hunk) && !touches(owned, hunk) ==> r.left.contains(hunk)
            &&& c.left.contains(hunk) ==> r.left.contains(hunk) || r.listed.contains(hunk)
            &&& c.left.contains(hunk) && touches(owned, hunk) ==> one_touches(r.listed, owned)
            &&& forall|x: DiffHunkModel| #[trigger]
                r.listed.contains(x) ==> c.listed.contains(x) || touches(owned, x)
        }),
{
    let r = claim_hunk(c, owned, mtime);
    let at = claimed_at(c.left, owned);
    lemma_claimed_at(c.left, owned);
    assert forall|k: int| 0 <= k < c.left.len() implies claims(owned, #[trigger] c.left[k])
        == touches(owned, c.left[k]) by {
        let j = choose|j: int| 0 <= j < all.len() && all[j] == c.left[k];
        assert(fits(all[j]));
        lemma_claims(owned, c.left[k]);
    }
    if c.left.contains(hunk) {
        let k = choose|k: int| 0 <= k < c.left.len() && c.left[k] == hunk;
        if touches(owned, hunk) {
            assert(claims(owned, c.left[k]));
            assert(at <= k);
        }
    }
    if at < c.left.len() {
        let got = c.left[at];
        let left = c.left.remove(at);
        assert forall|k: int| 0 <= k < left.len() implies all.contains(#[trigger] left[k]) by {
            if k < at {
                assert(left[k] == c.left[k]);
            } else {
                assert(left[k] == c.left[k + 1]);
            }
        }
        let p = if owned.same(got.to_own()) {
            c.listed.len() as int
        } else {
            0
        };
        assert(r.listed =~= c.listed.insert(p, got));
        assert(r.listed[p] == got);
        assert forall|x: DiffHunkModel| c.listed.contains(x) implies #[trigger] r.listed.contains(
            x,
        ) by {
            let k = choose|k: int| 0 <= k < c.listed.len() && c.listed[k] == x;
            if k < p {
                assert(r.listed[k] == x);
            } else {
                assert(r.listed[k + 1] == x);
            }
        }
        assert forall|k: int| 0 <= k < r.listed.len() implies (#[trigger] r.listed[k] == got
            || c.listed.contains(r.listed[k])) by {
            if k < p {
                assert(r.listed[k] == c.listed[k]);
            } else if k > p {
                assert(r.listed[k] == c.listed[k - 1]);
            }
        }
        assert forall|k: int| 0 <= k < r.listed.len() implies all.contains(
            #[trigger] r.listed[k],
        ) by {
            if r.listed[k] != got {
                let j = choose|j: int| 0 <= j < c.listed.len() && c.listed[j] == r.listed[k];
                assert(all.contains(c.listed[j]));
            }
        }
        if c.left.contains(hunk) && hunk != got {
            let k = choose|k: int| 0 <= k < c.left.len() && c.left[k] == hunk;
            if k < at {
                assert(left[k] == hunk);
            } else {
                assert(left[k - 1] == hunk);
            }
        }
        assert(touches(owned, got));
        assert(touches(owned, r.listed[p]));
    }
}

proof fn lemma_claim_some(
    c: FileClaimModel,
    owned: Seq<HunkModel>,
    mtime: u128,
    all: Seq<DiffHunkModel>,
    hunk: DiffHunkModel,
)
    requires
        forall|i: int| 0 <= i < owned.len() ==> (#[trigger] owned[i]).start <= owned[i].end,
        is_from(c.left, c.listed, all),
        all_fit(all),
    ensures
        ({
            let r = claim_hunks(c, owned, mtime);
            let untouched = forall|i: int|
                0 <= i < owned.len() ==> !touches(#[trigger] owned[i], hunk);
            &&& is_from(r.left, r.listed, all)
            &&& forall|x: DiffHunkModel| c.listed.contains(x) ==> #[trigger] r.listed.contains(x)
            &&& c.left.contains(hunk) && untouched ==> r.left.contains(hunk)
            &&& c.left.contains(hunk) ==> r.left.contains(hunk) || r.listed.contains(hunk)
            &&& c.left.contains(hunk) || c.listed.contains(hunk) ==> forall|i: int|
                0 <= i < owned.len() && touches(#[trigger] owned[i], hunk) ==> one_touches(
                    r.listed,
                    owned[i],
                )
            &&& forall|x: DiffHunkModel| #[trigger]
                r.listed.contains(x) ==> c.listed.contains(x) || exists|i: int|
                    0 <= i < owned.len() && touches(#[trigger] owned[i], x)
        }),
    decreases owned.len(),
{
    if owned.len() > 0 {
        let before = claim_hunks(c, owned.drop_last(), mtime);
        let r = claim_hunks(c, owned, mtime);
        let last = owned.last();
        let n = owned.len() - 1;
        assert(owned[n] == last);
        assert forall|i: int| 0 <= i < n implies (#[trigger] owned.drop_last()[i]).start
            <= owned.drop_last()[i].end by {
            assert(owned[i].start <= owned[i].end);
        }
        lemma_claim_some(c, owned.drop_last(), mtime, all, hunk);
        lemma_claim_one(before, last, mtime, all, hunk);
        if forall|i: int| 0 <= i < owned.len() ==> !touches(#[trigger] owned[i], hunk) {
            assert forall|i: int| 0 <= i < n implies !touches(
                #[trigger] owned.drop_last()[i],
                hunk,
            ) by {
                assert(!touches(owned[i], hunk));
            }
            assert(!touches(owned[n], hunk));
        }
        if c.left.contains(hunk) || c.listed.contains(hunk) {
            assert forall|i: int|
                0 <= i < owned.len() && touches(#[trigger] owned[i], hunk) implies one_touches(
                r.listed,
                owned[i],
            ) by {
                if i < n {
                    assert(owned.drop_last()[i] == owned[i]);
                    assert(one_touches(before.listed, owned[i]));
                    let k = choose|k: int|
                        0 <= k < before.listed.len() && touches(
                            owned[i],
                            #[trigger] before.listed[k],
                        );
                    let x = before.listed[k];
                    assert(before.listed.contains(x));
                    assert(r.listed.contains(x));
                    let j = choose|j: int| 0 <= j < r.listed.len() && r.listed[j] == x;
                    assert(touches(owned[i], r.listed[j]));
                } else if before.listed.contains(hunk) {
                    assert(r.listed.contains(hunk));
                    let j = choose|j: int| 0 <= j < r.listed.len() && r.listed[j] == hunk;
                    assert(touches(owned[i], r.listed[j]));
                }
            }
        }
        assert forall|x: DiffHunkModel| #[trigger]
            r.listed.contains(x) && !c.listed.contains(x) implies exists|i: int|
            0 <= i < owned.len() && touches(#[trigger] owned[i], x) by {
            if before.listed.contains(x) {
                let i = choose|i: int|
                    0 <= i < n && touches(#[trigger] owned.drop_last()[i], x);
                assert(touches(owned[i], x));
            } else {
                assert(touches(owned[n], x));
            }
        }
    }
}

/// How the claims of a branch to the hunks of a file stand.
pub open spec fn is_sound(c: BranchClaimModel, path: Seq<char>, all: Seq<DiffHunkModel>) -> bool {
    is_from(hunks_at(c.diff, path), hunks_at(c.files, path), all)
}

proof fn lemma_claim_file(
    c: BranchClaimModel,
    owned: FileOwnershipModel,
    mtime: u128,
    path: Seq<char>,
    all: Seq<DiffHunkModel>,
    hunk: DiffHunkModel,
)
    requires
        place_of(c.diff, owned.file_path) < c.diff.len(),
        forall|i: int|
            0 <= i < owned.hunks.len() ==> (#[trigger] owned.hunks[i]).start
                <= owned.hunks[i].end,
        is_sound(c, path, all),
        all_fit(all),
    ensures
        ({
            let r = claim_file(c, owned, mtime);
            let untouched = owned.file_path != path || forall|i: int|
                0 <= i < owned.hunks.len() ==> !touches(#[trigger] owned.hunks[i], hunk);
            let left = hunks_at(c.diff, path);
            let listed = hunks_at(c.files, path);
            &&& is_sound(r, path, all)
            &&& forall|x: DiffHunkModel|
                listed.contains(x) ==> #[trigger] hunks_at(r.files, path).contains(x)
            &&& left.contains(hunk) && untouched ==> hunks_at(r.diff, path).contains(hunk)
            &&& left.contains(hunk) ==> hunks_at(r.diff, path).contains(hunk) || hunks_at(
                r.files,
                path,
            ).contains(hunk)
            &&& (left.contains(hunk) || listed.contains(hunk)) && owned.file_path == path
                ==> forall|i: int|
                0 <= i < owned.hunks.len() && touches(#[trigger] owned.hunks[i], hunk)
                    ==> one_touches(hunks_at(r.files, path), owned.hunks[i])
            &&& forall|x: DiffHunkModel| #[trigger]
                hunks_at(r.files, path).contains(x) ==> listed.contains(x) || (owned.file_path
                    == path && exists|i: int|
                    0 <= i < owned.hunks.len() && touches(#[trigger] owned.hunks[i], x))
        }),
{
    let p = owned.file_path;
    let claim = file_claim(c, owned, mtime);
    lemma_hunks_at_with_hunks(c.diff, p, claim.left, path);
    lemma_hunks_at_with_hunks(c.files, p, claim.listed, path);
    if p == path {
        let start = FileClaimModel {
            left: hunks_at(c.diff, p),
            listed: hunks_at(c.files, p),
            kept: seq![],
            promoted: seq![],
        };
        lemma_claim_some(start, owned.hunks, mtime, all, hunk);
        if !(place_of(c.files, p) < c.files.len() || claim.listed.len() > 0) {
            assert(claim.listed =~= seq![]);
        }
    }
}

proof fn lemma_claim_files(
    s: Seq<ReplyModel>,
    c: BranchClaimModel,
    times: Seq<FileTimeModel>,
    owned: Seq<FileOwnershipModel>,
    e: int,
    path: Seq<char>,
    all: Seq<DiffHunkModel>,
    hunk: DiffHunkModel,
)
    requires
        0 <= e <= owned.len(),
        is_valid(owned),
        is_sound(c, path, all),
        all_fit(all),
    ensures
        claim_files_flow(s, c, times, owned, e) matches Flow::Done(r, _) ==> {
            let left = hunks_at(c.diff, path);
            let listed = hunks_at(c.files, path);
            &&& is_sound(r.0, path, all)
            &&& forall|x: DiffHunkModel|
                listed.contains(x) ==> #[trigger] hunks_at(r.0.files, path).contains(x)
            &&& left.contains(hunk) && !owns_line_of(owned, path, hunk) ==> hunks_at(
                r.0.diff,
                path,
            ).contains(hunk)
            &&& left.contains(hunk) || listed.contains(hunk) ==> forall|d: int, i: int|
                #![trigger owned[d].hunks[i]]
                e <= d < owned.len() && owned[d].file_path == path && 0 <= i
                    < owned[d].hunks.len() && touches(owned[d].hunks[i], hunk) ==> one_touches(
                    hunks_at(r.0.files, path),
                    owned[d].hunks[i],
                )
            &&& forall|x: DiffHunkModel| #[trigger]
                hunks_at(r.0.files, path).contains(x) ==> listed.contains(x) || owns_line_of(
                    owned,
                    path,
                    x,
                )
        },
    decreases owned.len() - e,
{
    if e < owned.len() {
        lemma_place_of(c.diff, owned[e].file_path);
        if place_of(c.diff, owned[e].file_path) >= c.diff.len() {
            lemma_claim_files(s, c, times, owned, e + 1, path, all, hunk);
            if let Flow::Done(r, _) = claim_files_flow(s, c, times, owned, e) {
                let listed = hunks_at(c.files, path);
                if owned[e].file_path == path && listed.contains(hunk) {
                    lemma_listed_touches(hunks_at(r.0.files, path), owned[e].hunks, hunk);
                }
            }
        } else if let Flow::Done(m, rest) = get_mtime_flow(s, times, false, owned[e].file_path) {
            let next = claim_file(c, owned[e], m.0);
            assert forall|i: int| 0 <= i < owned[e].hunks.len() implies (
            #[trigger] owned[e].hunks[i]).start <= owned[e].hunks[i].end by {
            }
            lemma_claim_file(c, owned[e], m.0, path, all, hunk);
            lemma_claim_files(rest, next, m.1, owned, e + 1, path, all, hunk);
            if let Flow::Done(r, _) = claim_files_flow(s, c, times, owned, e) {
                let left = hunks_at(c.diff, path);
                let listed = hunks_at(c.files, path);
                let end = hunks_at(r.0.files, path);
                if left.contains(hunk) || listed.contains(hunk) {
                    if owned[e].file_path == path {
                        assert forall|i: int|
                            0 <= i < owned[e].hunks.len() && touches(
                                #[trigger] owned[e].hunks[i],
                                hunk,
                            ) implies one_touches(end, owned[e].hunks[i]) by {
                            lemma_touches_stays(hunks_at(next.files, path), end, owned[e].hunks[i]);
                        }
                    }
                }
                assert forall|x: DiffHunkModel| #[trigger]
                    end.contains(x) && !listed.contains(x) implies owns_line_of(owned, path, x) by {
                    if hunks_at(next.files, path).contains(x) {
                        let i = choose|i: int|
                            0 <= i < owned[e].hunks.len() && touches(
                                #[trigger] owned[e].hunks[i],
                                x,
                            );
                        assert(touches(owned[e].hunks[i], x));
                    }
                }
            }
        }
    }
}

proof fn lemma_touches_stays(
    before: Seq<DiffHunkModel>,
    after: Seq<DiffHunkModel>,
    owned: HunkModel,
)
    requires
        one_touches(before, owned),
        forall|x: DiffHunkModel| before.contains(x) ==> #[trigger] after.contains(x),
    ensures
        one_touches(after, owned),
{
    let k = choose|k: int| 0 <= k < before.len() && touches(owned, #[trigger] before[k]);
    assert(before.contains(before[k]));
    assert(after.contains(before[k]));
    let j = choose|j: int| 0 <= j < after.len() && after[j] == before[k];
    assert(touches(owned, after[j]));
}

proof fn lemma_listed_touches(
    listed: Seq<DiffHunkModel>,
    owned: Seq<HunkModel>,
    hunk: DiffHunkModel,
)
    requires
        listed.contains(hunk),
    ensures
        forall|i: int|
            0 <= i < owned.len() && touches(#[trigger] owned[i], hunk) ==> one_touches(
                listed,
                owned[i],
            ),
{
    let j = choose|j: int| 0 <= j < listed.len() && listed[j] == hunk;
    assert forall|i: int|
        0 <= i < owned.len() && touches(#[trigger] owned[i], hunk) implies one_touches(
        listed,
        owned[i],
    ) by {
        assert(touches(owned[i], listed[j]));
    }
}

/// Whether a branch has, of a file, a hunk for every range of its ownership that has a line in
/// common with the given one.
pub open spec fn keeps(
    status: BranchStatusModel,
    owned: Seq<FileOwnershipModel>,
    path: Seq<char>,
    hunk: DiffHunkModel,
) -> bool {
    forall|e: int, i: int|
        #![trigger owned[e].hunks[i]]
        0 <= e < owned.len() && owned[e].file_path == path && 0 <= i < owned[e].hunks.len()
            && touches(owned[e].hunks[i], hunk) ==> one_touches(
            hunks_at(status.files, path),
            owned[e].hunks[i],
        )
}

/// Whether a branch has only hunks of a file that its ownership has a line of.
pub open spec fn has_only_its_own(
    status: BranchStatusModel,
    owned: Seq<FileOwnershipModel>,
    path: Seq<char>,
    all: Seq<DiffHunkModel>,
) -> bool {
    forall|x: DiffHunkModel| #[trigger]
        hunks_at(status.files, path).contains(x) ==> all.contains(x) && owns_line_of(
            owned,
            path,
            x,
        )
}

proof fn lemma_align(
    s: Seq<ReplyModel>,
    a: AlignmentModel,
    branches: Seq<BranchModel>,
    n: int,
    path: Seq<char>,
    all: Seq<DiffHunkModel>,
    hunk: DiffHunkModel,
    k: int,
)
    requires
        0 <= n <= branches.len(),
        a.statuses.len() == n,
        0 <= k < branches.len(),
        forall|j: int| 0 <= j < branches.len() ==> is_valid((#[trigger] branches[j]).ownership),
        all_fit(all),
        is_from(hunks_at(a.diff, path), seq![], all),
        forall|j: int|
            0 <= j < n ==> has_only_its_own(
                #[trigger] a.statuses[j],
                branches[j].ownership,
                path,
                all,
            ),
        n <= k ==> hunks_at(a.diff, path).contains(hunk),
        k < n ==> keeps(a.statuses[k], branches[k].ownership, path, hunk),
        forall|j: int|
            0 <= j < k ==> !owns_line_of((#[trigger] branches[j]).ownership, path, hunk),
    ensures
        align_flow(s, a, branches, n) matches Flow::Done(r, _) ==> {
            &&& r.statuses.len() == branches.len()
            &&& keeps(r.statuses[k], branches[k].ownership, path, hunk)
            &&& forall|j: int|
                0 <= j < branches.len() ==> has_only_its_own(
                    #[trigger] r.statuses[j],
                    branches[j].ownership,
                    path,
                    all,
                )
            &&& is_from(hunks_at(r.diff, path), seq![], all)
        },
    decreases branches.len() - n,
{
    if n < branches.len() {
        let owned = branches[n].ownership;
        let start = BranchClaimModel {
            diff: a.diff,
            files: seq![],
            kept: seq![],
            promoted: seq![],
        };
        assert(hunks_at(start.files, path) =~= seq![]);
        assert(is_valid(branches[n].ownership));
        lemma_claim_files(s, start, a.times, owned, 0, path, all, hunk);
        if let Flow::Done(next, rest) = align_branch_flow(s, a, branches[n]) {
            if let Flow::Done(c, _) = claim_files_flow(s, start, a.times, owned, 0) {
                let status = next.statuses[n];
                assert(status.files == c.0.files);
                assert forall|x: DiffHunkModel| #[trigger]
                    hunks_at(status.files, path).contains(x) implies all.contains(x)
                    && owns_line_of(owned, path, x) by {
                    let listed = hunks_at(c.0.files, path);
                    let m = choose|m: int| 0 <= m < listed.len() && listed[m] == x;
                    assert(all.contains(listed[m]));
                    assert(!Seq::<DiffHunkModel>::empty().contains(x));
                }
                assert(has_only_its_own(status, owned, path, all));
                assert forall|j: int| 0 <= j < n + 1 implies has_only_its_own(
                    #[trigger] next.statuses[j],
                    branches[j].ownership,
                    path,
                    all,
                ) by {
                    if j < n {
                        assert(next.statuses[j] == a.statuses[j]);
                    }
                }
                if n == k {
                    assert(keeps(status, owned, path, hunk));
                }
                if k < n {
                    assert(next.statuses[k] == a.statuses[k]);
                }
                if n < k {
                    assert(!owns_line_of(branches[n].ownership, path, hunk));
                }
                lemma_align(rest, next, branches, n + 1, path, all, hunk, k);
            }
        }
    }
}

proof fn lemma_give_hunks(
    s: Seq<ReplyModel>,
    status: BranchStatusModel,
    times: Seq<FileTimeModel>,
    file: FileDiffModel,
    i: int,
    path: Seq<char>,
)
    requires
        0 <= i <= file.hunks.len(),
    ensures
        give_hunks_flow(s, status, times, file, i) matches Flow::Done(r, _) ==> forall|
            x: DiffHunkModel,
        |
            hunks_at(status.files, path).contains(x) ==> #[trigger] hunks_at(
                r.0.files,
                path,
            ).contains(x),
    decreases file.hunks.len() - i,
{
    if i < file.hunks.len() {
        if let Flow::Done(m, rest) = get_mtime_flow(s, times, false, file.path) {
            let next = give_hunk(status, file.path, file.hunks[i], m.0);
            let hunks = hunks_at(status.files, file.path);
            lemma_hunks_at_with_hunks(
                status.files,
                file.path,
                hunks.push(file.hunks[i]),
                path,
            );
            assert forall|x: DiffHunkModel|
                hunks_at(status.files, path).contains(x) implies #[trigger] hunks_at(
                next.files,
                path,
            ).contains(x) by {
                if path == file.path {
                    let j = choose|j: int| 0 <= j < hunks.len() && hunks[j] == x;
                    assert(hunks.push(file.hunks[i])[j] == x);
                }
            }
            lemma_give_hunks(rest, next, m.1, file, i + 1, path);
        }
    }
}

proof fn lemma_give_files(
    s: Seq<ReplyModel>,
    status: BranchStatusModel,
    times: Seq<FileTimeModel>,
    diff: Seq<FileDiffModel>,
    i: int,
    path: Seq<char>,
)
    requires
        0 <= i <= diff.len(),
    ensures
        give_files_flow(s, status, times, diff, i) matches Flow::Done(r, _) ==> forall|
            x: DiffHunkModel,
        |
            hunks_at(status.files, path).contains(x) ==> #[trigger] hunks_at(
                r.0.files,
                path,
            ).contains(x),
    decreases diff.len() - i,
{
    if i < diff.len() {
        lemma_give_hunks(s, status, times, diff[i], 0, path);
        if let Flow::Done(g, rest) = give_hunks_flow(s, status, times, diff[i], 0) {
            lemma_give_files(rest, g.0, g.1, diff, i + 1, path);
        }
    }
}

/// A branch keeps the hunks whose lines it owns, wherever they are now: where a hunk of a file has a
/// line in common with a range that a branch owns of that file, and with none that a branch before it
/// owns, the branch has got a hunk of the file that has a line in common with that range. Where it is
/// the only such hunk, it is this one.
pub proof fn a_branch_keeps_the_hunks_whose_lines_it_owns(
    s: Seq<ReplyModel>,
    diff: Seq<FileDiffModel>,
    branches: Seq<BranchModel>,
    k: int,
    e: int,
    i: int,
    hunk: DiffHunkModel,
)
    requires
        0 <= k < branches.len(),
        0 <= e < branches[k].ownership.len(),
        0 <= i < branches[k].ownership[e].hunks.len(),
        forall|j: int| 0 <= j < branches.len() ==> is_valid((#[trigger] branches[j]).ownership),
        all_fit(hunks_at(diff, branches[k].ownership[e].file_path)),
        hunks_at(diff, branches[k].ownership[e].file_path).contains(hunk),
        touches(branches[k].ownership[e].hunks[i], hunk),
        forall|j: int|
            0 <= j < k ==> !owns_line_of(
                (#[trigger] branches[j]).ownership,
                branches[k].ownership[e].file_path,
                hunk,
            ),
    ensures
        share_out_flow(s, diff, branches) matches Flow::Done(statuses, _) ==> {
            let path = branches[k].ownership[e].file_path;
            let owned = branches[k].ownership[e].hunks[i];
            let all = hunks_at(diff, path);
            let got = hunks_at(statuses[k].files, path);
            &&& exists|x: DiffHunkModel| #[trigger]
                got.contains(x) && all.contains(x) && touches(owned, x)
            &&& (forall|x: DiffHunkModel| #[trigger]
                all.contains(x) && touches(owned, x) ==> x == hunk) ==> got.contains(hunk)
        },
{
    let path = branches[k].ownership[e].file_path;
    let owned = branches[k].ownership[e].hunks[i];
    let all = hunks_at(diff, path);
    let start = AlignmentModel { statuses: seq![], diff, times: seq![] };
    lemma_align(s, start, branches, 0, path, all, hunk, k);
    if let Flow::Done(a, rest) = align_flow(s, start, branches, 0) {
        lemma_give_files(rest, a.statuses[0], a.times, a.diff, 0, path);
        if let Flow::Done(statuses, _) = share_out_flow(s, diff, branches) {
            let own = hunks_at(a.statuses[k].files, path);
            let got = hunks_at(statuses[k].files, path);
            assert(one_touches(own, owned));
            assert(has_only_its_own(a.statuses[k], branches[k].ownership, path, all));
            let m = choose|m: int| 0 <= m < own.len() && touches(owned, #[trigger] own[m]);
            assert(own.contains(own[m]));
            if k > 0 {
                assert(statuses[k] == a.statuses[k]);
            }
            assert(got.contains(own[m]));
        }
    }
}

/// A branch other than the first gets only hunks that it owns a line of.
pub proof fn a_branch_gets_only_hunks_whose_lines_it_owns(
    s: Seq<ReplyModel>,
    diff: Seq<FileDiffModel>,
    branches: Seq<BranchModel>,
    k: int,
    path: Seq<char>,
    hunk: DiffHunkModel,
)
    requires
        0 < k < branches.len(),
        forall|j: int| 0 <= j < branches.len() ==> is_valid((#[trigger] branches[j]).ownership),
        all_fit(hunks_at(diff, path)),
    ensures
        share_out_flow(s, diff, branches) matches Flow::Done(statuses, _) ==> (hunks_at(
            statuses[k].files,
            path,
        ).contains(hunk) ==> hunks_at(diff, path).contains(hunk) && owns_line_of(
            branches[k].ownership,
            path,
            hunk,
        )),
{
    let all = hunks_at(diff, path);
    let start = AlignmentModel { statuses: seq![], diff, times: seq![] };
    lemma_align_own(s, start, branches, 0, path, all);
    if let Flow::Done(a, rest) = align_flow(s, start, branches, 0) {
        if let Flow::Done(statuses, _) = share_out_flow(s, diff, branches) {
            assert(statuses[k] == a.statuses[k]);
        }
    }
}

proof fn lemma_align_own(
    s: Seq<ReplyModel>,
    a: AlignmentModel,
    branches: Seq<BranchModel>,
    n: int,
    path: Seq<char>,
    all: Seq<DiffHunkModel>,
)
    requires
        0 <= n <= branches.len(),
        a.statuses.len() == n,
        forall|j: int| 0 <= j < branches.len() ==> is_valid((#[trigger] branches[j]).ownership),
        all_fit(all),
        is_from(hunks_at(a.diff, path), seq![], all),
        forall|j: int|
            0 <= j < n ==> has_only_its_own(
                #[trigger] a.statuses[j],
                branches[j].ownership,
                path,
                all,
            ),
    ensures
        align_flow(s, a, branches, n) matches Flow::Done(r, _) ==> {
            &&& r.statuses.len() == branches.len()
            &&& forall|j: int|
                0 <= j < branches.len() ==> has_only_its_own(
                    #[trigger] r.statuses[j],
                    branches[j].ownership,
                    path,
                    all,
                )
        },
    decreases branches.len() - n,
{
    if n < branches.len() {
        let owned = branches[n].ownership;
        let start = BranchClaimModel {
            diff: a.diff,
            files: seq![],
            kept: seq![],
            promoted: seq![],
        };
        let any = arbitrary::<DiffHunkModel>();
        assert(hunks_at(start.files, path) =~= seq![]);
        assert(is_valid(branches[n].ownership));
        lemma_claim_files(s, start, a.times, owned, 0, path, all, any);
        if let Flow::Done(next, rest) = align_branch_flow(s, a, branches[n]) {
            if let Flow::Done(c, _) = claim_files_flow(s, start, a.times, owned, 0) {
                let status = next.statuses[n];
                assert(status.files == c.0.files);
                assert forall|x: DiffHunkModel| #[trigger]
                    hunks_at(status.files, path).contains(x) implies all.contains(x)
                    && owns_line_of(owned, path, x) by {
                    let listed = hunks_at(c.0.files, path);
                    let m = choose|m: int| 0 <= m < listed.len() && listed[m] == x;
                    assert(all.contains(listed[m]));
                    assert(!Seq::<DiffHunkModel>::empty().contains(x));
                }
                assert(has_only_its_own(status, owned, path, all));
                assert forall|j: int| 0 <= j < n + 1 implies has_only_its_own(
                    #[trigger] next.statuses[j],
                    branches[j].ownership,
                    path,
                    all,
                ) by {
                    if j < n {
                        assert(next.statuses[j] == a.statuses[j]);
                    }
                }
                lemma_align_own(rest, next, branches, n + 1, path, all);
            }
        }
    }
}

/// Whether the time of a file is asked for, as it stands, or the present.
pub open spec fn asks_for_time(request: RequestModel) -> bool {
    ||| request == RequestModel::Now
    ||| request matches RequestModel::FileTimes { in_repository, .. } && !in_repository
}

proof fn lemma_claim_asks(
    s: Seq<ReplyModel>,
    c: BranchClaimModel,
    times: Seq<FileTimeModel>,
    owned: Seq<FileOwnershipModel>,
    e: int,
)
    requires
        0 <= e <= owned.len(),
    ensures
        claim_files_flow(s, c, times, owned, e) matches Flow::Stop(StopModel::Ask(request))
            ==> asks_for_time(request),
    decreases owned.len() - e,
{
    if e < owned.len() {
        if place_of(c.diff, owned[e].file_path) >= c.diff.len() {
            lemma_claim_asks(s, c, times, owned, e + 1);
        } else if let Flow::Done(m, rest) = get_mtime_flow(s, times, false, owned[e].file_path) {
            lemma_claim_asks(rest, claim_file(c, owned[e], m.0), m.1, owned, e + 1);
        }
    }
}

proof fn lemma_align_asks(s: Seq<ReplyModel>, a: AlignmentModel, branches: Seq<BranchModel>, n: int)
    requires
        0 <= n <= branches.len(),
    ensures
        align_flow(s, a, branches, n) matches Flow::Stop(StopModel::Ask(request))
            ==> asks_for_time(request),
    decreases branches.len() - n,
{
    if n < branches.len() {
        let start = BranchClaimModel {
            diff: a.diff,
            files: seq![],
            kept: seq![],
            promoted: seq![],
        };
        lemma_claim_asks(s, start, a.times, branches[n].ownership, 0);
        if let Flow::Done(next, rest) = align_branch_flow(s, a, branches[n]) {
            lemma_align_asks(rest, next, branches, n + 1);
        }
    }
}

proof fn lemma_give_asks(
    s: Seq<ReplyModel>,
    status: BranchStatusModel,
    times: Seq<FileTimeModel>,
    file: FileDiffModel,
    i: int,
)
    requires
        0 <= i <= file.hunks.len(),
    ensures
        give_hunks_flow(s, status, times, file, i) matches Flow::Stop(StopModel::Ask(request))
            ==> asks_for_time(request),
    decreases file.hunks.len() - i,
{
    if i < file.hunks.len() {
        if let Flow::Done(m, rest) = get_mtime_flow(s, times, false, file.path) {
            let next = give_hunk(status, file.path, file.hunks[i], m.0);
            lemma_give_asks(rest, next, m.1, file, i + 1);
        }
    }
}

proof fn lemma_give_files_asks(
    s: Seq<ReplyModel>,
    status: BranchStatusModel,
    times: Seq<FileTimeModel>,
    diff: Seq<FileDiffModel>,
    i: int,
)
    requires
        0 <= i <= diff.len(),
    ensures
        give_files_flow(s, status, times, diff, i) matches Flow::Stop(StopModel::Ask(request))
            ==> asks_for_time(request),
    decreases diff.len() - i,
{
    if i < diff.len() {
        lemma_give_asks(s, status, times, diff[i], 0);
        if let Flow::Done(g, rest) = give_hunks_flow(s, status, times, diff[i], 0) {
            lemma_give_files_asks(rest, g.0, g.1, diff, i + 1);
        }
    }
}

/// To share hunks out, nothing is asked for but the times of files, as their paths stand, and the
/// present.
pub proof fn only_times_are_asked_for_to_share_out(
    s: Seq<ReplyModel>,
    diff: Seq<FileDiffModel>,
    branches: Seq<BranchModel>,
)
    ensures
        share_out_flow(s, diff, branches) matches Flow::Stop(StopModel::Ask(request))
            ==> asks_for_time(request),
{
    let start = AlignmentModel { statuses: seq![], diff, times: seq![] };
    lemma_align_asks(s, start, branches, 0);
    if let Flow::Done(a, rest) = align_flow(s, start, branches, 0) {
        if a.statuses.len() > 0 {
            lemma_give_files_asks(rest, a.statuses[0], a.times, a.diff, 0);
        }
    }
}

} // verus!
