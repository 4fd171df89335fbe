//! That a branch owns every hunk that it gets.

use crate::branch::BranchModel;
use crate::claims::{
    claim_file, claim_hunk, claim_hunks, claimed_at, file_claim, hunks_at, lemma_claimed_at,
    one_by_one, BranchClaimModel, FileClaimModel,
};
use crate::diff::{distinct_paths, lemma_place_of, place_of, DiffHunkModel, FileDiffModel};
use crate::digest::diff_hash_of;
use crate::ownership::{
    holds, lemma_position_of, position_of, put_each, put_into, FileOwnershipModel, HunkModel,
};
use crate::protocol::{Flow, ReplyModel};
use crate::seqs::lemma_filter_from;
use crate::sharing::{lemma_hunks_at_with_hunks, lemma_within_through, within};
use crate::status::{
    align_branch_flow, align_flow, claim_files_flow, give_files_flow, give_hunk, give_hunks_flow,
    share_out_flow, AlignmentModel, BranchStatusModel,
};
use crate::times::{get_mtime_flow, FileTimeModel};
use vstd::prelude::*;

verus! {

/// Whether two hunks are different ranges of lines.
pub open spec fn apart(one: DiffHunkModel, other: DiffHunkModel) -> bool {
    one.to_own().start != other.to_own().start || one.to_own().end != other.to_own().end
}

/// Whether some hunks are all different ranges of lines.
pub open spec fn all_apart(hunks: Seq<DiffHunkModel>) -> bool {
    forall|i: int, j: int| 0 <= i < j < hunks.len() ==> apart(#[trigger] hunks[i], #[trigger] hunks[j])
}

/// Whether the hunks of every file of a diff are different ranges of lines, and no file comes
/// twice.
pub open spec fn is_plain_diff(files: Seq<FileDiffModel>) -> bool {
    &&& distinct_paths(files)
    &&& forall|i: int| 0 <= i < files.len() ==> all_apart((#[trigger] files[i]).hunks)
}

/// Whether no file is owned in two entries.
pub open spec fn one_entry_each(owned: Seq<FileOwnershipModel>) -> bool {
    forall|i: int, j: int|
        0 <= i < j < owned.len() ==> (#[trigger] owned[i]).file_path != (#[trigger] owned[j]).file_path
}

/// Whether no file is owned as a whole.
pub open spec fn none_full(owned: Seq<FileOwnershipModel>) -> bool {
    forall|i: int| 0 <= i < owned.len() ==> !(#[trigger] owned[i]).is_full()
}

/// Whether a hunk is among the owned hunks of a file.
pub open spec fn owns_hunk(owned: Seq<HunkModel>, hunk: DiffHunkModel) -> bool {
    exists|k: int| 0 <= k < owned.len() && (#[trigger] owned[k]).same(hunk.to_own())
}

/// Whether a hunk of a file is owned.
pub open spec fn owns_in(owned: Seq<FileOwnershipModel>, path: Seq<char>, hunk: DiffHunkModel) -> bool {
    exists|i: int|
        0 <= i < owned.len() && (#[trigger] owned[i]).file_path == path && owns_hunk(
            owned[i].hunks,
            hunk,
        )
}

/// Whether every hunk of a diff is owned.
pub open spec fn owns_all(files: Seq<FileDiffModel>, owned: Seq<FileOwnershipModel>) -> bool {
    forall|path: Seq<char>, j: int|
        0 <= j < hunks_at(files, path).len() ==> owns_in(
            owned,
            path,
            #[trigger] hunks_at(files, path)[j],
        )
}

/// Whether each hunk of one sequence and each of another are different ranges of lines.
pub open spec fn apart_from(hunks: Seq<DiffHunkModel>, others: Seq<DiffHunkModel>) -> bool {
    forall|i: int, j: int|
        0 <= i < hunks.len() && 0 <= j < others.len() ==> apart(
            #[trigger] hunks[i],
            #[trigger] others[j],
        )
}

/// Whether in every file the hunks of two diffs are all different ranges of lines.
pub open spec fn all_different(diff: Seq<FileDiffModel>, files: Seq<FileDiffModel>) -> bool {
    forall|path: Seq<char>| #[trigger]
        all_apart(hunks_at(diff, path)) && all_apart(hunks_at(files, path)) && apart_from(
            hunks_at(diff, path),
            hunks_at(files, path),
        )
}

/// Whether one diff holds only hunks of another.
pub open spec fn diff_within(files: Seq<FileDiffModel>, others: Seq<FileDiffModel>) -> bool {
    forall|path: Seq<char>| within(#[trigger] hunks_at(files, path), hunks_at(others, path))
}

/// How the claims to one file stand: every hunk that was got is owned, and whatever was promoted is
/// one of them.
spec fn met(c: FileClaimModel) -> bool {
    &&& all_apart(c.left)
    &&& all_apart(c.listed)
    &&& apart_from(c.left, c.listed)
    &&& forall|j: int| 0 <= j < c.listed.len() ==> owns_hunk(c.kept, #[trigger] c.listed[j])
    &&& forall|k: int| 0 <= k < c.promoted.len() ==> is_one_of(c.listed, #[trigger] c.promoted[k])
}

/// Whether an owned hunk stands for one of some hunks exactly.
spec fn is_one_of(hunks: Seq<DiffHunkModel>, owned: HunkModel) -> bool {
    exists|j: int| 0 <= j < hunks.len() && owned == (#[trigger] hunks[j]).to_own()
}

proof fn lemma_met(c: FileClaimModel, owned: HunkModel, mtime: u128)
    requires
        met(c),
    ensures
        met(claim_hunk(c, owned, mtime)),
        within(claim_hunk(c, owned, mtime).left, c.left),
{
    let new = claim_hunk(c, owned, mtime);
    let at = claimed_at(c.left, owned);
    lemma_claimed_at(c.left, owned);
    if at < c.left.len() {
        let hunk = c.left[at];
        let same = owned.same(hunk.to_own());
        let place = if same {
            c.listed.len() as int
        } else {
            0
        };
        assert forall|i: int| 0 <= i < new.left.len() implies c.left.contains(#[trigger] new.left[i])
            && new.left[i] == c.left[left_from(at, i)] by {}
        assert forall|j: int| 0 <= j < new.listed.len() implies #[trigger] new.listed[j] == (if j
            == place {
            hunk
        } else {
            c.listed[listed_from(place, j)]
        }) by {}
        assert forall|i: int, j: int| 0 <= i < j < new.left.len() implies apart(
            #[trigger] new.left[i],
            #[trigger] new.left[j],
        ) by {
            assert(apart(c.left[left_from(at, i)], c.left[left_from(at, j)]));
        }
        assert forall|i: int, j: int| 0 <= i < j < new.listed.len() implies apart(
            #[trigger] new.listed[i],
            #[trigger] new.listed[j],
        ) by {
            if i == place {
                assert(apart(c.left[at], c.listed[listed_from(place, j)]));
            } else if j == place {
                assert(apart(c.left[at], c.listed[listed_from(place, i)]));
            } else {
                assert(apart(c.listed[listed_from(place, i)], c.listed[listed_from(place, j)]));
            }
        }
        assert forall|i: int, j: int|
            0 <= i < new.left.len() && 0 <= j < new.listed.len() implies apart(
            #[trigger] new.left[i],
            #[trigger] new.listed[j],
        ) by {
            let from = left_from(at, i);
            if j == place {
                if from < at {
                    assert(apart(c.left[from], c.left[at]));
                } else {
                    assert(apart(c.left[at], c.left[from]));
                }
            } else {
                assert(apart(c.left[from], c.listed[listed_from(place, j)]));
            }
        }
        assert forall|j: int| 0 <= j < new.listed.len() implies owns_hunk(
            new.kept,
            #[trigger] new.listed[j],
        ) by {
            if j == place {
                assert(new.kept[c.kept.len() as int].same(hunk.to_own()));
            } else {
                let d = c.listed[listed_from(place, j)];
                assert(owns_hunk(c.kept, d));
                let k = choose|k: int| 0 <= k < c.kept.len() && (#[trigger] c.kept[k]).same(d.to_own());
                assert(new.kept[k].same(d.to_own()));
            }
        }
        assert forall|k: int| 0 <= k < new.promoted.len() implies is_one_of(
            new.listed,
            #[trigger] new.promoted[k],
        ) by {
            if k < c.promoted.len() {
                assert(is_one_of(c.listed, c.promoted[k]));
                let j = choose|j: int|
                    0 <= j < c.listed.len() && c.promoted[k] == (#[trigger] c.listed[j]).to_own();
                let to = if j < place {
                    j
                } else {
                    j + 1
                };
                assert(new.listed[to] == c.listed[j]);
            } else {
                assert(new.listed[place] == hunk);
            }
        }
    } else {
        assert forall|i: int| 0 <= i < new.left.len() implies c.left.contains(
            #[trigger] new.left[i],
        ) by {
            assert(c.left[i] == new.left[i]);
        }
    }
}

/// Where an element stood before one was removed.
spec fn left_from(at: int, i: int) -> int {
    if i < at {
        i
    } else {
        i + 1
    }
}

/// Where an element stood before one was added.
spec fn listed_from(place: int, j: int) -> int {
    if j < place {
        j
    } else {
        j - 1
    }
}

proof fn lemma_all_met(c: FileClaimModel, owned: Seq<HunkModel>, mtime: u128)
    requires
        met(c),
    ensures
        met(claim_hunks(c, owned, mtime)),
        within(claim_hunks(c, owned, mtime).left, c.left),
    decreases owned.len(),
{
    if owned.len() > 0 {
        let before = claim_hunks(c, owned.drop_last(), mtime);
        lemma_all_met(c, owned.drop_last(), mtime);
        lemma_met(before, owned.last(), mtime);
        lemma_within_through(claim_hunks(c, owned, mtime).left, before.left, c.left);
    } else {
        assert forall|i: int| 0 <= i < c.left.len() implies c.left.contains(#[trigger] c.left[i]) by {}
    }
}

/// How the claims of one branch stand: every hunk that it has got is owned, each file in one entry,
/// and whatever was promoted is a hunk that it has got.
spec fn branch_met(c: BranchClaimModel) -> bool {
    &&& all_different(c.diff, c.files)
    &&& owns_all(c.files, c.kept)
    &&& one_entry_each(c.kept)
    &&& none_full(c.kept)
    &&& forall|k: int| 0 <= k < c.promoted.len() ==> is_promoted(c.files, #[trigger] c.promoted[k])
}

/// Whether an ownership is that of one hunk of a diff.
spec fn is_promoted(files: Seq<FileDiffModel>, f: FileOwnershipModel) -> bool {
    f.hunks.len() == 1 && is_one_of(hunks_at(files, f.file_path), f.hunks[0])
}

proof fn lemma_branch_met(c: BranchClaimModel, owned: FileOwnershipModel, mtime: u128)
    requires
        branch_met(c),
        place_of(c.diff, owned.file_path) < c.diff.len(),
        forall|k: int| 0 <= k < c.kept.len() ==> (#[trigger] c.kept[k]).file_path != owned.file_path,
    ensures
        branch_met(claim_file(c, owned, mtime)),
        diff_within(claim_file(c, owned, mtime).diff, c.diff),
        forall|k: int|
            0 <= k < claim_file(c, owned, mtime).kept.len() ==> {
                ||| (#[trigger] claim_file(c, owned, mtime).kept[k]).file_path == owned.file_path
                ||| k < c.kept.len() && claim_file(c, owned, mtime).kept[k] == c.kept[k]
            },
{
    let path = owned.file_path;
    let claim = file_claim(c, owned, mtime);
    let new = claim_file(c, owned, mtime);
    let start = FileClaimModel {
        left: hunks_at(c.diff, path),
        listed: hunks_at(c.files, path),
        kept: seq![],
        promoted: seq![],
    };
    assert(start.listed.len() == 0) by {
        if start.listed.len() > 0 {
            assert(owns_in(c.kept, path, hunks_at(c.files, path)[0]));
        }
    }
    assert(all_apart(hunks_at(c.diff, path)));
    lemma_all_met(start, owned.hunks, mtime);
    lemma_place_of(c.files, path);
    assert forall|p: Seq<char>| #[trigger]
        all_apart(hunks_at(new.diff, p)) && all_apart(hunks_at(new.files, p)) && apart_from(
            hunks_at(new.diff, p),
            hunks_at(new.files, p),
        ) by {
        lemma_hunks_at_with_hunks(c.diff, path, claim.left, p);
        lemma_hunks_at_with_hunks(c.files, path, claim.listed, p);
        assert(all_apart(hunks_at(c.diff, p)));
    }
    assert forall|p: Seq<char>| within(#[trigger] hunks_at(new.diff, p), hunks_at(c.diff, p)) by {
        lemma_hunks_at_with_hunks(c.diff, path, claim.left, p);
        if p != path {
            lemma_within_itself(hunks_at(c.diff, p));
        }
    }
    assert forall|p: Seq<char>, j: int| 0 <= j < hunks_at(new.files, p).len() implies owns_in(
        new.kept,
        p,
        #[trigger] hunks_at(new.files, p)[j],
    ) by {
        lemma_hunks_at_with_hunks(c.files, path, claim.listed, p);
        if p == path {
            let d = claim.listed[j];
            assert(owns_hunk(claim.kept, d));
            let i = c.kept.len() as int;
            assert(new.kept[i].file_path == path && owns_hunk(new.kept[i].hunks, d));
        } else {
            let d = hunks_at(c.files, p)[j];
            assert(owns_in(c.kept, p, d));
            let i = choose|i: int|
                0 <= i < c.kept.len() && (#[trigger] c.kept[i]).file_path == p && owns_hunk(
                    c.kept[i].hunks,
                    d,
                );
            assert(new.kept[i] == c.kept[i]);
        }
    }
    assert forall|k: int| 0 <= k < new.promoted.len() implies is_promoted(
        new.files,
        #[trigger] new.promoted[k],
    ) by {
        let f = new.promoted[k];
        lemma_hunks_at_with_hunks(c.files, path, claim.listed, f.file_path);
        if k < c.promoted.len() {
            assert(f == c.promoted[k]);
            assert(is_promoted(c.files, c.promoted[k]));
            if f.file_path == path {
                assert(hunks_at(c.files, path).len() == 0);
            }
        } else {
            let i = k - c.promoted.len();
            assert(f == one_by_one(path, claim.promoted)[i]);
            assert(is_one_of(claim.listed, claim.promoted[i]));
        }
    }
}

proof fn lemma_within_itself(hunks: Seq<DiffHunkModel>)
    ensures
        within(hunks, hunks),
{
    assert forall|j: int| 0 <= j < hunks.len() implies hunks.contains(#[trigger] hunks[j]) by {}
}

/// Whether each entry of some files is of a file that comes before the given position.
spec fn come_before(kept: Seq<FileOwnershipModel>, owned: Seq<FileOwnershipModel>, i: int) -> bool {
    forall|k: int|
        0 <= k < kept.len() ==> is_path_before(owned, i, (#[trigger] kept[k]).file_path)
}

/// Whether a path is that of an entry before the given position.
spec fn is_path_before(owned: Seq<FileOwnershipModel>, i: int, path: Seq<char>) -> bool {
    exists|m: int| 0 <= m < i && m < owned.len() && (#[trigger] owned[m]).file_path == path
}

proof fn lemma_come_before_next(kept: Seq<FileOwnershipModel>, owned: Seq<FileOwnershipModel>, i: int)
    requires
        come_before(kept, owned, i),
    ensures
        come_before(kept, owned, i + 1),
{
    assert forall|k: int| 0 <= k < kept.len() implies is_path_before(
        owned,
        i + 1,
        (#[trigger] kept[k]).file_path,
    ) by {
        assert(is_path_before(owned, i, kept[k].file_path));
        let m = choose|m: int|
            0 <= m < i && m < owned.len() && (#[trigger] owned[m]).file_path == kept[k].file_path;
        assert(owned[m].file_path == kept[k].file_path);
    }
}

proof fn lemma_files_met(
    s: Seq<ReplyModel>,
    c: BranchClaimModel,
    times: Seq<FileTimeModel>,
    owned: Seq<FileOwnershipModel>,
    i: int,
)
    requires
        0 <= i <= owned.len(),
        one_entry_each(owned),
        branch_met(c),
        come_before(c.kept, owned, i),
    ensures
        claim_files_flow(s, c, times, owned, i) matches Flow::Done(r, _) ==> branch_met(r.0)
            && diff_within(r.0.diff, c.diff),
    decreases owned.len() - i,
{
    if i < owned.len() {
        if place_of(c.diff, owned[i].file_path) >= c.diff.len() {
            lemma_come_before_next(c.kept, owned, i);
            lemma_files_met(s, c, times, owned, i + 1);
        } else {
            match get_mtime_flow(s, times, false, owned[i].file_path) {
                Flow::Done(m, rest) => {
                    let next = claim_file(c, owned[i], m.0);
                    assert forall|k: int| 0 <= k < c.kept.len() implies (
                    #[trigger] c.kept[k]).file_path != owned[i].file_path by {
                        assert(is_path_before(owned, i, c.kept[k].file_path));
                    }
                    lemma_branch_met(c, owned[i], m.0);
                    lemma_come_before_next(c.kept, owned, i);
                    assert(come_before(next.kept, owned, i + 1)) by {
                        assert forall|k: int| 0 <= k < next.kept.len() implies is_path_before(
                            owned,
                            i + 1,
                            (#[trigger] next.kept[k]).file_path,
                        ) by {
                            if next.kept[k].file_path == owned[i].file_path {
                                assert(owned[i].file_path == next.kept[k].file_path);
                            } else {
                                assert(is_path_before(owned, i + 1, c.kept[k].file_path));
                            }
                        }
                    }
                    lemma_files_met(rest, next, m.1, owned, i + 1);
                    match claim_files_flow(rest, next, m.1, owned, i + 1) {
                        Flow::Done(r, _) => {
                            lemma_diff_within_through(r.0.diff, next.diff, c.diff);
                        },
                        Flow::Stop(_) => {},
                    }
                },
                Flow::Stop(_) => {},
            }
        }
    } else {
        lemma_diff_within_itself(c.diff);
    }
}

proof fn lemma_diff_within_itself(diff: Seq<FileDiffModel>)
    ensures
        diff_within(diff, diff),
{
    assert forall|p: Seq<char>| within(#[trigger] hunks_at(diff, p), hunks_at(diff, p)) by {
        lemma_within_itself(hunks_at(diff, p));
    }
}

proof fn lemma_diff_within_through(
    one: Seq<FileDiffModel>,
    two: Seq<FileDiffModel>,
    three: Seq<FileDiffModel>,
)
    requires
        diff_within(one, two),
        diff_within(two, three),
    ensures
        diff_within(one, three),
{
    assert forall|p: Seq<char>| within(#[trigger] hunks_at(one, p), hunks_at(three, p)) by {
        assert(within(hunks_at(two, p), hunks_at(three, p)));
        lemma_within_through(hunks_at(one, p), hunks_at(two, p), hunks_at(three, p));
    }
}

/// What is owned of some files once a hunk has been put: the hunk itself, and whatever was owned
/// before and is not the same range of lines.
proof fn lemma_put_owns(
    files: Seq<FileDiffModel>,
    owned: Seq<FileOwnershipModel>,
    claim: FileOwnershipModel,
    hunk: DiffHunkModel,
)
    requires
        one_entry_each(owned),
        none_full(owned),
        claim.hunks.len() == 1,
        claim.hunks[0].same(hunk.to_own()),
        forall|path: Seq<char>, j: int|
            0 <= j < hunks_at(files, path).len() ==> {
                let d = #[trigger] hunks_at(files, path)[j];
                if path == claim.file_path {
                    d == hunk || (owns_in(owned, path, d) && apart(d, hunk))
                } else {
                    owns_in(owned, path, d)
                }
            },
    ensures
        one_entry_each(put_into(owned, claim)),
        none_full(put_into(owned, claim)),
        owns_all(files, put_into(owned, claim)),
{
    let path = claim.file_path;
    let new = put_into(owned, claim);
    let at = position_of(owned, path);
    let keep = |f: FileOwnershipModel| f.file_path != path;
    let others = owned.filter(keep);
    lemma_position_of(owned, path);
    lemma_one_entry_filter(owned, keep);
    assert forall|i: int, j: int| 0 <= i < j < new.len() implies (#[trigger] new[i]).file_path != (
    #[trigger] new[j]).file_path by {
        assert(new[j] == others[j - 1]);
        owned.lemma_filter_pred(keep, j - 1);
        if i > 0 {
            assert(new[i] == others[i - 1]);
        } else {
            assert(new[0].file_path == path);
        }
    }
    assert forall|i: int| 0 <= i < new.len() implies !(#[trigger] new[i]).is_full() by {
        if i > 0 {
            let from = lemma_filter_from(owned, keep, i - 1);
            assert(new[i] == owned[from]);
        } else {
            lemma_put_owns_itself(owned, claim, hunk);
        }
    }
    assert forall|p: Seq<char>, j: int| 0 <= j < hunks_at(files, p).len() implies owns_in(
        new,
        p,
        #[trigger] hunks_at(files, p)[j],
    ) by {
        let d = hunks_at(files, p)[j];
        if p != path {
            let i = choose|i: int|
                0 <= i < owned.len() && (#[trigger] owned[i]).file_path == p && owns_hunk(
                    owned[i].hunks,
                    d,
                );
            owned.lemma_filter_contains(keep, i);
            let k = choose|k: int| 0 <= k < others.len() && others[k] == owned[i];
            assert(new[k + 1] == owned[i]);
            assert(new[k + 1].file_path == p && owns_hunk(new[k + 1].hunks, d));
        } else {
            if d == hunk {
                lemma_put_owns_itself(owned, claim, d);
            } else {
                let i = choose|i: int|
                    0 <= i < owned.len() && (#[trigger] owned[i]).file_path == p && owns_hunk(
                        owned[i].hunks,
                        d,
                    );
                assert(at == i) by {
                    if at < i {
                        assert(owned[at].file_path == owned[i].file_path);
                    }
                }
                let k = choose|k: int|
                    0 <= k < owned[i].hunks.len() && (#[trigger] owned[i].hunks[k]).same(d.to_own());
                let h = owned[i].hunks[k];
                let fresh = |h: HunkModel| !holds(claim.hunks, h);
                assert(!holds(claim.hunks, h));
                owned[i].hunks.lemma_filter_contains(fresh, k);
                let rest = owned[i].hunks.filter(fresh);
                let n = choose|n: int| 0 <= n < rest.len() && rest[n] == h;
                assert(new[0].hunks[n + 1] == h);
                assert(owns_hunk(new[0].hunks, d));
                assert(new[0].file_path == p);
            }
        }
    }
}

proof fn lemma_put_owns_itself(
    owned: Seq<FileOwnershipModel>,
    claim: FileOwnershipModel,
    hunk: DiffHunkModel,
)
    requires
        claim.hunks.len() == 1,
        claim.hunks[0].same(hunk.to_own()),
        none_full(owned),
    ensures
        owns_in(put_into(owned, claim), claim.file_path, hunk),
        !put_into(owned, claim)[0].is_full(),
{
    let new = put_into(owned, claim);
    lemma_position_of(owned, claim.file_path);
    assert(new[0].hunks[0].same(hunk.to_own()));
    assert(owns_hunk(new[0].hunks, hunk));
    assert(new[0].file_path == claim.file_path);
}

proof fn lemma_one_entry_filter(
    owned: Seq<FileOwnershipModel>,
    keep: spec_fn(FileOwnershipModel) -> bool,
)
    requires
        one_entry_each(owned),
    ensures
        one_entry_each(owned.filter(keep)),
    decreases owned.len(),
{
    reveal(Seq::filter);
    if owned.len() > 0 {
        let before = owned.drop_last();
        lemma_one_entry_filter(before, keep);
        let kept = before.filter(keep);
        let new = owned.filter(keep);
        assert forall|i: int, j: int| 0 <= i < j < new.len() implies (#[trigger] new[i]).file_path
            != (#[trigger] new[j]).file_path by {
            assert(new[i] == kept[i]);
            if j < kept.len() {
                assert(new[j] == kept[j]);
            } else {
                let from = lemma_filter_from(before, keep, i);
                assert(owned[from] == kept[i]);
                assert(new[j] == owned[owned.len() - 1]);
            }
        }
    }
}

proof fn lemma_put_each_owns(
    files: Seq<FileDiffModel>,
    owned: Seq<FileOwnershipModel>,
    claims: Seq<FileOwnershipModel>,
)
    requires
        forall|path: Seq<char>| all_apart(#[trigger] hunks_at(files, path)),
        owns_all(files, owned),
        one_entry_each(owned),
        none_full(owned),
        forall|k: int| 0 <= k < claims.len() ==> is_promoted(files, #[trigger] claims[k]),
    ensures
        owns_all(files, put_each(owned, claims)),
        one_entry_each(put_each(owned, claims)),
        none_full(put_each(owned, claims)),
    decreases claims.len(),
{
    if claims.len() > 0 {
        let before = claims.drop_last();
        assert forall|k: int| 0 <= k < before.len() implies is_promoted(files, #[trigger] before[k]) by {
            assert(before[k] == claims[k]);
        }
        lemma_put_each_owns(files, owned, before);
        let claim = claims[claims.len() - 1];
        assert(is_promoted(files, claim));
        let path = claim.file_path;
        let there = hunks_at(files, path);
        let at = choose|at: int|
            0 <= at < there.len() && claim.hunks[0] == (#[trigger] there[at]).to_own();
        let so_far = put_each(owned, before);
        assert forall|p: Seq<char>, j: int| 0 <= j < hunks_at(files, p).len() implies {
            let d = #[trigger] hunks_at(files, p)[j];
            if p == path {
                d == there[at] || (owns_in(so_far, p, d) && apart(d, there[at]))
            } else {
                owns_in(so_far, p, d)
            }
        } by {
            assert(owns_in(so_far, p, hunks_at(files, p)[j]));
            if p == path && j != at {
                assert(all_apart(hunks_at(files, path)));
                if j < at {
                    assert(apart(there[j], there[at]));
                } else {
                    assert(apart(there[at], there[j]));
                }
            }
        }
        lemma_put_owns(files, so_far, claim, there[at]);
    }
}

/// How a branch that has been served stands towards what is left of the diff.
spec fn served(diff: Seq<FileDiffModel>, status: BranchStatusModel) -> bool {
    &&& all_different(diff, status.files)
    &&& owns_all(status.files, status.branch.ownership)
    &&& one_entry_each(status.branch.ownership)
    &&& none_full(status.branch.ownership)
}

proof fn lemma_served_later(
    diff: Seq<FileDiffModel>,
    later: Seq<FileDiffModel>,
    status: BranchStatusModel,
)
    requires
        served(diff, status),
        diff_within(later, diff),
        forall|path: Seq<char>| all_apart(#[trigger] hunks_at(later, path)),
    ensures
        served(later, status),
{
    assert forall|p: Seq<char>| #[trigger]
        all_apart(hunks_at(later, p)) && all_apart(hunks_at(status.files, p)) && apart_from(
            hunks_at(later, p),
            hunks_at(status.files, p),
        ) by {
        let old_hunks = hunks_at(diff, p);
        let new_hunks = hunks_at(later, p);
        let others = hunks_at(status.files, p);
        assert(all_apart(hunks_at(diff, p)));
        assert(within(new_hunks, old_hunks));
        assert forall|i: int, j: int| 0 <= i < new_hunks.len() && 0 <= j < others.len() implies apart(
            #[trigger] new_hunks[i],
            #[trigger] others[j],
        ) by {
            assert(old_hunks.contains(new_hunks[i]));
            let k = choose|k: int| 0 <= k < old_hunks.len() && old_hunks[k] == new_hunks[i];
            assert(apart(old_hunks[k], others[j]));
        }
    }
}

/// Whether all branches own their files in one entry each.
pub open spec fn plain_ownership(branches: Seq<BranchModel>) -> bool {
    forall|i: int| 0 <= i < branches.len() ==> one_entry_each((#[trigger] branches[i]).ownership)
}

proof fn lemma_align_served(s: Seq<ReplyModel>, a: AlignmentModel, branches: Seq<BranchModel>, i: int)
    requires
        0 <= i <= branches.len(),
        plain_ownership(branches),
        forall|path: Seq<char>| all_apart(#[trigger] hunks_at(a.diff, path)),
        forall|k: int| 0 <= k < a.statuses.len() ==> served(a.diff, #[trigger] a.statuses[k]),
    ensures
        align_flow(s, a, branches, i) matches Flow::Done(r, _) ==> {
            &&& forall|path: Seq<char>| all_apart(#[trigger] hunks_at(r.diff, path))
            &&& forall|k: int| 0 <= k < r.statuses.len() ==> served(r.diff, #[trigger] r.statuses[k])
            &&& distinct_paths(a.diff) ==> distinct_paths(r.diff)
        },
    decreases branches.len() - i,
{
    if i < branches.len() && branches[i].applied {
        let branch = branches[i];
        let start = BranchClaimModel { diff: a.diff, files: seq![], kept: seq![], promoted: seq![] };
        assert(branch_met(start)) by {
            assert forall|p: Seq<char>| #[trigger]
                all_apart(hunks_at(start.diff, p)) && all_apart(hunks_at(start.files, p))
                    && apart_from(hunks_at(start.diff, p), hunks_at(start.files, p)) by {
                assert(hunks_at(start.files, p).len() == 0);
            }
        }
        assert(come_before(start.kept, branch.ownership, 0));
        lemma_files_met(s, start, a.times, branch.ownership, 0);
        lemma_files_keep_paths(s, start, a.times, branch.ownership, 0);
        match claim_files_flow(s, start, a.times, branch.ownership, 0) {
            Flow::Done(c, rest) => {
                assert forall|p: Seq<char>| all_apart(#[trigger] hunks_at(c.0.files, p)) by {
                    assert(all_apart(hunks_at(c.0.diff, p)));
                }
                assert forall|p: Seq<char>| all_apart(#[trigger] hunks_at(c.0.diff, p)) by {
                    assert(all_apart(hunks_at(c.0.diff, p)));
                }
                lemma_put_each_owns(c.0.files, c.0.kept, c.0.promoted);
                match align_branch_flow(s, a, branch) {
                    Flow::Done(next, rest) => {
                        assert forall|k: int| 0 <= k < next.statuses.len() implies served(
                            next.diff,
                            #[trigger] next.statuses[k],
                        ) by {
                            if k < a.statuses.len() {
                                assert(next.statuses[k] == a.statuses[k]);
                                lemma_served_later(a.diff, next.diff, a.statuses[k]);
                            }
                        }
                        lemma_align_served(rest, next, branches, i + 1);
                    },
                    Flow::Stop(_) => {},
                }
            },
            Flow::Stop(_) => {},
        }
    }
}

pub proof fn lemma_files_keep_paths(
    s: Seq<ReplyModel>,
    c: BranchClaimModel,
    times: Seq<FileTimeModel>,
    owned: Seq<FileOwnershipModel>,
    i: int,
)
    requires
        0 <= i <= owned.len(),
    ensures
        claim_files_flow(s, c, times, owned, i) matches Flow::Done(r, _) ==> (distinct_paths(c.diff)
            ==> distinct_paths(r.0.diff)),
    decreases owned.len() - i,
{
    if i < owned.len() {
        lemma_place_of(c.diff, owned[i].file_path);
        if place_of(c.diff, owned[i].file_path) >= c.diff.len() {
            lemma_files_keep_paths(s, c, times, owned, i + 1);
        } else {
            match get_mtime_flow(s, times, false, owned[i].file_path) {
                Flow::Done(m, rest) => {
                    let next = claim_file(c, owned[i], m.0);
                    assert(forall|k: int|
                        0 <= k < c.diff.len() ==> (#[trigger] next.diff[k]).path == c.diff[k].path);
                    lemma_files_keep_paths(rest, next, m.1, owned, i + 1);
                },
                Flow::Stop(_) => {},
            }
        }
    }
}

/// How the first branch stands while it gets the hunks of a file: it owns what it has got, and what
/// is still to come of the file is none of that.
spec fn giving(status: BranchStatusModel, file: FileDiffModel, i: int) -> bool {
    &&& owns_all(status.files, status.branch.ownership)
    &&& one_entry_each(status.branch.ownership)
    &&& none_full(status.branch.ownership)
    &&& apart_from(file.hunks.skip(i), hunks_at(status.files, file.path))
}

proof fn lemma_give_hunks_owns(
    s: Seq<ReplyModel>,
    status: BranchStatusModel,
    times: Seq<FileTimeModel>,
    file: FileDiffModel,
    i: int,
)
    requires
        0 <= i <= file.hunks.len(),
        all_apart(file.hunks),
        giving(status, file, i),
    ensures
        give_hunks_flow(s, status, times, file, i) matches Flow::Done(r, _) ==> {
            &&& owns_all(r.0.files, r.0.branch.ownership)
            &&& one_entry_each(r.0.branch.ownership)
            &&& none_full(r.0.branch.ownership)
            &&& forall|path: Seq<char>|
                path != file.path ==> #[trigger] hunks_at(r.0.files, path) == hunks_at(
                    status.files,
                    path,
                )
        },
    decreases file.hunks.len() - i,
{
    if i < file.hunks.len() {
        match get_mtime_flow(s, times, false, file.path) {
            Flow::Done(m, rest) => {
                let path = file.path;
                let hunk = file.hunks[i];
                let next = give_hunk(status, path, hunk, m.0);
                let before = hunks_at(status.files, path);
                let after = before.push(hunk);
                let owned = status.branch.ownership;
                let claim = FileOwnershipModel {
                    file_path: path,
                    hunks: seq![
                        hunk.to_own().with_timestamp(m.0).with_hash(diff_hash_of(hunk.diff)),
                    ],
                };
                assert(file.hunks.skip(i)[0] == hunk);
                assert forall|p: Seq<char>, j: int| 0 <= j < hunks_at(next.files, p).len() implies {
                    let d = #[trigger] hunks_at(next.files, p)[j];
                    if p == path {
                        d == hunk || (owns_in(owned, p, d) && apart(d, hunk))
                    } else {
                        owns_in(owned, p, d)
                    }
                } by {
                    lemma_hunks_at_with_hunks(status.files, path, after, p);
                    if p == path {
                        if j < before.len() {
                            assert(owns_in(owned, p, hunks_at(status.files, p)[j]));
                            assert(apart(file.hunks.skip(i)[0], before[j]));
                        }
                    } else {
                        assert(owns_in(owned, p, hunks_at(status.files, p)[j]));
                    }
                }
                lemma_put_owns(next.files, owned, claim, hunk);
                lemma_hunks_at_with_hunks(status.files, path, after, path);
                let coming = file.hunks.skip(i + 1);
                assert forall|a: int, b: int|
                    0 <= a < coming.len() && 0 <= b < after.len() implies apart(
                    #[trigger] coming[a],
                    #[trigger] after[b],
                ) by {
                    assert(coming[a] == file.hunks[i + 1 + a]);
                    if b < before.len() {
                        assert(coming[a] == file.hunks.skip(i)[a + 1]);
                        assert(apart(file.hunks.skip(i)[a + 1], before[b]));
                    } else {
                        assert(apart(file.hunks[i], file.hunks[i + 1 + a]));
                    }
                }
                lemma_give_hunks_owns(rest, next, m.1, file, i + 1);
                match give_hunks_flow(rest, next, m.1, file, i + 1) {
                    Flow::Done(r, _) => {
                        assert forall|p: Seq<char>| p != path implies #[trigger] hunks_at(
                            r.0.files,
                            p,
                        ) == hunks_at(status.files, p) by {
                            lemma_hunks_at_with_hunks(status.files, path, after, p);
                        }
                    },
                    Flow::Stop(_) => {},
                }
            },
            Flow::Stop(_) => {},
        }
    }
}

proof fn lemma_give_files_owns(
    s: Seq<ReplyModel>,
    status: BranchStatusModel,
    times: Seq<FileTimeModel>,
    diff: Seq<FileDiffModel>,
    i: int,
)
    requires
        0 <= i <= diff.len(),
        distinct_paths(diff),
        forall|k: int| 0 <= k < diff.len() ==> all_apart((#[trigger] diff[k]).hunks),
        owns_all(status.files, status.branch.ownership),
        one_entry_each(status.branch.ownership),
        none_full(status.branch.ownership),
        forall|k: int|
            i <= k < diff.len() ==> apart_from(
                (#[trigger] diff[k]).hunks,
                hunks_at(status.files, diff[k].path),
            ),
    ensures
        give_files_flow(s, status, times, diff, i) matches Flow::Done(r, _) ==> owns_all(
            r.0.files,
            r.0.branch.ownership,
        ),
    decreases diff.len() - i,
{
    if i < diff.len() {
        assert(diff[i].hunks.skip(0) =~= diff[i].hunks);
        lemma_give_hunks_owns(s, status, times, diff[i], 0);
        match give_hunks_flow(s, status, times, diff[i], 0) {
            Flow::Done(g, rest) => {
                assert forall|k: int| i + 1 <= k < diff.len() implies apart_from(
                    (#[trigger] diff[k]).hunks,
                    hunks_at(g.0.files, diff[k].path),
                ) by {
                    assert(diff[i].path != diff[k].path);
                }
                lemma_give_files_owns(rest, g.0, g.1, diff, i + 1);
            },
            Flow::Stop(_) => {},
        }
    }
}

proof fn lemma_plain_diff(files: Seq<FileDiffModel>, path: Seq<char>)
    requires
        is_plain_diff(files),
    ensures
        all_apart(hunks_at(files, path)),
{
    lemma_place_of(files, path);
}

proof fn lemma_hunks_at_own_place(files: Seq<FileDiffModel>, k: int)
    requires
        distinct_paths(files),
        0 <= k < files.len(),
    ensures
        hunks_at(files, files[k].path) == files[k].hunks,
{
    let at = place_of(files, files[k].path);
    lemma_place_of(files, files[k].path);
    if at < k {
        assert(files[at].path != files[k].path);
    }
}

/// Once the hunks are shared out, every branch owns every hunk that it has got, provided that the
/// hunks of each file are different ranges of lines and that no file comes twice, neither in the
/// diff nor in what a branch owns.
pub proof fn every_hunk_is_owned(
    s: Seq<ReplyModel>,
    diff: Seq<FileDiffModel>,
    branches: Seq<BranchModel>,
)
    requires
        is_plain_diff(diff),
        plain_ownership(branches),
    ensures
        share_out_flow(s, diff, branches) matches Flow::Done(statuses, _) ==> forall|k: int|
            0 <= k < statuses.len() ==> owns_all(
                (#[trigger] statuses[k]).files,
                statuses[k].branch.ownership,
            ),
{
    let start = AlignmentModel { statuses: seq![], diff, times: seq![] };
    assert forall|p: Seq<char>| all_apart(#[trigger] hunks_at(diff, p)) by {
        lemma_plain_diff(diff, p);
    }
    lemma_align_served(s, start, branches, 0);
    match align_flow(s, start, branches, 0) {
        Flow::Done(a, rest) => {
            if a.statuses.len() > 0 {
                let first = a.statuses[0];
                assert(served(a.diff, first));
                assert forall|k: int| 0 <= k < a.diff.len() implies all_apart(
                    (#[trigger] a.diff[k]).hunks,
                ) && apart_from(a.diff[k].hunks, hunks_at(first.files, a.diff[k].path)) by {
                    lemma_hunks_at_own_place(a.diff, k);
                    assert(all_apart(hunks_at(a.diff, a.diff[k].path)));
                }
                lemma_give_files_owns(rest, first, a.times, a.diff, 0);
                match give_files_flow(rest, first, a.times, a.diff, 0) {
                    Flow::Done(g, _) => {
                        let statuses = a.statuses.update(0, g.0);
                        assert forall|k: int| 0 <= k < statuses.len() implies owns_all(
                            (#[trigger] statuses[k]).files,
                            statuses[k].branch.ownership,
                        ) by {
                            if k > 0 {
                                assert(served(a.diff, a.statuses[k]));
                            }
                        }
                    },
                    Flow::Stop(_) => {},
                }
            }
        },
        Flow::Stop(_) => {},
    }
}

} // verus!
