//! What is owned, and what is selected by it.

use crate::apply::{strip_each_flow, strip_flow};
use crate::branch::BranchModel;
use crate::claims::hunks_at;
use crate::commit::{to_amend, to_commit};
use crate::conflicts::{paths_from, paths_of};
use crate::dialogue::{after, comes_to, goes_through, lemma_goes_on, lemma_told, Step};
use crate::diff::{any_lists, lists, owns_lines, select, DiffHunkModel, FileDiffModel};
use crate::digest::diff_hash_of;
use crate::ownership::{
    covers, covers_file, holds, minus_hunks, position_of, put_each, put_into, same_ownership,
    take_from, FileOwnershipModel, HunkModel,
};
use crate::protocol::{BranchErrorModel, ConflictModel, Flow, ReplyModel, RequestModel};
use crate::session::{applied_only, unapplied_only};
use crate::sharing::{all_hunks, lemma_hunks_at_with_hunks, selecting_keeps_what_is_wanted};
use crate::status::{give_hunk, BranchStatusModel};
use crate::unapplying::parts_from;
use vstd::prelude::*;
use vstd::utf8::{decode_utf8, valid_utf8};

verus! {

/// Two hunks are the same just where they have the same lines and are not told apart by their
/// hashes: one without a hash is the same as any of its lines.
pub proof fn hunks_are_told_apart_by_lines_and_hashes(one: HunkModel, other: HunkModel)
    ensures
        one.same(other) <==> other.same(one),
        one.start != other.start || one.end != other.end ==> !one.same(other),
        one.start == other.start && one.end == other.end && (one.hash is None || other.hash is None)
            ==> one.same(other),
        one.start == other.start && one.end == other.end && one.hash is Some && other.hash is Some
            ==> (one.same(other) <==> one.hash->0 == other.hash->0),
{
}

/// Whether an entry is the first one of a file.
pub open spec fn is_first_of(files: Seq<FileOwnershipModel>, path: Seq<char>, k: int) -> bool {
    &&& 0 <= k < files.len()
    &&& files[k].file_path == path
    &&& forall|j: int| 0 <= j < k ==> (#[trigger] files[j]).file_path != path
}

proof fn lemma_first_of(files: Seq<FileOwnershipModel>, path: Seq<char>, k: int)
    requires
        is_first_of(files, path, k),
    ensures
        position_of(files, path) == k,
    decreases files.len(),
{
    if k > 0 {
        assert(files[0].file_path != path);
        let rest = files.drop_first();
        assert forall|j: int| 0 <= j < k - 1 implies (#[trigger] rest[j]).file_path != path by {
            assert(files[j + 1].file_path != path);
        }
        lemma_first_of(rest, path, k - 1);
    }
}

proof fn lemma_none_of(files: Seq<FileOwnershipModel>, path: Seq<char>)
    requires
        forall|j: int| 0 <= j < files.len() ==> (#[trigger] files[j]).file_path != path,
    ensures
        position_of(files, path) == files.len(),
    decreases files.len(),
{
    if files.len() > 0 {
        assert(files[0].file_path != path);
        let rest = files.drop_first();
        assert forall|j: int| 0 <= j < rest.len() implies
            (#[trigger] rest[j]).file_path != path by {
            assert(files[j + 1].file_path != path);
        }
        lemma_none_of(rest, path);
    }
}

/// What is put of a file that was not owned comes first, and is owned just as it was put. The other
/// files stay as they are.
pub proof fn a_new_file_is_owned_as_it_is_put(
    files: Seq<FileOwnershipModel>,
    claim: FileOwnershipModel,
)
    requires
        forall|j: int| 0 <= j < files.len() ==> (#[trigger] files[j]).file_path != claim.file_path,
    ensures
        put_into(files, claim) == seq![claim] + files,
{
    lemma_none_of(files, claim.file_path);
    lemma_filter_all(files, claim.file_path);
}

proof fn lemma_filter_all(files: Seq<FileOwnershipModel>, path: Seq<char>)
    requires
        forall|j: int| 0 <= j < files.len() ==> (#[trigger] files[j]).file_path != path,
    ensures
        files.filter(|f: FileOwnershipModel| f.file_path != path) == files,
    decreases files.len(),
{
    reveal(Seq::filter);
    if files.len() > 0 {
        assert(files[files.len() - 1].file_path != path);
        let rest = files.drop_last();
        assert forall|j: int| 0 <= j < rest.len() implies
            (#[trigger] rest[j]).file_path != path by {
            assert(files[j].file_path != path);
        }
        lemma_filter_all(rest, path);
        assert(rest.push(files.last()) =~= files);
    } else {
        assert(files.filter(|f: FileOwnershipModel| f.file_path != path) =~= files);
    }
}

/// Putting loses nothing and adds nothing but what is put: of a file that was owned, every hunk that
/// was owned is still owned, every hunk that is put is owned, the last of them foremost, and there is
/// no other. A file that is owned as a whole, or put as a whole, is owned as a whole.
pub proof fn putting_loses_nothing(
    files: Seq<FileOwnershipModel>,
    claim: FileOwnershipModel,
    k: int,
)
    requires
        is_first_of(files, claim.file_path, k),
    ensures
        ({
            let r = put_into(files, claim);
            let before = files[k].hunks;
            let hunks = r[0].hunks;
            &&& r.len() > 0
            &&& r[0].file_path == claim.file_path
            &&& r.drop_first() == files.filter(
                |f: FileOwnershipModel| f.file_path != claim.file_path,
            )
            &&& before.len() == 0 || claim.hunks.len() == 0 ==> hunks.len() == 0
            &&& before.len() > 0 && claim.hunks.len() > 0 ==> {
                &&& hunks[0] == claim.hunks.last()
                &&& forall|h: HunkModel| before.contains(h) ==> #[trigger] holds(hunks, h)
                &&& forall|h: HunkModel| claim.hunks.contains(h) ==> #[trigger] hunks.contains(h)
                &&& forall|h: HunkModel| #[trigger]
                    hunks.contains(h) ==> before.contains(h) || claim.hunks.contains(h)
            }
        }),
{
    let r = put_into(files, claim);
    let before = files[k].hunks;
    let hunks = r[0].hunks;
    lemma_first_of(files, claim.file_path, k);
    assert(r.drop_first() =~= files.filter(
        |f: FileOwnershipModel| f.file_path != claim.file_path,
    ));
    if before.len() > 0 && claim.hunks.len() > 0 {
        let put = claim.hunks.reverse();
        let other = |h: HunkModel| !holds(claim.hunks, h);
        let kept = before.filter(other);
        assert(hunks == put + kept);
        assert(put[0] == claim.hunks.last());
        assert forall|h: HunkModel| claim.hunks.contains(h) implies
            #[trigger] hunks.contains(h) by {
            let i = choose|i: int| 0 <= i < claim.hunks.len() && claim.hunks[i] == h;
            assert(put[claim.hunks.len() - 1 - i] == h);
            assert(hunks[claim.hunks.len() - 1 - i] == h);
        }
        assert forall|h: HunkModel| before.contains(h) implies #[trigger] holds(hunks, h) by {
            if holds(claim.hunks, h) {
                let i = choose|i: int|
                    0 <= i < claim.hunks.len() && (#[trigger] claim.hunks[i]).same(h);
                assert(hunks[claim.hunks.len() - 1 - i].same(h));
            } else {
                let i = choose|i: int| 0 <= i < before.len() && before[i] == h;
                before.lemma_filter_contains(other, i);
                let j = choose|j: int| 0 <= j < kept.len() && kept[j] == h;
                assert(hunks[put.len() + j] == h);
                assert(hunks[put.len() + j].same(h));
            }
        }
        assert forall|h: HunkModel| #[trigger] hunks.contains(h) implies before.contains(h)
            || claim.hunks.contains(h) by {
            let i = choose|i: int| 0 <= i < hunks.len() && hunks[i] == h;
            if i < put.len() {
                assert(claim.hunks[claim.hunks.len() - 1 - i] == h);
            } else {
                assert(kept[i - put.len()] == h);
                assert(kept.contains(h));
                before.lemma_filter_contains_rev(other, h);
            }
        }
    }
}

proof fn lemma_taken(hunks: Seq<HunkModel>, ranges: Seq<HunkModel>, h: HunkModel)
    requires
        minus_hunks(hunks, ranges).0.contains(h),
    ensures
        exists|r: int| 0 <= r < ranges.len() && h.same(#[trigger] ranges[r]),
    decreases ranges.len(),
{
    if ranges.len() > 0 {
        let (taken, left) = minus_hunks(hunks, ranges.drop_last());
        let range = ranges.last();
        let same = |h: HunkModel| h.same(range);
        let now = left.filter(same);
        let all = taken + now;
        let i = choose|i: int| 0 <= i < all.len() && all[i] == h;
        if i < taken.len() {
            assert(taken.contains(h));
            lemma_taken(hunks, ranges.drop_last(), h);
            let r = choose|r: int|
                0 <= r < ranges.len() - 1 && h.same(#[trigger] ranges.drop_last()[r]);
            assert(h.same(ranges[r]));
        } else {
            assert(now[i - taken.len()] == h);
            assert(now.contains(h));
            left.lemma_filter_contains_rev(same, h);
            assert(h.same(ranges[ranges.len() - 1]));
        }
    }
}

/// Only what is claimed is taken: what is taken is of the file of the claim, and where single hunks
/// are claimed, each hunk that is taken is the same as one of these. What is owned of other files
/// stays as it is, and so does a file that is owned as a whole when single hunks of it are claimed.
/// Where the whole file is claimed, everything that is owned of it is taken.
pub proof fn only_what_is_claimed_is_taken(
    files: Seq<FileOwnershipModel>,
    claim: FileOwnershipModel,
)
    ensures
        ({
            let (taken, left) = take_from(files, claim);
            &&& forall|t: int|
                0 <= t < taken.len() ==> (#[trigger] taken[t]).file_path == claim.file_path
            &&& claim.hunks.len() > 0 ==> forall|t: int, h: int|
                #![trigger taken[t].hunks[h]]
                0 <= t < taken.len() && 0 <= h < taken[t].hunks.len() ==> exists|r: int|
                    0 <= r < claim.hunks.len() && taken[t].hunks[h].same(#[trigger] claim.hunks[r])
            &&& forall|k: int|
                0 <= k < files.len() && ((#[trigger] files[k]).file_path != claim.file_path || (
                files[k].hunks.len() == 0 && claim.hunks.len() > 0)) ==> left.contains(files[k])
            &&& claim.hunks.len() == 0 ==> forall|k: int|
                0 <= k < files.len() && (#[trigger] files[k]).file_path == claim.file_path
                    ==> taken.contains(files[k])
        }),
    decreases files.len(),
{
    if files.len() > 0 {
        let rest = files.drop_last();
        let last = files.last();
        only_what_is_claimed_is_taken(rest, claim);
        let (before, kept) = take_from(rest, claim);
        let (taken, left) = take_from(files, claim);
        let (t_last, l_last) = last.minus(claim);
        assert forall|t: int| 0 <= t < taken.len() implies (#[trigger] taken[t]).file_path
            == claim.file_path by {
            if t < before.len() {
                assert(taken[t] == before[t]);
            }
        }
        if claim.hunks.len() > 0 {
            assert forall|t: int, h: int|
                #![trigger taken[t].hunks[h]]
                0 <= t < taken.len() && 0 <= h < taken[t].hunks.len() implies exists|r: int|
                0 <= r < claim.hunks.len() && taken[t].hunks[h].same(#[trigger] claim.hunks[r]) by {
                if t < before.len() {
                    assert(taken[t] == before[t]);
                    let hunk = before[t].hunks[h];
                } else {
                    let hunk = taken[t].hunks[h];
                    assert(taken[t].hunks.contains(hunk));
                    lemma_taken(last.hunks, claim.hunks, hunk);
                }
            }
        }
        assert forall|k: int|
            0 <= k < files.len() && ((#[trigger] files[k]).file_path != claim.file_path || (
            files[k].hunks.len() == 0 && claim.hunks.len() > 0)) implies
                left.contains(files[k]) by {
            if k < rest.len() {
                assert(rest[k] == files[k]);
                let j = choose|j: int| 0 <= j < kept.len() && kept[j] == files[k];
                assert(left[j] == files[k]);
            } else {
                assert(left[left.len() - 1] == last);
            }
        }
        if claim.hunks.len() == 0 {
            assert forall|k: int|
                0 <= k < files.len() && (#[trigger] files[k]).file_path
                    == claim.file_path implies taken.contains(files[k]) by {
                if k < rest.len() {
                    assert(rest[k] == files[k]);
                    let j = choose|j: int| 0 <= j < before.len() && before[j] == files[k];
                    assert(taken[j] == files[k]);
                } else {
                    assert(taken[taken.len() - 1] == last);
                }
            }
        }
    }
}

/// Claims are put one after the other.
pub proof fn claims_are_put_in_turn(
    files: Seq<FileOwnershipModel>,
    claims: Seq<FileOwnershipModel>,
    last: FileOwnershipModel,
)
    ensures
        put_each(files, seq![]) == files,
        put_each(files, claims.push(last)) == put_into(put_each(files, claims), last),
{
    assert(claims.push(last).drop_last() =~= claims);
}

/// Two ownerships are the same just where they have the same files in the same order, and of each the
/// same hunks in the same order.
pub proof fn ownerships_are_the_same_file_by_file(
    files: Seq<FileOwnershipModel>,
    others: Seq<FileOwnershipModel>,
)
    ensures
        same_ownership(files, others) ==> files.len() == others.len() && forall|i: int|
            0 <= i < files.len() ==> (#[trigger] files[i]).file_path == others[i].file_path
                && files[i].hunks.len() == others[i].hunks.len(),
        same_ownership(files, others) ==> forall|i: int, h: int|
            #![trigger files[i].hunks[h]]
            0 <= i < files.len() && 0 <= h < files[i].hunks.len() ==> files[i].hunks[h].same(
                others[i].hunks[h],
            ),
        files == others ==> same_ownership(files, others),
        !same_ownership(files, others) ==> files.len() != others.len() || exists|i: int|
            0 <= i < files.len() && !is_same_entry(#[trigger] files[i], others[i]),
{
    if !same_ownership(files, others) && files.len() == others.len() {
        let i = choose|i: int| 0 <= i < files.len() && !(#[trigger] files[i]).same(others[i]);
        assert(!is_same_entry(files[i], others[i]));
    }
}

/// Whether two entries are of the same file and have the same hunks in the same order.
pub open spec fn is_same_entry(one: FileOwnershipModel, other: FileOwnershipModel) -> bool {
    &&& one.file_path == other.file_path
    &&& one.hunks.len() == other.hunks.len()
    &&& forall|h: int| 0 <= h < one.hunks.len() ==> (#[trigger] one.hunks[h]).same(other.hunks[h])
}

/// Whether an entry owns what another does: it is of the same file, and it is of the whole file or
/// holds every hunk of the other. A whole file is owned by a whole file only.
pub open spec fn owns_of(mine: FileOwnershipModel, other: FileOwnershipModel) -> bool {
    &&& mine.file_path == other.file_path
    &&& mine.hunks.len() == 0 || (other.hunks.len() > 0 && forall|h: int|
        0 <= h < other.hunks.len() ==> holds(mine.hunks, #[trigger] other.hunks[h]))
}

/// Whether one of some entries owns what another does.
pub open spec fn one_owns(files: Seq<FileOwnershipModel>, other: FileOwnershipModel) -> bool {
    exists|k: int| 0 <= k < files.len() && owns_of(#[trigger] files[k], other)
}

/// Some ownership covers another just where each entry of the other is owned by one of its own.
pub proof fn what_is_covered_is_owned(
    files: Seq<FileOwnershipModel>,
    others: Seq<FileOwnershipModel>,
)
    ensures
        covers(files, others) <==> forall|i: int|
            0 <= i < others.len() ==> one_owns(files, #[trigger] others[i]),
{
    assert forall|other: FileOwnershipModel| #[trigger]
        covers_file(files, other) == one_owns(files, other) by {
        if covers_file(files, other) {
            let k = choose|k: int| 0 <= k < files.len() && (#[trigger] files[k]).contains(other);
            assert(owns_of(files[k], other));
        }
        if one_owns(files, other) {
            let k = choose|k: int| 0 <= k < files.len() && owns_of(#[trigger] files[k], other);
            assert(files[k].contains(other));
        }
    }
    if covers(files, others) {
        assert forall|i: int| 0 <= i < others.len() implies
            one_owns(files, #[trigger] others[i]) by {
            assert(covers_file(files, others[i]));
        }
    }
    if forall|i: int| 0 <= i < others.len() ==> one_owns(files, #[trigger] others[i]) {
        assert forall|i: int| 0 <= i < others.len() implies covers_file(
            files,
            #[trigger] others[i],
        ) by {
            assert(one_owns(files, others[i]));
        }
    }
}

/// Whether a hunk of a diff has the lines of one of some ranges.
pub open spec fn has_range_of(ranges: Seq<HunkModel>, hunk: DiffHunkModel) -> bool {
    exists|r: int|
        0 <= r < ranges.len() && (#[trigger] ranges[r]).start == hunk.new_start && ranges[r].end
            == hunk.new_start + hunk.new_lines
}

/// Whether a hunk of a file is asked for: it has the lines of one of the ranges of the first entry
/// of the file.
pub open spec fn is_asked_for(
    ownership: Seq<FileOwnershipModel>,
    path: Seq<char>,
    hunk: DiffHunkModel,
) -> bool {
    exists|k: int|
        #[trigger] is_first_of(ownership, path, k) && has_range_of(ownership[k].hunks, hunk)
}

/// A commit takes all hunks, or just those that are asked for.
pub proof fn only_what_is_asked_for_goes_into_a_commit(
    files: Seq<FileDiffModel>,
    ownership: Seq<FileOwnershipModel>,
    path: Seq<char>,
    hunk: DiffHunkModel,
)
    ensures
        to_commit(files, None) == files,
        is_asked_for(ownership, path, hunk) ==> all_hunks(
            to_commit(files, Some(ownership)),
        ).count((path, hunk)) == all_hunks(files).count((path, hunk)),
        !is_asked_for(ownership, path, hunk) ==> all_hunks(
            to_commit(files, Some(ownership)),
        ).count((path, hunk)) == 0,
{
    selecting_keeps_what_is_wanted(
        files,
        |path: Seq<char>, h: DiffHunkModel| owns_lines(ownership, path, h),
        path,
        hunk,
    );
    lemma_asked_for(ownership, path, hunk);
}

proof fn lemma_asked_for(
    ownership: Seq<FileOwnershipModel>,
    path: Seq<char>,
    hunk: DiffHunkModel,
)
    ensures
        owns_lines(ownership, path, hunk) == is_asked_for(ownership, path, hunk),
{
    assert forall|k: int| #[trigger] is_first_of(ownership, path, k) implies position_of(
        ownership,
        path,
    ) == k by {
        lemma_first_of(ownership, path, k);
    }
    lemma_position(ownership, path);
    let at = position_of(ownership, path);
    if at < ownership.len() {
        assert(is_first_of(ownership, path, at));
        assert(lists(ownership[at].hunks, hunk) == has_range_of(ownership[at].hunks, hunk));
    }
}

proof fn lemma_position(files: Seq<FileOwnershipModel>, path: Seq<char>)
    ensures
        0 <= position_of(files, path) <= files.len(),
        position_of(files, path) < files.len() ==> is_first_of(
            files,
            path,
            position_of(files, path),
        ),
    decreases files.len(),
{
    if files.len() > 0 && files[0].file_path != path {
        let rest = files.drop_first();
        lemma_position(rest, path);
        let at = position_of(files, path);
        if at < files.len() {
            assert forall|j: int| 0 <= j < at implies (#[trigger] files[j]).file_path != path by {
                if j > 0 {
                    assert(rest[j - 1].file_path != path);
                }
            }
        }
    }
}

/// Amending takes of each file just those hunks whose lines are asked for of it, where no file is
/// asked for twice.
pub proof fn only_what_is_asked_for_is_amended(
    files: Seq<FileDiffModel>,
    ownership: Seq<FileOwnershipModel>,
    path: Seq<char>,
    k: int,
)
    requires
        forall|i: int, j: int|
            0 <= i < j < ownership.len() ==> (#[trigger] ownership[i]).file_path != (
            #[trigger] ownership[j]).file_path,
    ensures
        0 <= k < ownership.len() && ownership[k].file_path == path ==> hunks_at(
            to_amend(files, ownership),
            path,
        ) == hunks_at(files, path).filter(
            |h: DiffHunkModel| has_range_of(ownership[k].hunks, h),
        ),
        (forall|i: int| 0 <= i < ownership.len() ==> (#[trigger] ownership[i]).file_path != path)
            ==> hunks_at(to_amend(files, ownership), path).len() == 0,
    decreases ownership.len(),
{
    if ownership.len() > 0 {
        let before = ownership.drop_last();
        let wanted = ownership.last();
        let n = ownership.len() - 1;
        assert forall|i: int, j: int| 0 <= i < j < before.len() implies (
        #[trigger] before[i]).file_path != (#[trigger] before[j]).file_path by {
            assert(ownership[i].file_path != ownership[j].file_path);
        }
        only_what_is_asked_for_is_amended(files, before, path, k);
        let by_lists = |h: DiffHunkModel| lists(wanted.hunks, h);
        let by_range = |h: DiffHunkModel| has_range_of(wanted.hunks, h);
        assert forall|h: DiffHunkModel| #[trigger] by_lists(h) == by_range(h) by {
            assert(lists(wanted.hunks, h) == has_range_of(wanted.hunks, h));
        }
        assert(by_lists =~= by_range);
        let hunks = hunks_at(files, wanted.file_path).filter(by_lists);
        lemma_hunks_at_with_hunks(to_amend(files, before), wanted.file_path, hunks, path);
        if 0 <= k < n {
            assert(ownership[k].file_path != ownership[n].file_path);
            assert(before[k] == ownership[k]);
        }
        if k == n && wanted.file_path == path {
            assert forall|i: int| 0 <= i < before.len() implies (#[trigger] before[i]).file_path
                != path by {
                assert(ownership[i].file_path != ownership[n].file_path);
            }
            assert(ownership[k].hunks == wanted.hunks);
            if hunks.len() == 0 {
                assert(hunks_at(to_amend(files, before), path) =~= hunks);
            }
        }
        if forall|i: int| 0 <= i < ownership.len() ==> (#[trigger] ownership[i]).file_path != path {
            assert(ownership[n].file_path != path);
            assert forall|i: int| 0 <= i < before.len() implies (#[trigger] before[i]).file_path
                != path by {
                assert(ownership[i].file_path != path);
            }
        }
    }
}

/// A claim that takes something from a branch leaves it with what is left of its ownership, and
/// without the hunks whose lines are among the taken ones. The branch is stored so. A claim that takes
/// nothing stores nothing and takes no hunk away.
pub proof fn a_branch_is_stored_when_it_loses_something(
    status: BranchStatusModel,
    claim: FileOwnershipModel,
    claims: Seq<FileOwnershipModel>,
    i: int,
)
    requires
        0 <= i < claims.len(),
        claims[i] == claim,
    ensures
        ({
            let (taken, left) = take_from(status.branch.ownership, claim);
            let branch = BranchModel { ownership: left, ..status.branch };
            if taken.len() > 0 {
                let files = select(
                    status.files,
                    |path: Seq<char>, h: DiffHunkModel| !any_lists(taken, path, h),
                );
                &&& goes_through(
                    |s: Seq<ReplyModel>| strip_flow(s, status, claims, i),
                    seq![Step::Ask(RequestModel::WriteBranch(branch), ReplyModel::Unit)],
                )
                &&& forall|s: Seq<ReplyModel>| #[trigger]
                    strip_flow(
                        after(seq![Step::Ask(RequestModel::WriteBranch(branch), ReplyModel::Unit)], s),
                        status,
                        claims,
                        i,
                    ) == strip_flow(s, BranchStatusModel { branch, files }, claims, i + 1)
            } else {
                forall|s: Seq<ReplyModel>| #[trigger]
                    strip_flow(s, status, claims, i) == strip_flow(
                        s,
                        BranchStatusModel { branch, files: status.files },
                        claims,
                        i + 1,
                    )
            }
        }),
        forall|s: Seq<ReplyModel>| #[trigger]
            strip_flow(s, status, claims, claims.len() as int) == Flow::Done(status, s),
{
    broadcast use lemma_told;

    reveal_with_fuel(after, 2);
    reveal_with_fuel(goes_through, 2);
}

/// Whether some replies to taking claims from a branch bring that to its end.
pub open spec fn strips(
    replies: Seq<ReplyModel>,
    status: BranchStatusModel,
    claims: Seq<FileOwnershipModel>,
    left: BranchStatusModel,
) -> bool {
    forall|more: Seq<ReplyModel>| #[trigger]
        strip_flow(replies + more, status, claims, 0) == Flow::Done(left, more)
}

proof fn lemma_strip_each(
    statuses: Seq<BranchStatusModel>,
    claims: Seq<FileOwnershipModel>,
    parts: Seq<Seq<ReplyModel>>,
    left: Seq<BranchStatusModel>,
    i: int,
)
    requires
        0 <= i <= statuses.len(),
        parts.len() == statuses.len(),
        left.len() == statuses.len(),
        forall|k: int|
            0 <= k < statuses.len() ==> strips(
                parts[k],
                #[trigger] statuses[k],
                claims,
                left[k],
            ),
    ensures
        comes_to(
            |s: Seq<ReplyModel>| strip_each_flow(s, left.take(i) + statuses.skip(i), claims, i),
            parts_from(parts, i),
            left,
        ),
    decreases statuses.len() - i,
{
    let now = left.take(i) + statuses.skip(i);
    if i < statuses.len() {
        let next = left.take(i + 1) + statuses.skip(i + 1);
        assert(strips(parts[i], statuses[i], claims, left[i]));
        assert(now[i] == statuses[i]);
        assert(now.update(i, left[i]) =~= next);
        lemma_strip_each(statuses, claims, parts, left, i + 1);
        reveal_with_fuel(after, 2);
        reveal_with_fuel(goes_through, 2);
        lemma_goes_on(
            |s: Seq<ReplyModel>| strip_each_flow(s, now, claims, i),
            |s: Seq<ReplyModel>| strip_each_flow(s, next, claims, i + 1),
            seq![Step::Part(parts[i])],
            parts_from(parts, i + 1),
        );
    } else {
        assert(now =~= left);
    }
}

/// The claims are taken from every branch, one after the other.
pub proof fn claims_are_taken_from_every_branch(
    statuses: Seq<BranchStatusModel>,
    claims: Seq<FileOwnershipModel>,
    parts: Seq<Seq<ReplyModel>>,
    left: Seq<BranchStatusModel>,
)
    requires
        parts.len() == statuses.len(),
        left.len() == statuses.len(),
        forall|k: int|
            0 <= k < statuses.len() ==> strips(
                parts[k],
                #[trigger] statuses[k],
                claims,
                left[k],
            ),
    ensures
        comes_to(
            |s: Seq<ReplyModel>| strip_each_flow(s, statuses, claims, 0),
            parts_from(parts, 0),
            left,
        ),
{
    lemma_strip_each(statuses, claims, parts, left, 0);
    assert(left.take(0) + statuses.skip(0) =~= statuses);
}

/// The paths that are in conflict are those that our side has a part in, in their order. One that is
/// no text is an error, and a conflict that our side has no part in is passed over.
pub proof fn our_side_of_the_conflicts_counts(conflicts: Seq<ConflictModel>, last: ConflictModel)
    ensures
        paths_of(seq![]) == Ok::<Seq<Seq<char>>, BranchErrorModel>(seq![]),
        paths_of(conflicts) is Err ==> paths_of(conflicts.push(last)) == paths_of(conflicts),
        paths_of(conflicts) is Ok ==> match last {
            ConflictModel::Ours(path) => if valid_utf8(path) {
                paths_of(conflicts.push(last)) == Ok::<Seq<Seq<char>>, BranchErrorModel>(
                    paths_of(conflicts)->Ok_0.push(decode_utf8(path)),
                )
            } else {
                paths_of(conflicts.push(last)) == Err::<Seq<Seq<char>>, BranchErrorModel>(
                    BranchErrorModel::PathNotUtf8,
                )
            },
            _ => paths_of(conflicts.push(last)) == paths_of(conflicts),
        },
{
    lemma_paths_push(conflicts, last, 0, seq![]);
}

proof fn lemma_paths_push(
    conflicts: Seq<ConflictModel>,
    last: ConflictModel,
    i: int,
    paths: Seq<Seq<char>>,
)
    requires
        0 <= i <= conflicts.len(),
    ensures
        ({
            let before = paths_from(conflicts, i, paths);
            let r = paths_from(conflicts.push(last), i, paths);
            &&& before is Err ==> r == before
            &&& before is Ok ==> match last {
                ConflictModel::Ours(path) => if valid_utf8(path) {
                    r == Ok::<Seq<Seq<char>>, BranchErrorModel>(
                        before->Ok_0.push(decode_utf8(path)),
                    )
                } else {
                    r == Err::<Seq<Seq<char>>, BranchErrorModel>(BranchErrorModel::PathNotUtf8)
                },
                _ => r == before,
            }
        }),
    decreases conflicts.len() - i,
{
    let all = conflicts.push(last);
    if i < conflicts.len() {
        assert(all[i] == conflicts[i]);
        match conflicts[i] {
            ConflictModel::Ours(path) => {
                lemma_paths_push(conflicts, last, i + 1, paths.push(decode_utf8(path)));
            },
            _ => {
                lemma_paths_push(conflicts, last, i + 1, paths);
            },
        }
    } else {
        assert(all[i] == last);
        reveal_with_fuel(paths_from, 2);
    }
}

/// A hunk that goes to a branch because nobody owns it is the last of its file that the branch has,
/// and the branch owns its lines foremost, with its hash and with the time of the file. The other
/// files and hunks of the branch stay, and so does everything else of it.
pub proof fn a_hunk_that_is_given_is_owned(
    status: BranchStatusModel,
    path: Seq<char>,
    hunk: DiffHunkModel,
    mtime: u128,
    other: Seq<char>,
)
    requires
        hunk.new_start + hunk.new_lines <= u32::MAX,
    ensures
        ({
            let r = give_hunk(status, path, hunk, mtime);
            let owned = r.branch.ownership;
            let range = HunkModel {
                start: hunk.new_start,
                end: (hunk.new_start + hunk.new_lines) as u32,
                hash: Some(diff_hash_of(hunk.diff)),
                timestamp_ms: Some(mtime),
            };
            &&& r.branch == (BranchModel { ownership: owned, ..status.branch })
            &&& owned.len() > 0
            &&& owned[0].file_path == path
            &&& owned[0].hunks.len() > 0 ==> owned[0].hunks[0] == range
            &&& (forall|j: int|
                0 <= j < status.branch.ownership.len() ==> (
                #[trigger] status.branch.ownership[j]).file_path != path) ==> owned[0].hunks
                == seq![range]
            &&& hunks_at(r.files, path) == hunks_at(status.files, path).push(hunk)
            &&& other != path ==> hunks_at(r.files, other) == hunks_at(status.files, other)
        }),
{
    let files = status.branch.ownership;
    let range = HunkModel {
        start: hunk.new_start,
        end: (hunk.new_start + hunk.new_lines) as u32,
        hash: Some(diff_hash_of(hunk.diff)),
        timestamp_ms: Some(mtime),
    };
    let claim = FileOwnershipModel { file_path: path, hunks: seq![range] };
    let hunks = hunks_at(status.files, path).push(hunk);
    lemma_hunks_at_with_hunks(status.files, path, hunks, path);
    lemma_hunks_at_with_hunks(status.files, path, hunks, other);
    lemma_position(files, path);
    let at = position_of(files, path);
    if at < files.len() {
        putting_loses_nothing(files, claim, at);
        assert(!(forall|j: int| 0 <= j < files.len() ==> (#[trigger] files[j]).file_path != path))
            by {
            assert(files[at].file_path == path);
        }
    } else {
        if forall|j: int| 0 <= j < files.len() ==> (#[trigger] files[j]).file_path != path {
            a_new_file_is_owned_as_it_is_put(files, claim);
        }
    }
}

/// Whether branches are applied is what tells the applied ones from the others, whose order stays.
pub proof fn branches_are_applied_or_not(branches: Seq<BranchModel>)
    ensures
        applied_only(branches) == branches.filter(|b: BranchModel| b.applied),
        unapplied_only(branches) == branches.filter(|b: BranchModel| !b.applied),
{
}

} // verus!
