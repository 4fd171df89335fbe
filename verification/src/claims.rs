//! Matching what a branch owns with the hunks that are there.

use crate::diff::{place_of, DiffHunk, DiffHunkModel, FileDiff, FileDiffModel, find_file};
use crate::ownership::{FileOwnership, FileOwnershipModel, Hunk, HunkModel};
use crate::seqs::{lemma_views_push, views};
use vstd::prelude::*;

verus! {

/// Whether an owned hunk lays claim to a hunk of a diff: it is the same, or has lines in common
/// with it.
pub open spec fn claims(owned: HunkModel, hunk: DiffHunkModel) -> bool {
    owned.same(hunk.to_own()) || owned.intersects(hunk.to_own())
}

/// The position of the first hunk that an owned hunk lays claim to, or the number of hunks where
/// there is none.
pub open spec fn claimed_at(hunks: Seq<DiffHunkModel>, owned: HunkModel) -> int
    decreases hunks.len(),
{
    if hunks.len() == 0 || claims(owned, hunks[0]) {
        0
    } else {
        1 + claimed_at(hunks.drop_first(), owned)
    }
}

pub proof fn lemma_claimed_at(hunks: Seq<DiffHunkModel>, owned: HunkModel)
    ensures
        0 <= claimed_at(hunks, owned) <= hunks.len(),
        claimed_at(hunks, owned) < hunks.len() ==> claims(owned, hunks[claimed_at(hunks, owned)]),
        forall|k: int| 0 <= k < claimed_at(hunks, owned) ==> !claims(owned, #[trigger] hunks[k]),
    decreases hunks.len(),
{
    if hunks.len() > 0 && !claims(owned, hunks[0]) {
        lemma_claimed_at(hunks.drop_first(), owned);
        assert forall|k: int| 0 <= k < claimed_at(hunks, owned) implies !claims(
            owned,
            #[trigger] hunks[k],
        ) by {
            if k > 0 {
                assert(hunks[k] == hunks.drop_first()[k - 1]);
            }
        }
    }
}

/// How far the claims to the hunks of one file have been met.
pub struct FileClaim {
    /// The hunks that are not claimed yet.
    pub left: Vec<DiffHunk>,
    /// The hunks that the branch has got.
    pub listed: Vec<DiffHunk>,
    /// What the branch owns from now on.
    pub kept: Vec<Hunk>,
    /// What of that has changed.
    pub promoted: Vec<Hunk>,
}

/// How far the claims to the hunks of one file have been met.
pub struct FileClaimModel {
    pub left: Seq<DiffHunkModel>,
    pub listed: Seq<DiffHunkModel>,
    pub kept: Seq<HunkModel>,
    pub promoted: Seq<HunkModel>,
}

impl View for FileClaim {
    type V = FileClaimModel;

    open spec fn view(&self) -> FileClaimModel {
        FileClaimModel {
            left: views(self.left@),
            listed: views(self.listed@),
            kept: views(self.kept@),
            promoted: views(self.promoted@),
        }
    }
}

/// The time of an owned hunk, where it has one, or else the time of the file.
pub open spec fn time_to_keep(owned: HunkModel, mtime: u128) -> u128 {
    match owned.timestamp_ms {
        Some(timestamp_ms) => timestamp_ms,
        None => mtime,
    }
}

/// What comes of one owned hunk. It gets the first hunk that it lays claim to, if there is one.
/// A hunk that is the same is listed last, and the owned hunk is kept; one that has changed is
/// listed first, and is owned in its place.
pub open spec fn claim_hunk(c: FileClaimModel, owned: HunkModel, mtime: u128) -> FileClaimModel {
    let at = claimed_at(c.left, owned);
    if at >= c.left.len() {
        c
    } else {
        let hunk = c.left[at];
        if owned.same(hunk.to_own()) {
            FileClaimModel {
                left: c.left.remove(at),
                listed: c.listed.push(hunk),
                kept: c.kept.push(owned.with_timestamp(time_to_keep(owned, mtime))),
                promoted: c.promoted,
            }
        } else {
            FileClaimModel {
                left: c.left.remove(at),
                listed: c.listed.insert(0, hunk),
                kept: c.kept.push(hunk.to_own()),
                promoted: c.promoted.push(hunk.to_own()),
            }
        }
    }
}

/// What comes of some owned hunks, one after the other.
pub open spec fn claim_hunks(c: FileClaimModel, owned: Seq<HunkModel>, mtime: u128) -> FileClaimModel
    decreases owned.len(),
{
    if owned.len() == 0 {
        c
    } else {
        claim_hunk(claim_hunks(c, owned.drop_last(), mtime), owned.last(), mtime)
    }
}

impl FileClaim {
    /// Meets the claim of one owned hunk.
    fn claim_hunk(&mut self, owned: &Hunk, mtime: u128)
        ensures
            final(self)@ == claim_hunk(old(self)@, owned@, mtime),
    {
        let ghost all = self@.left;
        let mut at: usize = 0;
        let mut same: bool = false;
        let mut found: bool = false;
        assert(all.skip(0) =~= all);
        while at < self.left.len() && !found
            invariant
                *self == *old(self),
                all == self@.left,
                at <= self.left@.len(),
                !found ==> claimed_at(all, owned@) == at + claimed_at(all.skip(at as int), owned@),
                found ==> at < self.left@.len() && claimed_at(all, owned@) == at && same
                    == owned@.same(all[at as int].to_own()),
            decreases self.left@.len() - at, !found as int,
        {
            let current: Hunk = self.left[at].to_own();
            assert(all.skip(at as int)[0] == all[at as int]);
            assert(all.skip(at as int).drop_first() =~= all.skip(at + 1));
            same = owned.same(&current);
            if same || owned.intersects(&current) {
                found = true;
            } else {
                at = at + 1;
            }
        }
        if !found {
            return;
        }
        let ghost before = *self;
        let hunk: DiffHunk = self.left.remove(at);
        proof {
            assert(self@.left =~= before@.left.remove(at as int));
            assert(hunk@ == before@.left[at as int]);
        }
        if same {
            let timestamp_ms: u128 = match owned.timestamp_ms {
                Some(timestamp_ms) => timestamp_ms,
                None => mtime,
            };
            self.listed.push(hunk);
            self.kept.push(owned.with_timestamp(timestamp_ms));
            proof {
                lemma_views_push(before.listed@, hunk);
                lemma_views_push(before.kept@, self.kept@.last());
            }
        } else {
            let current: Hunk = hunk.to_own();
            self.listed.insert(0, hunk);
            self.kept.push(current.clone());
            self.promoted.push(current);
            proof {
                assert(self@.listed =~= before@.listed.insert(0, hunk@));
                lemma_views_push(before.kept@, self.kept@.last());
                lemma_views_push(before.promoted@, current);
            }
        }
    }
}

/// Meets the claims of some owned hunks to the hunks of a file.
fn claim_hunks_of(left: Vec<DiffHunk>, listed: Vec<DiffHunk>, owned: &Vec<Hunk>, mtime: u128) -> (r:
    FileClaim)
    ensures
        r@ == claim_hunks(
            (FileClaimModel {
                left: views(left@),
                listed: views(listed@),
                kept: seq![],
                promoted: seq![],
            }),
            views(owned@),
            mtime,
        ),
{
    let mut claim = FileClaim { left, listed, kept: Vec::new(), promoted: Vec::new() };
    let ghost start = claim@;
    let ghost all = views(owned@);
    let mut i: usize = 0;
    proof {
        assert(start.kept =~= seq![]);
        assert(start.promoted =~= seq![]);
        assert(all.take(0) =~= seq![]);
    }
    while i < owned.len()
        invariant
            i <= owned@.len(),
            all == views(owned@),
            claim@ == claim_hunks(start, all.take(i as int), mtime),
        decreases owned@.len() - i,
    {
        assert(all.take(i + 1).drop_last() =~= all.take(i as int));
        claim.claim_hunk(&owned[i], mtime);
        i = i + 1;
    }
    assert(all.take(i as int) =~= all);
    claim
}

/// How far the claims of one branch have been met.
pub struct BranchClaim {
    /// What is not claimed yet.
    pub diff: Vec<FileDiff>,
    /// What the branch has got.
    pub files: Vec<FileDiff>,
    /// What the branch owns from now on.
    pub kept: Vec<FileOwnership>,
    /// What of that has changed, hunk by hunk.
    pub promoted: Vec<FileOwnership>,
}

/// How far the claims of one branch have been met.
pub struct BranchClaimModel {
    pub diff: Seq<FileDiffModel>,
    pub files: Seq<FileDiffModel>,
    pub kept: Seq<FileOwnershipModel>,
    pub promoted: Seq<FileOwnershipModel>,
}

impl View for BranchClaim {
    type V = BranchClaimModel;

    open spec fn view(&self) -> BranchClaimModel {
        BranchClaimModel {
            diff: views(self.diff@),
            files: views(self.files@),
            kept: views(self.kept@),
            promoted: views(self.promoted@),
        }
    }
}

/// The hunks of a file of a diff; none where the file is not in it.
pub open spec fn hunks_at(files: Seq<FileDiffModel>, path: Seq<char>) -> Seq<DiffHunkModel> {
    let at = place_of(files, path);
    if at < files.len() {
        files[at].hunks
    } else {
        seq![]
    }
}

/// A diff in which a file has the given hunks. A file that is not in it comes last, if it has any.
pub open spec fn with_hunks(
    files: Seq<FileDiffModel>,
    path: Seq<char>,
    hunks: Seq<DiffHunkModel>,
) -> Seq<FileDiffModel> {
    let at = place_of(files, path);
    if at < files.len() {
        files.update(at, FileDiffModel { path, hunks })
    } else if hunks.len() == 0 {
        files
    } else {
        files.push(FileDiffModel { path, hunks })
    }
}

/// The hunks of a file, each as an ownership of its own.
pub open spec fn one_by_one(path: Seq<char>, hunks: Seq<HunkModel>) -> Seq<FileOwnershipModel> {
    Seq::new(hunks.len(), |i: int| FileOwnershipModel { file_path: path, hunks: seq![hunks[i]] })
}

/// The claims to the hunks of one file, met.
pub open spec fn file_claim(c: BranchClaimModel, owned: FileOwnershipModel, mtime: u128) -> FileClaimModel {
    claim_hunks(
        FileClaimModel {
            left: hunks_at(c.diff, owned.file_path),
            listed: hunks_at(c.files, owned.file_path),
            kept: seq![],
            promoted: seq![],
        },
        owned.hunks,
        mtime,
    )
}

/// What comes of the ownership of one file that is in the diff. Where none of its hunks is left,
/// the branch no longer owns the file.
pub open spec fn claim_file(c: BranchClaimModel, owned: FileOwnershipModel, mtime: u128) -> BranchClaimModel {
    let path = owned.file_path;
    let claim = file_claim(c, owned, mtime);
    BranchClaimModel {
        diff: with_hunks(c.diff, path, claim.left),
        files: with_hunks(c.files, path, claim.listed),
        kept: if claim.kept.len() == 0 {
            c.kept
        } else {
            c.kept.push(FileOwnershipModel { file_path: path, hunks: claim.kept })
        },
        promoted: c.promoted + one_by_one(path, claim.promoted),
    }
}

/// The hunks of a file of a diff; none where the file is not in it.
pub(crate) fn hunks_of_file(files: &Vec<FileDiff>, path: &String) -> (hunks: Vec<DiffHunk>)
    ensures
        views(hunks@) == hunks_at(views(files@), path@),
{
    let at: usize = find_file(files, path);
    if at < files.len() {
        let hunks = files[at].hunks.clone();
        assert(views(hunks@) =~= views(files@)[at as int].hunks);
        hunks
    } else {
        let hunks: Vec<DiffHunk> = Vec::new();
        assert(views(hunks@) =~= seq![]);
        hunks
    }
}

/// Gives a file of a diff other hunks.
pub(crate) fn put_hunks(files: &mut Vec<FileDiff>, path: &String, hunks: Vec<DiffHunk>)
    ensures
        views(final(files)@) == with_hunks(views(old(files)@), path@, views(hunks@)),
{
    let ghost before = files@;
    let at: usize = find_file(files, path);
    if at < files.len() {
        files.set(at, FileDiff { path: path.clone(), hunks });
        assert(views(files@) =~= views(before).update(
            at as int,
            FileDiffModel { path: path@, hunks: views(hunks@) },
        ));
    } else if hunks.len() > 0 {
        files.push(FileDiff { path: path.clone(), hunks });
        proof {
            lemma_views_push(before, files@.last());
        }
    }
}

impl BranchClaim {
    /// Meets the claims to one file that is in the diff.
    pub(crate) fn claim_file(&mut self, owned: &FileOwnership, mtime: u128)
        ensures
            final(self)@ == claim_file(old(self)@, owned@, mtime),
    {
        let ghost before = *self;
        let left = hunks_of_file(&self.diff, &owned.file_path);
        let listed = hunks_of_file(&self.files, &owned.file_path);
        let FileClaim { left, listed, kept, promoted } = claim_hunks_of(
            left,
            listed,
            &owned.hunks,
            mtime,
        );
        let ghost claim = FileClaimModel {
            left: views(left@),
            listed: views(listed@),
            kept: views(kept@),
            promoted: views(promoted@),
        };
        assert(claim == file_claim(before@, owned@, mtime));
        put_hunks(&mut self.diff, &owned.file_path, left);
        put_hunks(&mut self.files, &owned.file_path, listed);
        if kept.len() > 0 {
            self.kept.push(FileOwnership { file_path: owned.file_path.clone(), hunks: kept });
            proof {
                lemma_views_push(before.kept@, self.kept@.last());
            }
        }
        push_one_by_one(&mut self.promoted, &owned.file_path, &promoted);
    }
}

/// Adds the hunks of a file, each as an ownership of its own.
fn push_one_by_one(files: &mut Vec<FileOwnership>, path: &String, hunks: &Vec<Hunk>)
    ensures
        views(final(files)@) == views(old(files)@) + one_by_one(path@, views(hunks@)),
{
    let ghost before = views(files@);
    let ghost ones = one_by_one(path@, views(hunks@));
    let mut i: usize = 0;
    assert(before =~= before + ones.take(0));
    while i < hunks.len()
        invariant
            i <= hunks@.len(),
            ones == one_by_one(path@, views(hunks@)),
            views(files@) == before + ones.take(i as int),
        decreases hunks@.len() - i,
    {
        let ghost now = files@;
        let mut hunk: Vec<Hunk> = Vec::new();
        hunk.push(hunks[i].clone());
        assert(views(hunk@) =~= seq![views(hunks@)[i as int]]);
        files.push(FileOwnership { file_path: path.clone(), hunks: hunk });
        proof {
            lemma_views_push(now, files@.last());
            assert(views(files@) =~= before + ones.take(i + 1));
        }
        i = i + 1;
    }
    assert(ones.take(i as int) =~= ones);
}

} // verus!
