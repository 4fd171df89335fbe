//! Diffs: which hunks of which files differ.

use crate::digest::{diff_hash, diff_hash_of};
use crate::ownership::{position_of, FileOwnership, FileOwnershipModel, Hunk, HunkModel, Ownership};
use crate::seqs::{lemma_filter_ends, lemma_filter_next, lemma_views_push, views};
use vstd::prelude::*;

verus! {

/// A hunk of a diff: the lines of the new side, and the text of the diff. Of a binary file the
/// text is the id of the new content.
#[derive(Debug)]
pub struct DiffHunk {
    new_start: u32,
    new_lines: u32,
    diff: String,
    binary: bool,
}

/// A hunk of a diff.
pub struct DiffHunkModel {
    pub new_start: u32,
    pub new_lines: u32,
    pub diff: Seq<char>,
    pub binary: bool,
}

impl View for DiffHunk {
    type V = DiffHunkModel;

    closed spec fn view(&self) -> DiffHunkModel {
        DiffHunkModel {
            new_start: self.new_start,
            new_lines: self.new_lines,
            diff: self.diff@,
            binary: self.binary,
        }
    }
}

impl Clone for DiffHunk {
    fn clone(&self) -> (copy: Self)
        ensures
            copy@ == self@,
    {
        proof {
            use_type_invariant(self);
        }
        DiffHunk {
            new_start: self.new_start,
            new_lines: self.new_lines,
            diff: self.diff.clone(),
            binary: self.binary,
        }
    }
}

impl DiffHunkModel {
    /// The line behind the last line of the hunk.
    pub open spec fn new_end(self) -> int {
        self.new_start + self.new_lines
    }

    /// The lines of the hunk as something to own.
    pub open spec fn to_own(self) -> HunkModel {
        HunkModel {
            start: self.new_start,
            end: self.new_end() as u32,
            hash: Some(diff_hash_of(self.diff)),
            timestamp_ms: None,
        }
    }
}

impl DiffHunk {
    /// The lines of a file can be numbered.
    #[verifier::type_invariant]
    spec fn lines_fit(self) -> bool {
        self.new_start + self.new_lines <= u32::MAX
    }

    /// A hunk, where its lines can be numbered.
    pub fn new(new_start: u32, new_lines: u32, diff: String, binary: bool) -> (r: Option<DiffHunk>)
        ensures
            r is Some <==> new_start + new_lines <= u32::MAX,
            r matches Some(hunk) ==> hunk@ == (DiffHunkModel {
                new_start,
                new_lines,
                diff: diff@,
                binary,
            }),
    {
        if new_lines <= u32::MAX - new_start {
            Some(DiffHunk { new_start, new_lines, diff, binary })
        } else {
            None
        }
    }

    /// The first line of the hunk.
    pub fn new_start(&self) -> (r: u32)
        ensures
            r == self@.new_start,
    {
        self.new_start
    }

    /// How many lines the hunk has.
    pub fn new_lines(&self) -> (r: u32)
        ensures
            r == self@.new_lines,
    {
        self.new_lines
    }

    /// The line behind the last line of the hunk.
    pub fn new_end(&self) -> (r: u32)
        ensures
            r == self@.new_end(),
    {
        proof {
            use_type_invariant(self);
        }
        self.new_start + self.new_lines
    }

    /// The text of the diff.
    pub fn diff(&self) -> (r: &String)
        ensures
            r@ == self@.diff,
    {
        &self.diff
    }

    /// Whether the file is binary.
    pub fn binary(&self) -> (r: bool)
        ensures
            r == self@.binary,
    {
        self.binary
    }

    /// The lines of the hunk as something to own.
    pub fn to_own(&self) -> (r: Hunk)
        ensures
            r@ == self@.to_own(),
    {
        Hunk {
            start: self.new_start,
            end: self.new_end(),
            hash: Some(diff_hash(self.diff.as_str())),
            timestamp_ms: None,
        }
    }
}

/// The hunks of one file of a diff.
#[derive(Debug)]
pub struct FileDiff {
    pub path: String,
    pub hunks: Vec<DiffHunk>,
}

/// The hunks of one file of a diff.
pub struct FileDiffModel {
    pub path: Seq<char>,
    pub hunks: Seq<DiffHunkModel>,
}

impl View for FileDiff {
    type V = FileDiffModel;

    open spec fn view(&self) -> FileDiffModel {
        FileDiffModel { path: self.path@, hunks: views(self.hunks@) }
    }
}

impl Clone for FileDiff {
    fn clone(&self) -> (copy: Self)
        ensures
            copy@ == self@,
    {
        let copy = FileDiff { path: self.path.clone(), hunks: self.hunks.clone() };
        assert(copy@.hunks =~= self@.hunks);
        copy
    }
}

/// Whether no two files of a diff have the same path.
pub open spec fn distinct_paths(files: Seq<FileDiffModel>) -> bool {
    forall|i: int, j: int|
        0 <= i < j < files.len() ==> (#[trigger] files[i]).path != (#[trigger] files[j]).path
}

/// The position of a file in a diff, or the number of files where it is not in it.
pub open spec fn place_of(files: Seq<FileDiffModel>, path: Seq<char>) -> int
    decreases files.len(),
{
    if files.len() == 0 || files[0].path == path {
        0
    } else {
        1 + place_of(files.drop_first(), path)
    }
}

pub proof fn lemma_place_of(files: Seq<FileDiffModel>, path: Seq<char>)
    ensures
        0 <= place_of(files, path) <= files.len(),
        place_of(files, path) < files.len() ==> files[place_of(files, path)].path == path,
        forall|k: int| 0 <= k < place_of(files, path) ==> (#[trigger] files[k]).path != path,
    decreases files.len(),
{
    if files.len() > 0 && files[0].path != path {
        lemma_place_of(files.drop_first(), path);
        assert forall|k: int| 0 <= k < place_of(files, path) implies (#[trigger] files[k]).path
            != path by {
            if k > 0 {
                assert(files[k] == files.drop_first()[k - 1]);
            }
        }
    }
}

/// The position of a file in a diff, or the number of files where it is not in it.
pub fn find_file(files: &Vec<FileDiff>, path: &String) -> (at: usize)
    ensures
        at == place_of(views(files@), path@),
        at <= files@.len(),
{
    let ghost all = views(files@);
    let mut at: usize = 0;
    assert(all.skip(0) =~= all);
    while at < files.len() && files[at].path != *path
        invariant
            all == views(files@),
            at <= files@.len(),
            place_of(all, path@) == at + place_of(all.skip(at as int), path@),
        decreases files@.len() - at,
    {
        assert(all.skip(at as int).drop_first() =~= all.skip(at + 1));
        at = at + 1;
    }
    at
}

/// Whether some owned hunks name the lines of a hunk of a diff exactly.
pub open spec fn lists(hunks: Seq<HunkModel>, hunk: DiffHunkModel) -> bool {
    exists|i: int|
        0 <= i < hunks.len() && (#[trigger] hunks[i]).start == hunk.new_start && hunks[i].end
            == hunk.new_end()
}

/// Whether some owned hunks name the lines of a hunk of a diff exactly.
pub fn is_listed(hunks: &Vec<Hunk>, hunk: &DiffHunk) -> (r: bool)
    ensures
        r == lists(views(hunks@), hunk@),
{
    let end: u32 = hunk.new_end();
    let mut i: usize = 0;
    while i < hunks.len()
        invariant
            i <= hunks@.len(),
            end == hunk@.new_end(),
            forall|k: int|
                0 <= k < i ==> !((#[trigger] views(hunks@)[k]).start == hunk@.new_start && views(
                    hunks@,
                )[k].end == hunk@.new_end()),
        decreases hunks@.len() - i,
    {
        if hunks[i].start == hunk.new_start() && hunks[i].end == end {
            assert(views(hunks@)[i as int].start == hunk@.new_start);
            return true;
        }
        i = i + 1;
    }
    false
}

/// A diff with those hunks only that are to be kept, and those files only that have any left.
pub open spec fn select(
    files: Seq<FileDiffModel>,
    keep: spec_fn(Seq<char>, DiffHunkModel) -> bool,
) -> Seq<FileDiffModel>
    decreases files.len(),
{
    if files.len() == 0 {
        seq![]
    } else {
        let before = select(files.drop_last(), keep);
        let file = files.last();
        let hunks = file.hunks.filter(|h: DiffHunkModel| keep(file.path, h));
        if hunks.len() == 0 {
            before
        } else {
            before.push(FileDiffModel { path: file.path, hunks })
        }
    }
}

/// Whether an ownership lists a hunk of a file: the first entry of the file names its lines.
pub open spec fn owns_lines(
    files: Seq<FileOwnershipModel>,
    path: Seq<char>,
    hunk: DiffHunkModel,
) -> bool {
    let at = position_of(files, path);
    at < files.len() && lists(files[at].hunks, hunk)
}

/// Whether one of some ownerships of files lists a hunk of a file.
pub open spec fn any_lists(
    files: Seq<FileOwnershipModel>,
    path: Seq<char>,
    hunk: DiffHunkModel,
) -> bool {
    exists|i: int|
        0 <= i < files.len() && (#[trigger] files[i]).file_path == path && lists(files[i].hunks, hunk)
}

/// Whether one of some ownerships of files lists a hunk of a file.
fn is_any_listed(files: &Vec<FileOwnership>, path: &String, hunk: &DiffHunk) -> (r: bool)
    ensures
        r == any_lists(views(files@), path@, hunk@),
{
    let mut i: usize = 0;
    while i < files.len()
        invariant
            i <= files@.len(),
            forall|k: int|
                0 <= k < i ==> !((#[trigger] views(files@)[k]).file_path == path@ && lists(
                    views(files@)[k].hunks,
                    hunk@,
                )),
        decreases files@.len() - i,
    {
        if files[i].file_path == *path && is_listed(&files[i].hunks, hunk) {
            assert(views(files@)[i as int].file_path == path@);
            return true;
        }
        i = i + 1;
    }
    false
}

/// The hunks that an ownership lists, by file.
pub fn only_owned(files: &Vec<FileDiff>, ownership: &Ownership) -> (kept: Vec<FileDiff>)
    ensures
        views(kept@) == select(
            views(files@),
            |path: Seq<char>, h: DiffHunkModel| owns_lines(ownership@, path, h),
        ),
{
    let ghost all = views(files@);
    let ghost keep = |path: Seq<char>, h: DiffHunkModel| owns_lines(ownership@, path, h);
    let mut kept: Vec<FileDiff> = Vec::new();
    let mut i: usize = 0;
    proof {
        assert(all.take(0) =~= seq![]);
        assert(views(kept@) =~= seq![]);
    }
    while i < files.len()
        invariant
            i <= files@.len(),
            all == views(files@),
            keep == (|path: Seq<char>, h: DiffHunkModel| owns_lines(ownership@, path, h)),
            views(kept@) == select(all.take(i as int), keep),
        decreases files@.len() - i,
    {
        let ghost kept_before = kept@;
        let ghost file = all[i as int];
        let ghost keep_hunk = |h: DiffHunkModel| keep(file.path, h);
        assert(all.take(i + 1).drop_last() =~= all.take(i as int));
        let at: usize = ownership.position(&files[i].path);
        let mut hunks: Vec<DiffHunk> = Vec::new();
        let mut k: usize = 0;
        proof {
            lemma_filter_ends(file.hunks, keep_hunk);
            assert(views(hunks@) =~= seq![]);
        }
        while k < files[i].hunks.len()
            invariant
                i < files@.len(),
                all == views(files@),
                file == all[i as int],
                keep == (|path: Seq<char>, h: DiffHunkModel| owns_lines(ownership@, path, h)),
                keep_hunk == (|h: DiffHunkModel| keep(file.path, h)),
                at == position_of(ownership@, file.path),
                k <= file.hunks.len(),
                views(hunks@) == file.hunks.take(k as int).filter(keep_hunk),
            decreases file.hunks.len() - k,
        {
            let ghost before = hunks@;
            proof {
                lemma_filter_next(file.hunks, k as int, keep_hunk);
            }
            if at < ownership.files.len() && is_listed(&ownership.files[at].hunks, &files[i].hunks[k]) {
                hunks.push(files[i].hunks[k].clone());
                proof {
                    lemma_views_push(before, hunks@.last());
                }
            }
            k = k + 1;
        }
        if hunks.len() > 0 {
            kept.push(FileDiff { path: files[i].path.clone(), hunks });
            proof {
                lemma_views_push(kept_before, kept@.last());
            }
        }
        i = i + 1;
    }
    assert(all.take(i as int) =~= all);
    kept
}

/// The hunks that none of some ownerships of files lists.
pub fn without_listed(files: &Vec<FileDiff>, taken: &Vec<FileOwnership>) -> (kept: Vec<FileDiff>)
    ensures
        views(kept@) == select(
            views(files@),
            |path: Seq<char>, h: DiffHunkModel| !any_lists(views(taken@), path, h),
        ),
{
    let ghost all = views(files@);
    let ghost keep = |path: Seq<char>, h: DiffHunkModel| !any_lists(views(taken@), path, h);
    let mut kept: Vec<FileDiff> = Vec::new();
    let mut i: usize = 0;
    proof {
        assert(all.take(0) =~= seq![]);
        assert(views(kept@) =~= seq![]);
    }
    while i < files.len()
        invariant
            i <= files@.len(),
            all == views(files@),
            keep == (|path: Seq<char>, h: DiffHunkModel| !any_lists(views(taken@), path, h)),
            views(kept@) == select(all.take(i as int), keep),
        decreases files@.len() - i,
    {
        let ghost kept_before = kept@;
        let ghost file = all[i as int];
        let ghost keep_hunk = |h: DiffHunkModel| keep(file.path, h);
        assert(all.take(i + 1).drop_last() =~= all.take(i as int));
        let mut hunks: Vec<DiffHunk> = Vec::new();
        let mut k: usize = 0;
        proof {
            lemma_filter_ends(file.hunks, keep_hunk);
            assert(views(hunks@) =~= seq![]);
        }
        while k < files[i].hunks.len()
            invariant
                i < files@.len(),
                all == views(files@),
                file == all[i as int],
                keep == (|path: Seq<char>, h: DiffHunkModel| !any_lists(views(taken@), path, h)),
                keep_hunk == (|h: DiffHunkModel| keep(file.path, h)),
                k <= file.hunks.len(),
                views(hunks@) == file.hunks.take(k as int).filter(keep_hunk),
            decreases file.hunks.len() - k,
        {
            let ghost before = hunks@;
            proof {
                lemma_filter_next(file.hunks, k as int, keep_hunk);
            }
            if !is_any_listed(taken, &files[i].path, &files[i].hunks[k]) {
                hunks.push(files[i].hunks[k].clone());
                proof {
                    lemma_views_push(before, hunks@.last());
                }
            }
            k = k + 1;
        }
        if hunks.len() > 0 {
            kept.push(FileDiff { path: files[i].path.clone(), hunks });
            proof {
                lemma_views_push(kept_before, kept@.last());
            }
        }
        i = i + 1;
    }
    assert(all.take(i as int) =~= all);
    kept
}

} // verus!
