//! Which hunks of which files a virtual branch owns.

use crate::seqs::{
    lemma_filter_ends, lemma_filter_from, lemma_filter_next, lemma_filter_split, lemma_views_push,
    view_opt, views,
};
use vstd::multiset::Multiset;
use vstd::prelude::*;

verus! {

/// A range of lines that a branch owns. The hash is that of the diff it was claimed from.
#[derive(Debug)]
pub struct Hunk {
    pub start: u32,
    pub end: u32,
    pub hash: Option<String>,
    pub timestamp_ms: Option<u128>,
}

/// A range of lines that a branch owns.
pub struct HunkModel {
    pub start: u32,
    pub end: u32,
    pub hash: Option<Seq<char>>,
    pub timestamp_ms: Option<u128>,
}

impl View for Hunk {
    type V = HunkModel;

    open spec fn view(&self) -> HunkModel {
        HunkModel {
            start: self.start,
            end: self.end,
            hash: view_opt(self.hash),
            timestamp_ms: self.timestamp_ms,
        }
    }
}

impl Clone for Hunk {
    fn clone(&self) -> (copy: Self)
        ensures
            copy@ == self@,
    {
        Hunk {
            start: self.start,
            end: self.end,
            hash: self.hash.clone(),
            timestamp_ms: self.timestamp_ms,
        }
    }
}

impl HunkModel {
    /// Whether two hunks are the same: the same lines, and no difference between the hashes
    /// where both have one.
    pub open spec fn same(self, other: HunkModel) -> bool {
        &&& self.start == other.start
        &&& self.end == other.end
        &&& self.hash is Some && other.hash is Some ==> self.hash == other.hash
    }

    /// Whether a line lies within the hunk, its end included.
    pub open spec fn has_line(self, line: u32) -> bool {
        self.start <= line <= self.end
    }

    /// Whether two hunks have a line in common.
    pub open spec fn intersects(self, other: HunkModel) -> bool {
        ||| self.has_line(other.start)
        ||| self.has_line(other.end)
        ||| other.has_line(self.start)
        ||| other.has_line(self.end)
    }

    /// The hunk with another time.
    pub open spec fn with_timestamp(self, timestamp_ms: u128) -> HunkModel {
        HunkModel { timestamp_ms: Some(timestamp_ms), ..self }
    }

    /// The hunk with another hash.
    pub open spec fn with_hash(self, hash: Seq<char>) -> HunkModel {
        HunkModel { hash: Some(hash), ..self }
    }
}

impl Hunk {
    /// Whether two hunks are the same.
    pub fn same(&self, other: &Hunk) -> (r: bool)
        ensures
            r == self@.same(other@),
    {
        self.start == other.start && self.end == other.end && match (&self.hash, &other.hash) {
            (Some(one), Some(two)) => *one == *two,
            _ => true,
        }
    }

    /// Whether a line lies within the hunk.
    pub fn has_line(&self, line: u32) -> (r: bool)
        ensures
            r == self@.has_line(line),
    {
        self.start <= line && line <= self.end
    }

    /// Whether two hunks have a line in common.
    pub fn intersects(&self, other: &Hunk) -> (r: bool)
        ensures
            r == self@.intersects(other@),
    {
        self.has_line(other.start) || self.has_line(other.end) || other.has_line(self.start)
            || other.has_line(self.end)
    }

    /// The hunk with another time.
    pub fn with_timestamp(&self, timestamp_ms: u128) -> (r: Hunk)
        ensures
            r@ == self@.with_timestamp(timestamp_ms),
    {
        Hunk {
            start: self.start,
            end: self.end,
            hash: self.hash.clone(),
            timestamp_ms: Some(timestamp_ms),
        }
    }

    /// The hunk with another hash.
    pub fn with_hash(&self, hash: &str) -> (r: Hunk)
        ensures
            r@ == self@.with_hash(hash@),
    {
        Hunk {
            start: self.start,
            end: self.end,
            hash: Some(hash.to_owned()),
            timestamp_ms: self.timestamp_ms,
        }
    }
}

/// Whether one of the hunks is the same as `hunk`.
pub open spec fn holds(hunks: Seq<HunkModel>, hunk: HunkModel) -> bool {
    exists|i: int| 0 <= i < hunks.len() && (#[trigger] hunks[i]).same(hunk)
}

/// Whether one of the hunks is the same as `hunk`.
pub fn has_hunk(hunks: &Vec<Hunk>, hunk: &Hunk) -> (r: bool)
    ensures
        r == holds(views(hunks@), hunk@),
{
    let mut i: usize = 0;
    while i < hunks.len()
        invariant
            i <= hunks@.len(),
            forall|k: int| 0 <= k < i ==> !(#[trigger] views(hunks@)[k]).same(hunk@),
        decreases hunks@.len() - i,
    {
        if hunks[i].same(hunk) {
            assert(views(hunks@)[i as int].same(hunk@));
            return true;
        }
        i = i + 1;
    }
    false
}

/// The hunks of one file that a branch owns. No hunks stand for the whole file.
#[derive(Debug)]
pub struct FileOwnership {
    pub file_path: String,
    pub hunks: Vec<Hunk>,
}

/// The hunks of one file that a branch owns.
pub struct FileOwnershipModel {
    pub file_path: Seq<char>,
    pub hunks: Seq<HunkModel>,
}

impl View for FileOwnership {
    type V = FileOwnershipModel;

    open spec fn view(&self) -> FileOwnershipModel {
        FileOwnershipModel { file_path: self.file_path@, hunks: views(self.hunks@) }
    }
}

impl Clone for FileOwnership {
    fn clone(&self) -> (copy: Self)
        ensures
            copy@ == self@,
    {
        let copy = FileOwnership { file_path: self.file_path.clone(), hunks: self.hunks.clone() };
        assert(copy@.hunks =~= self@.hunks);
        copy
    }
}

/// What is taken from some hunks, and what is left of them, when each of the `ranges` in turn
/// takes the hunks that are the same as it.
pub open spec fn minus_hunks(hunks: Seq<HunkModel>, ranges: Seq<HunkModel>) -> (
    Seq<HunkModel>,
    Seq<HunkModel>,
)
    decreases ranges.len(),
{
    if ranges.len() == 0 {
        (seq![], hunks)
    } else {
        let (taken, left) = minus_hunks(hunks, ranges.drop_last());
        let range = ranges.last();
        (
            taken + left.filter(|h: HunkModel| h.same(range)),
            left.filter(|h: HunkModel| !h.same(range)),
        )
    }
}

impl FileOwnershipModel {
    /// Whether the whole file is owned.
    pub open spec fn is_full(self) -> bool {
        self.hunks.len() == 0
    }

    /// Whether everything that `other` owns of the file is owned.
    pub open spec fn contains(self, other: FileOwnershipModel) -> bool {
        &&& self.file_path == other.file_path
        &&& self.is_full() || (!other.is_full() && forall|i: int|
            0 <= i < other.hunks.len() ==> holds(self.hunks, #[trigger] other.hunks[i]))
    }

    /// Two ownerships of one file together. The hunks of `other` come first, the last of them
    /// foremost, and stand in place of those that are the same.
    pub open spec fn plus(self, other: FileOwnershipModel) -> FileOwnershipModel {
        if self.is_full() {
            self
        } else if other.is_full() {
            other
        } else {
            FileOwnershipModel {
                file_path: self.file_path,
                hunks: other.hunks.reverse() + self.hunks.filter(
                    |h: HunkModel| !holds(other.hunks, h),
                ),
            }
        }
    }

    /// What `other` takes from the ownership, and what is left of it. From a file that is owned
    /// as a whole, single hunks take nothing: it is not known which hunks would be left.
    pub open spec fn minus(self, other: FileOwnershipModel) -> (
        Option<FileOwnershipModel>,
        Option<FileOwnershipModel>,
    ) {
        if self.file_path != other.file_path {
            (None, Some(self))
        } else if other.is_full() {
            (Some(self), None)
        } else if self.is_full() {
            (None, Some(self))
        } else {
            let (taken, left) = minus_hunks(self.hunks, other.hunks);
            (self.of_hunks(taken), self.of_hunks(left))
        }
    }

    /// The ownership of some hunks of the file, where there are any.
    pub open spec fn of_hunks(self, hunks: Seq<HunkModel>) -> Option<FileOwnershipModel> {
        if hunks.len() == 0 {
            None
        } else {
            Some(FileOwnershipModel { file_path: self.file_path, hunks })
        }
    }

    /// Whether two ownerships of a file are the same.
    pub open spec fn same(self, other: FileOwnershipModel) -> bool {
        &&& self.file_path == other.file_path
        &&& self.hunks.len() == other.hunks.len()
        &&& forall|i: int|
            0 <= i < self.hunks.len() ==> (#[trigger] self.hunks[i]).same(other.hunks[i])
    }
}

impl FileOwnership {
    /// Whether the whole file is owned.
    pub fn is_full(&self) -> (r: bool)
        ensures
            r == self@.is_full(),
    {
        self.hunks.len() == 0
    }

    /// Whether everything that `other` owns of the file is owned.
    pub fn contains(&self, other: &FileOwnership) -> (r: bool)
        ensures
            r == self@.contains(other@),
    {
        if self.file_path != other.file_path {
            return false;
        }
        if self.is_full() {
            return true;
        }
        if other.is_full() {
            return false;
        }
        let mut i: usize = 0;
        while i < other.hunks.len()
            invariant
                i <= other.hunks@.len(),
                !self@.is_full(),
                forall|k: int| 0 <= k < i ==> holds(self@.hunks, #[trigger] other@.hunks[k]),
            decreases other.hunks@.len() - i,
        {
            if !has_hunk(&self.hunks, &other.hunks[i]) {
                assert(!holds(self@.hunks, other@.hunks[i as int]));
                return false;
            }
            i = i + 1;
        }
        true
    }

    /// Two ownerships of one file together.
    pub fn plus(&self, other: &FileOwnership) -> (r: FileOwnership)
        ensures
            r@ == self@.plus(other@),
    {
        if self.is_full() {
            return self.clone();
        }
        if other.is_full() {
            return other.clone();
        }
        let ghost new = |h: HunkModel| !holds(other@.hunks, h);
        let mut hunks: Vec<Hunk> = Vec::new();
        let mut i: usize = other.hunks.len();
        assert(views(hunks@) =~= other@.hunks.skip(i as int).reverse());
        while i > 0
            invariant
                i <= other.hunks@.len(),
                views(hunks@) == other@.hunks.skip(i as int).reverse(),
            decreases i,
        {
            let ghost before = hunks@;
            i = i - 1;
            hunks.push(other.hunks[i].clone());
            proof {
                lemma_views_push(before, hunks@.last());
                assert(views(hunks@) =~= other@.hunks.skip(i as int).reverse());
            }
        }
        let mut k: usize = 0;
        proof {
            lemma_filter_ends(self@.hunks, new);
            assert(other@.hunks.skip(0) =~= other@.hunks);
            assert(views(hunks@) =~= other@.hunks.reverse() + self@.hunks.take(0).filter(new));
        }
        while k < self.hunks.len()
            invariant
                k <= self.hunks@.len(),
                new == (|h: HunkModel| !holds(other@.hunks, h)),
                views(hunks@) == other@.hunks.reverse() + self@.hunks.take(k as int).filter(new),
            decreases self.hunks@.len() - k,
        {
            proof {
                lemma_filter_next(self@.hunks, k as int, new);
            }
            let ghost before = hunks@;
            if !has_hunk(&other.hunks, &self.hunks[k]) {
                hunks.push(self.hunks[k].clone());
                proof {
                    lemma_views_push(before, hunks@.last());
                    assert(views(hunks@) =~= other@.hunks.reverse() + self@.hunks.take(k + 1).filter(new));
                }
            }
            k = k + 1;
        }
        FileOwnership { file_path: self.file_path.clone(), hunks }
    }

    /// What `other` takes from the ownership, and what is left of it.
    pub fn minus(&self, other: &FileOwnership) -> (r: (Option<FileOwnership>, Option<FileOwnership>))
        ensures
            (view_opt(r.0), view_opt(r.1)) == self@.minus(other@),
    {
        if self.file_path != other.file_path {
            return (None, Some(self.clone()));
        }
        if other.is_full() {
            return (Some(self.clone()), None);
        }
        if self.is_full() {
            return (None, Some(self.clone()));
        }
        let mut taken: Vec<Hunk> = Vec::new();
        let mut left: Vec<Hunk> = self.hunks.clone();
        let mut i: usize = 0;
        proof {
            assert(other@.hunks.take(0) =~= seq![]);
            assert(views(taken@) =~= seq![]);
            assert(views(left@) =~= self@.hunks);
        }
        while i < other.hunks.len()
            invariant
                i <= other.hunks@.len(),
                (views(taken@), views(left@)) == minus_hunks(self@.hunks, other@.hunks.take(i as int)),
            decreases other.hunks@.len() - i,
        {
            proof {
                assert(other@.hunks.take(i + 1).drop_last() =~= other@.hunks.take(i as int));
            }
            let kept: Vec<Hunk> = take_same(&mut taken, &left, &other.hunks[i]);
            left = kept;
            i = i + 1;
        }
        assert(other@.hunks.take(i as int) =~= other@.hunks);
        (self.of_hunks(taken), self.of_hunks(left))
    }

    /// The ownership of some hunks of the file, where there are any.
    fn of_hunks(&self, hunks: Vec<Hunk>) -> (r: Option<FileOwnership>)
        ensures
            view_opt(r) == self@.of_hunks(views(hunks@)),
    {
        if hunks.len() == 0 {
            None
        } else {
            Some(FileOwnership { file_path: self.file_path.clone(), hunks })
        }
    }

    /// Whether two ownerships of a file are the same.
    pub fn same(&self, other: &FileOwnership) -> (r: bool)
        ensures
            r == self@.same(other@),
    {
        if self.file_path != other.file_path || self.hunks.len() != other.hunks.len() {
            return false;
        }
        let mut i: usize = 0;
        while i < self.hunks.len()
            invariant
                i <= self.hunks@.len() == other.hunks@.len(),
                forall|k: int| 0 <= k < i ==> (#[trigger] self@.hunks[k]).same(other@.hunks[k]),
            decreases self.hunks@.len() - i,
        {
            if !self.hunks[i].same(&other.hunks[i]) {
                assert(!self@.hunks[i as int].same(other@.hunks[i as int]));
                return false;
            }
            i = i + 1;
        }
        true
    }
}

/// Adds to `taken` the hunks that are the same as `range`, and gives back the others.
fn take_same(taken: &mut Vec<Hunk>, hunks: &Vec<Hunk>, range: &Hunk) -> (left: Vec<Hunk>)
    ensures
        views(final(taken)@) == views(old(taken)@) + views(hunks@).filter(
            |h: HunkModel| h.same(range@),
        ),
        views(left@) == views(hunks@).filter(|h: HunkModel| !h.same(range@)),
{
    let ghost is = |h: HunkModel| h.same(range@);
    let ghost is_not = |h: HunkModel| !h.same(range@);
    let ghost all = views(hunks@);
    let mut left: Vec<Hunk> = Vec::new();
    let mut i: usize = 0;
    proof {
        lemma_filter_ends(all, is);
        lemma_filter_ends(all, is_not);
        assert(views(left@) =~= seq![]);
        assert(views(taken@) =~= views(old(taken)@) + all.take(0).filter(is));
    }
    while i < hunks.len()
        invariant
            i <= hunks@.len(),
            all == views(hunks@),
            is == (|h: HunkModel| h.same(range@)),
            is_not == (|h: HunkModel| !h.same(range@)),
            views(taken@) == views(old(taken)@) + all.take(i as int).filter(is),
            views(left@) == all.take(i as int).filter(is_not),
        decreases hunks@.len() - i,
    {
        let ghost taken_before = taken@;
        let ghost left_before = left@;
        if hunks[i].same(range) {
            taken.push(hunks[i].clone());
        } else {
            left.push(hunks[i].clone());
        }
        proof {
            lemma_filter_next(all, i as int, is);
            lemma_filter_next(all, i as int, is_not);
            if all[i as int].same(range@) {
                lemma_views_push(taken_before, taken@.last());
                assert(views(taken@) =~= views(old(taken)@) + all.take(i + 1).filter(is));
            } else {
                lemma_views_push(left_before, left@.last());
            }
        }
        i = i + 1;
    }
    left
}

/// Everything that a branch owns: some files, each at most once as a rule, the ones claimed last
/// foremost.
#[derive(Debug)]
pub struct Ownership {
    pub files: Vec<FileOwnership>,
}

impl View for Ownership {
    type V = Seq<FileOwnershipModel>;

    open spec fn view(&self) -> Seq<FileOwnershipModel> {
        views(self.files@)
    }
}

impl Clone for Ownership {
    fn clone(&self) -> (copy: Self)
        ensures
            copy@ == self@,
    {
        let copy = Ownership { files: self.files.clone() };
        assert(copy@ =~= self@);
        copy
    }
}

/// What is owned of some files when `claim` is added: the file of the claim stands first, with
/// what was owned of it before and what is claimed.
pub open spec fn put_into(files: Seq<FileOwnershipModel>, claim: FileOwnershipModel) -> Seq<
    FileOwnershipModel,
> {
    let others = files.filter(|f: FileOwnershipModel| f.file_path != claim.file_path);
    let at = position_of(files, claim.file_path);
    let head = if at < files.len() {
        files[at].plus(claim)
    } else {
        claim
    };
    seq![head] + others
}

/// What is owned of some files when some claims are added, one after the other.
pub open spec fn put_each(
    files: Seq<FileOwnershipModel>,
    claims: Seq<FileOwnershipModel>,
) -> Seq<FileOwnershipModel>
    decreases claims.len(),
{
    if claims.len() == 0 {
        files
    } else {
        put_into(put_each(files, claims.drop_last()), claims.last())
    }
}

/// The position of the first entry of a file, or the number of entries where it has none.
pub open spec fn position_of(files: Seq<FileOwnershipModel>, path: Seq<char>) -> int
    decreases files.len(),
{
    if files.len() == 0 || files[0].file_path == path {
        0
    } else {
        1 + position_of(files.drop_first(), path)
    }
}

pub proof fn lemma_position_of(files: Seq<FileOwnershipModel>, path: Seq<char>)
    ensures
        0 <= position_of(files, path) <= files.len(),
        position_of(files, path) < files.len() ==> files[position_of(files, path)].file_path == path,
        forall|k: int| 0 <= k < position_of(files, path) ==> (#[trigger] files[k]).file_path != path,
    decreases files.len(),
{
    if files.len() > 0 && files[0].file_path != path {
        lemma_position_of(files.drop_first(), path);
        assert forall|k: int| 0 <= k < position_of(files, path) implies (#[trigger] files[k]).file_path
            != path by {
            if k > 0 {
                assert(files[k] == files.drop_first()[k - 1]);
            }
        }
    }
}

/// What `claim` takes from some files, and what is left of them.
pub open spec fn take_from(files: Seq<FileOwnershipModel>, claim: FileOwnershipModel) -> (
    Seq<FileOwnershipModel>,
    Seq<FileOwnershipModel>,
)
    decreases files.len(),
{
    if files.len() == 0 {
        (seq![], seq![])
    } else {
        let (taken, left) = take_from(files.drop_last(), claim);
        let (t, l) = files.last().minus(claim);
        (push_some(taken, t), push_some(left, l))
    }
}

/// A sequence with one more element, where there is one.
pub open spec fn push_some<A>(s: Seq<A>, o: Option<A>) -> Seq<A> {
    match o {
        Some(v) => s.push(v),
        None => s,
    }
}

/// Whether some files own everything that `others` own.
pub open spec fn covers(files: Seq<FileOwnershipModel>, others: Seq<FileOwnershipModel>) -> bool {
    forall|i: int| 0 <= i < others.len() ==> covers_file(files, #[trigger] others[i])
}

/// Whether one of some files owns everything that `other` owns.
pub open spec fn covers_file(files: Seq<FileOwnershipModel>, other: FileOwnershipModel) -> bool {
    exists|k: int| 0 <= k < files.len() && (#[trigger] files[k]).contains(other)
}

/// Whether two ownerships are the same, file by file.
pub open spec fn same_ownership(
    files: Seq<FileOwnershipModel>,
    others: Seq<FileOwnershipModel>,
) -> bool {
    &&& files.len() == others.len()
    &&& forall|i: int| 0 <= i < files.len() ==> (#[trigger] files[i]).same(others[i])
}

impl Ownership {
    /// Owns nothing.
    pub fn new() -> (r: Ownership)
        ensures
            r@ == Seq::<FileOwnershipModel>::empty(),
    {
        let r = Ownership { files: Vec::new() };
        assert(r@ =~= Seq::<FileOwnershipModel>::empty());
        r
    }

    /// The position of the first entry of a file, or the number of entries where it has none.
    pub fn position(&self, path: &String) -> (at: usize)
        ensures
            at == position_of(self@, path@),
    {
        let mut at: usize = 0;
        assert(self@.skip(0) =~= self@);
        while at < self.files.len() && self.files[at].file_path != *path
            invariant
                at <= self.files@.len(),
                position_of(self@, path@) == at + position_of(self@.skip(at as int), path@),
            decreases self.files@.len() - at,
        {
            assert(self@.skip(at as int).drop_first() =~= self@.skip(at + 1));
            at = at + 1;
        }
        at
    }

    /// Adds a claim.
    pub fn put(&mut self, claim: &FileOwnership)
        ensures
            final(self)@ == put_into(old(self)@, claim@),
    {
        let ghost others = |f: FileOwnershipModel| f.file_path != claim@.file_path;
        let at: usize = self.position(&claim.file_path);
        proof {
            lemma_position_of(self@, claim@.file_path);
        }
        let head: FileOwnership = if at < self.files.len() {
            self.files[at].plus(claim)
        } else {
            claim.clone()
        };
        let mut files: Vec<FileOwnership> = Vec::new();
        files.push(head);
        let mut i: usize = 0;
        proof {
            lemma_filter_ends(self@, others);
            assert(views(files@) =~= seq![head@] + self@.take(0).filter(others));
        }
        while i < self.files.len()
            invariant
                i <= self.files@.len(),
                *self == *old(self),
                others == (|f: FileOwnershipModel| f.file_path != claim@.file_path),
                views(files@) == seq![head@] + self@.take(i as int).filter(others),
            decreases self.files@.len() - i,
        {
            let ghost before = files@;
            if self.files[i].file_path != claim.file_path {
                files.push(self.files[i].clone());
            }
            proof {
                lemma_filter_next(self@, i as int, others);
                if others(self@[i as int]) {
                    lemma_views_push(before, files@.last());
                    assert(views(files@) =~= seq![head@] + self@.take(i + 1).filter(others));
                }
            }
            i = i + 1;
        }
        self.files = files;
    }

    /// Adds some claims, one after the other.
    pub fn put_each(&mut self, claims: &Vec<FileOwnership>)
        ensures
            final(self)@ == put_each(old(self)@, views(claims@)),
    {
        let ghost all = views(claims@);
        let mut i: usize = 0;
        assert(all.take(0) =~= seq![]);
        while i < claims.len()
            invariant
                i <= claims@.len(),
                all == views(claims@),
                self@ == put_each(old(self)@, all.take(i as int)),
            decreases claims@.len() - i,
        {
            assert(all.take(i + 1).drop_last() =~= all.take(i as int));
            self.put(&claims[i]);
            i = i + 1;
        }
        assert(all.take(i as int) =~= all);
    }

    /// Gives up what `claim` takes, and hands it back.
    pub fn take(&mut self, claim: &FileOwnership) -> (taken: Vec<FileOwnership>)
        ensures
            (views(taken@), final(self)@) == take_from(old(self)@, claim@),
    {
        let mut taken: Vec<FileOwnership> = Vec::new();
        let mut left: Vec<FileOwnership> = Vec::new();
        let mut i: usize = 0;
        proof {
            assert(self@.take(0) =~= seq![]);
            assert(views(taken@) =~= seq![]);
            assert(views(left@) =~= seq![]);
        }
        while i < self.files.len()
            invariant
                i <= self.files@.len(),
                *self == *old(self),
                (views(taken@), views(left@)) == take_from(self@.take(i as int), claim@),
            decreases self.files@.len() - i,
        {
            let ghost taken_before = taken@;
            let ghost left_before = left@;
            proof {
                assert(self@.take(i + 1).drop_last() =~= self@.take(i as int));
            }
            let (t, l) = self.files[i].minus(claim);
            if let Some(t) = t {
                taken.push(t);
                proof {
                    lemma_views_push(taken_before, taken@.last());
                }
            }
            if let Some(l) = l {
                left.push(l);
                proof {
                    lemma_views_push(left_before, left@.last());
                }
            }
            i = i + 1;
        }
        assert(self@.take(i as int) =~= self@);
        self.files = left;
        taken
    }

    /// Whether everything that `other` owns is owned.
    pub fn contains(&self, other: &Ownership) -> (r: bool)
        ensures
            r == covers(self@, other@),
    {
        let mut i: usize = 0;
        while i < other.files.len()
            invariant
                i <= other.files@.len(),
                forall|k: int| 0 <= k < i ==> covers_file(self@, #[trigger] other@[k]),
            decreases other.files@.len() - i,
        {
            let mut found: bool = false;
            let mut k: usize = 0;
            while k < self.files.len() && !found
                invariant
                    i < other.files@.len(),
                    k <= self.files@.len(),
                    found ==> covers_file(self@, other@[i as int]),
                    !found ==> forall|j: int| 0 <= j < k ==> !(#[trigger] self@[j]).contains(other@[i as int]),
                decreases self.files@.len() - k,
            {
                if self.files[k].contains(&other.files[i]) {
                    assert(self@[k as int].contains(other@[i as int]));
                    found = true;
                }
                k = k + 1;
            }
            if !found {
                assert(!covers_file(self@, other@[i as int]));
                return false;
            }
            i = i + 1;
        }
        true
    }

    /// Whether two ownerships are the same, file by file.
    pub fn same(&self, other: &Ownership) -> (r: bool)
        ensures
            r == same_ownership(self@, other@),
    {
        if self.files.len() != other.files.len() {
            return false;
        }
        let mut i: usize = 0;
        while i < self.files.len()
            invariant
                i <= self.files@.len() == other.files@.len(),
                forall|k: int| 0 <= k < i ==> (#[trigger] self@[k]).same(other@[k]),
            decreases self.files@.len() - i,
        {
            if !self.files[i].same(&other.files[i]) {
                assert(!self@[i as int].same(other@[i as int]));
                return false;
            }
            i = i + 1;
        }
        true
    }
}

/// Whether nothing of a claim is owned any more: no entry of the file is left for a whole file that
/// is claimed, and no claimed hunk for single ones. An entry for the whole file may stay, since it
/// does not name its hunks.
pub open spec fn is_free_of(files: Seq<FileOwnershipModel>, claim: FileOwnershipModel) -> bool {
    forall|i: int|
        0 <= i < files.len() && (#[trigger] files[i]).file_path == claim.file_path
            ==> !claim.is_full() && none_claimed(files[i].hunks, claim.hunks)
}

/// Whether none of some hunks is the same as a claimed one.
pub open spec fn none_claimed(hunks: Seq<HunkModel>, claimed: Seq<HunkModel>) -> bool {
    forall|k: int, r: int|
        0 <= k < hunks.len() && 0 <= r < claimed.len() ==> !(#[trigger] hunks[k]).same(
            #[trigger] claimed[r],
        )
}

/// Whether all of some hunks are among others.
pub open spec fn hunks_from(hunks: Seq<HunkModel>, others: Seq<HunkModel>) -> bool {
    forall|k: int| 0 <= k < hunks.len() ==> others.contains(#[trigger] hunks[k])
}

proof fn lemma_minus_hunks(hunks: Seq<HunkModel>, ranges: Seq<HunkModel>)
    ensures
        none_claimed(minus_hunks(hunks, ranges).1, ranges),
        hunks_from(minus_hunks(hunks, ranges).1, hunks),
    decreases ranges.len(),
{
    if ranges.len() > 0 {
        let before = ranges.drop_last();
        let range = ranges.last();
        let left = minus_hunks(hunks, before).1;
        let keep = |h: HunkModel| !h.same(range);
        let new = minus_hunks(hunks, ranges).1;
        lemma_minus_hunks(hunks, before);
        assert forall|k: int, r: int| 0 <= k < new.len() && 0 <= r < ranges.len() implies !(
        #[trigger] new[k]).same(#[trigger] ranges[r]) by {
            let from = lemma_filter_from(left, keep, k);
            if r < before.len() {
                assert(before[r] == ranges[r]);
                assert(!left[from].same(before[r]));
            }
        }
        assert forall|k: int| 0 <= k < new.len() implies hunks.contains(#[trigger] new[k]) by {
            let from = lemma_filter_from(left, keep, k);
            assert(hunks.contains(left[from]));
        }
    } else {
        assert forall|k: int| 0 <= k < hunks.len() implies hunks.contains(#[trigger] hunks[k]) by {}
    }
}

/// What is left of an entry once a claim has been taken from it.
proof fn lemma_minus(f: FileOwnershipModel, claim: FileOwnershipModel)
    ensures
        f.minus(claim).1 matches Some(left) ==> {
            &&& left.file_path == f.file_path
            &&& hunks_from(left.hunks, f.hunks)
            &&& left.is_full() == f.is_full()
            &&& f.file_path == claim.file_path ==> !claim.is_full() && none_claimed(
                left.hunks,
                claim.hunks,
            )
        },
{
    lemma_minus_hunks(f.hunks, claim.hunks);
    assert forall|k: int| 0 <= k < f.hunks.len() implies f.hunks.contains(#[trigger] f.hunks[k]) by {}
}

/// Where an entry that is left once a claim has been taken comes from.
proof fn lemma_left_from(files: Seq<FileOwnershipModel>, claim: FileOwnershipModel, i: int) -> (from:
    int)
    requires
        0 <= i < take_from(files, claim).1.len(),
    ensures
        0 <= from < files.len(),
        files[from].minus(claim).1 == Some(take_from(files, claim).1[i]),
    decreases files.len(),
{
    let before = take_from(files.drop_last(), claim).1;
    if i < before.len() {
        let from = lemma_left_from(files.drop_last(), claim, i);
        assert(take_from(files, claim).1[i] == before[i]);
        from
    } else {
        files.len() - 1
    }
}

/// What is taken is no longer owned.
pub proof fn taken_is_gone(files: Seq<FileOwnershipModel>, claim: FileOwnershipModel)
    ensures
        is_free_of(take_from(files, claim).1, claim),
{
    let left = take_from(files, claim).1;
    assert forall|i: int|
        0 <= i < left.len() && (#[trigger] left[i]).file_path == claim.file_path implies
        !claim.is_full() && none_claimed(left[i].hunks, claim.hunks) by {
        let from = lemma_left_from(files, claim, i);
        lemma_minus(files[from], claim);
    }
}

/// Taking a claim gives nothing back: what was not owned before is not owned afterwards.
pub proof fn taking_gives_nothing_back(
    files: Seq<FileOwnershipModel>,
    claim: FileOwnershipModel,
    other: FileOwnershipModel,
)
    requires
        is_free_of(files, other),
    ensures
        is_free_of(take_from(files, claim).1, other),
{
    let left = take_from(files, claim).1;
    assert forall|i: int|
        0 <= i < left.len() && (#[trigger] left[i]).file_path == other.file_path implies
        !other.is_full() && none_claimed(left[i].hunks, other.hunks) by {
        let from = lemma_left_from(files, claim, i);
        let f = files[from];
        lemma_minus(f, claim);
        assert forall|k: int, r: int|
            0 <= k < left[i].hunks.len() && 0 <= r < other.hunks.len() implies !(
        #[trigger] left[i].hunks[k]).same(#[trigger] other.hunks[r]) by {
            assert(f.hunks.contains(left[i].hunks[k]));
            let m = choose|m: int| 0 <= m < f.hunks.len() && f.hunks[m] == left[i].hunks[k];
            assert(!f.hunks[m].same(other.hunks[r]));
        }
    }
}

/// The hunks that are owned of some files, each with its path, in no order.
pub open spec fn owned_hunks(files: Seq<FileOwnershipModel>) -> Multiset<(Seq<char>, HunkModel)>
    decreases files.len(),
{
    if files.len() == 0 {
        Multiset::empty()
    } else {
        owned_hunks(files.drop_last()).add(with_path(files.last().file_path, files.last().hunks))
    }
}

/// Some hunks of a file, each with the path of the file, in no order.
pub open spec fn with_path(path: Seq<char>, hunks: Seq<HunkModel>) -> Multiset<
    (Seq<char>, HunkModel),
> {
    Seq::new(hunks.len(), |i: int| (path, hunks[i])).to_multiset()
}

proof fn lemma_with_path_count(path: Seq<char>, hunks: Seq<HunkModel>, p: (Seq<char>, HunkModel))
    ensures
        with_path(path, hunks).count(p) == (if p.0 == path {
            hunks.to_multiset().count(p.1)
        } else {
            0
        }),
    decreases hunks.len(),
{
    broadcast use vstd::seq_lib::group_to_multiset_ensures;

    let pairs = Seq::new(hunks.len(), |i: int| (path, hunks[i]));
    if hunks.len() > 0 {
        let before = hunks.drop_last();
        let pairs_before = Seq::new(before.len(), |i: int| (path, before[i]));
        lemma_with_path_count(path, before, p);
        assert(pairs =~= pairs_before.push((path, hunks.last())));
        assert(hunks =~= before.push(hunks.last()));
    } else {
        assert(pairs =~= seq![]);
        assert(hunks =~= seq![]);
    }
}

proof fn lemma_minus_splits(hunks: Seq<HunkModel>, ranges: Seq<HunkModel>)
    ensures
        minus_hunks(hunks, ranges).0.to_multiset().add(minus_hunks(hunks, ranges).1.to_multiset())
            == hunks.to_multiset(),
    decreases ranges.len(),
{
    broadcast use vstd::seq_lib::group_to_multiset_ensures;

    let (taken, left) = minus_hunks(hunks, ranges);
    if ranges.len() > 0 {
        let (taken_before, left_before) = minus_hunks(hunks, ranges.drop_last());
        let range = ranges.last();
        let is = |h: HunkModel| h.same(range);
        let is_not = |h: HunkModel| !h.same(range);
        lemma_minus_splits(hunks, ranges.drop_last());
        lemma_filter_split(left_before, is, is_not);
        vstd::seq_lib::lemma_multiset_commutative(taken_before, left_before.filter(is));
        assert(taken.to_multiset().add(left.to_multiset()) =~= taken_before.to_multiset().add(
            left_before.filter(is).to_multiset().add(left_before.filter(is_not).to_multiset()),
        ));
    } else {
        assert(taken =~= seq![]);
        assert(taken.to_multiset().add(left.to_multiset()) =~= hunks.to_multiset());
    }
}

/// Taking loses nothing: every owned hunk is either taken or left, and none is both.
pub proof fn taking_loses_nothing(files: Seq<FileOwnershipModel>, claim: FileOwnershipModel)
    ensures
        owned_hunks(take_from(files, claim).0).add(owned_hunks(take_from(files, claim).1))
            == owned_hunks(files),
    decreases files.len(),
{
    let (taken, left) = take_from(files, claim);
    if files.len() > 0 {
        let (taken_before, left_before) = take_from(files.drop_last(), claim);
        let f = files.last();
        let (t, l) = f.minus(claim);
        taking_loses_nothing(files.drop_last(), claim);
        lemma_minus_splits(f.hunks, claim.hunks);
        if t is Some {
            assert(taken.drop_last() =~= taken_before);
        }
        if l is Some {
            assert(left.drop_last() =~= left_before);
        }
        assert forall|p: (Seq<char>, HunkModel)| #[trigger]
            owned_hunks(taken).add(owned_hunks(left)).count(p) == owned_hunks(files).count(p) by {
            assert(owned_hunks(taken_before).add(owned_hunks(left_before)).count(p)
                == owned_hunks(files.drop_last()).count(p));
            lemma_with_path_count(f.file_path, f.hunks, p);
            lemma_with_path_count(f.file_path, seq![], p);
            if t is Some {
                lemma_with_path_count(f.file_path, t->0.hunks, p);
            }
            if l is Some {
                lemma_with_path_count(f.file_path, l->0.hunks, p);
            }
            let (th, lh) = minus_hunks(f.hunks, claim.hunks);
            assert(th.to_multiset().add(lh.to_multiset()).count(p.1) == f.hunks.to_multiset().count(
                p.1,
            ));
            if th.len() == 0 {
                assert(th =~= seq![]);
            }
            if lh.len() == 0 {
                assert(lh =~= seq![]);
            }
            assert(Seq::<HunkModel>::empty().to_multiset().count(p.1) == 0) by {
                broadcast use vstd::seq_lib::group_to_multiset_ensures;

            }
        }
        assert(owned_hunks(taken).add(owned_hunks(left)) =~= owned_hunks(files));
    } else {
        assert(owned_hunks(taken).add(owned_hunks(left)) =~= owned_hunks(files));
    }
}

/// What is put is owned.
pub proof fn what_is_put_is_owned(files: Seq<FileOwnershipModel>, claim: FileOwnershipModel)
    ensures
        covers_file(put_into(files, claim), claim),
{
    let new = put_into(files, claim);
    lemma_position_of(files, claim.file_path);
    let head = new[0];
    assert forall|i: int| !head.is_full() && 0 <= i < claim.hunks.len() implies holds(
        head.hunks,
        #[trigger] claim.hunks[i],
    ) by {
        let at = position_of(files, claim.file_path);
        if at < files.len() {
            let k = claim.hunks.len() - 1 - i;
            assert(claim.hunks.reverse()[k] == claim.hunks[i]);
            assert(head.hunks[k] == claim.hunks[i]);
            assert(head.hunks[k].same(claim.hunks[i]));
        } else {
            assert(head.hunks[i].same(claim.hunks[i]));
        }
    }
    assert(new[0].contains(claim));
}

} // verus!
