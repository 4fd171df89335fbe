//! Which hunks belong to which branch.

use crate::branch::{
    Branch, BranchCreateModel, BranchCreateRequest, BranchModel, CommitModel, Target, TargetModel,
};
use crate::claims::{
    claim_file, hunks_at, hunks_of_file, put_hunks, with_hunks, BranchClaim, BranchClaimModel,
};
use crate::create::{by_order, create_virtual_branch, create_virtual_branch_flow, sort_by_order};
use crate::diff::{find_file, place_of, DiffHunk, DiffHunkModel, FileDiff, FileDiffModel};
use crate::digest::{diff_hash, diff_hash_of};
use crate::ownership::{put_each, put_into, FileOwnership, FileOwnershipModel, Hunk, Ownership};
use crate::protocol::{
    ask_branches, ask_commit, ask_diffs, ask_unit, fail, outcome, outcome_seq, BranchError,
    BranchErrorModel, Flow, ReplyModel, Request, RequestModel, Stop, Tape,
};
use crate::seqs::{lemma_views_push, views};
use crate::session::{
    applied_only, get_default_target, get_default_target_flow, keep_applied, unapplied_only,
};
use crate::times::{get_mtime, get_mtime_flow, FileTime, FileTimeModel};
use vstd::prelude::*;

verus! {

/// A branch, and the hunks that belong to it.
#[derive(Debug)]
pub struct BranchStatus {
    pub branch: Branch,
    pub files: Vec<FileDiff>,
}

/// A branch, and the hunks that belong to it.
pub struct BranchStatusModel {
    pub branch: BranchModel,
    pub files: Seq<FileDiffModel>,
}

impl View for BranchStatus {
    type V = BranchStatusModel;

    open spec fn view(&self) -> BranchStatusModel {
        BranchStatusModel { branch: self.branch@, files: views(self.files@) }
    }
}

/// How meeting the claims to the files of a branch comes out, from the given file on. A file that
/// is not in the diff is passed over.
pub open spec fn claim_files_flow(
    s: Seq<ReplyModel>,
    c: BranchClaimModel,
    times: Seq<FileTimeModel>,
    owned: Seq<FileOwnershipModel>,
    i: int,
) -> Flow<(BranchClaimModel, Seq<FileTimeModel>)>
    decreases owned.len() - i,
{
    if i < 0 || i >= owned.len() {
        Flow::Done((c, times), s)
    } else if place_of(c.diff, owned[i].file_path) >= c.diff.len() {
        claim_files_flow(s, c, times, owned, i + 1)
    } else {
        get_mtime_flow(s, times, false, owned[i].file_path).and_then(
            |m: (u128, Seq<FileTimeModel>), s: Seq<ReplyModel>|
                claim_files_flow(s, claim_file(c, owned[i], m.0), m.1, owned, i + 1),
        )
    }
}

/// Meets the claims to the files of a branch.
fn claim_files(
    tape: &mut Tape,
    diff: Vec<FileDiff>,
    times: &mut Vec<FileTime>,
    owned: &Vec<FileOwnership>,
) -> (r: Result<BranchClaim, Stop>)
    ensures
        (match r {
            Ok(claim) => Flow::Done((claim@, views(final(times)@)), final(tape)@),
            Err(stop) => Flow::Stop(stop@),
        }) == claim_files_flow(
            old(tape)@,
            (BranchClaimModel {
                diff: views(diff@),
                files: seq![],
                kept: seq![],
                promoted: seq![],
            }),
            views(old(times)@),
            views(owned@),
            0,
        ),
{
    let mut claim = BranchClaim {
        diff,
        files: Vec::new(),
        kept: Vec::new(),
        promoted: Vec::new(),
    };
    let ghost start = claim@;
    proof {
        assert(start.files =~= seq![]);
        assert(start.kept =~= seq![]);
        assert(start.promoted =~= seq![]);
    }
    let mut i: usize = 0;
    while i < owned.len()
        invariant
            i <= owned@.len(),
            start == (BranchClaimModel {
                diff: views(diff@),
                files: seq![],
                kept: seq![],
                promoted: seq![],
            }),
            claim_files_flow(old(tape)@, start, views(old(times)@), views(owned@), 0)
                == claim_files_flow(tape@, claim@, views(times@), views(owned@), i as int),
        decreases owned@.len() - i,
    {
        if find_file(&claim.diff, &owned[i].file_path) < claim.diff.len() {
            let mtime: u128 = get_mtime(tape, times, false, &owned[i].file_path)?;
            claim.claim_file(&owned[i], mtime);
        }
        i = i + 1;
    }
    Ok(claim)
}

/// How far the hunks have been shared out among the branches.
pub struct Alignment {
    /// The branches that have been served.
    pub statuses: Vec<BranchStatus>,
    /// What is not claimed yet.
    pub diff: Vec<FileDiff>,
    /// When the files were changed, as far as known.
    pub times: Vec<FileTime>,
}

/// How far the hunks have been shared out among the branches.
pub struct AlignmentModel {
    pub statuses: Seq<BranchStatusModel>,
    pub diff: Seq<FileDiffModel>,
    pub times: Seq<FileTimeModel>,
}

impl View for Alignment {
    type V = AlignmentModel;

    open spec fn view(&self) -> AlignmentModel {
        AlignmentModel {
            statuses: views(self.statuses@),
            diff: views(self.diff@),
            times: views(self.times@),
        }
    }
}

/// How serving one branch comes out. It gets what it lays claim to, and owns that from then on,
/// what has changed foremost.
pub open spec fn align_branch_flow(s: Seq<ReplyModel>, a: AlignmentModel, branch: BranchModel) -> Flow<
    AlignmentModel,
> {
    if !branch.applied {
        fail(BranchErrorModel::BranchIsNotApplied(branch.name))
    } else {
        claim_files_flow(
            s,
            BranchClaimModel { diff: a.diff, files: seq![], kept: seq![], promoted: seq![] },
            a.times,
            branch.ownership,
            0,
        ).and_then(
            |c: (BranchClaimModel, Seq<FileTimeModel>), s: Seq<ReplyModel>|
                Flow::Done(
                    AlignmentModel {
                        statuses: a.statuses.push(
                            BranchStatusModel {
                                branch: BranchModel {
                                    ownership: put_each(c.0.kept, c.0.promoted),
                                    ..branch
                                },
                                files: c.0.files,
                            },
                        ),
                        diff: c.0.diff,
                        times: c.1,
                    },
                    s,
                ),
        )
    }
}

/// Serves one branch.
fn align_branch(tape: &mut Tape, alignment: Alignment, branch: &Branch) -> (r: Result<
    Alignment,
    Stop,
>)
    ensures
        outcome(r, final(tape)@) == align_branch_flow(old(tape)@, alignment@, branch@),
{
    if !branch.applied {
        return Err(Stop::Fail(BranchError::BranchIsNotApplied(branch.name.clone())));
    }
    let Alignment { statuses, diff, times } = alignment;
    let mut statuses = statuses;
    let mut times = times;
    let BranchClaim { diff, files, kept, promoted } = claim_files(
        tape,
        diff,
        &mut times,
        &branch.ownership.files,
    )?;
    let mut ownership = Ownership { files: kept };
    ownership.put_each(&promoted);
    let mut branch = branch.clone();
    branch.ownership = ownership;
    let ghost before = statuses@;
    statuses.push(BranchStatus { branch, files });
    proof {
        lemma_views_push(before, statuses@.last());
    }
    Ok(Alignment { statuses, diff, times })
}

/// How serving the branches from the given one on comes out.
pub open spec fn align_flow(
    s: Seq<ReplyModel>,
    a: AlignmentModel,
    branches: Seq<BranchModel>,
    i: int,
) -> Flow<AlignmentModel>
    decreases branches.len() - i,
{
    if i < 0 || i >= branches.len() {
        Flow::Done(a, s)
    } else {
        align_branch_flow(s, a, branches[i]).and_then(
            |a: AlignmentModel, s: Seq<ReplyModel>| align_flow(s, a, branches, i + 1),
        )
    }
}

/// A branch that gets one more hunk.
pub open spec fn give_hunk(
    status: BranchStatusModel,
    path: Seq<char>,
    hunk: DiffHunkModel,
    mtime: u128,
) -> BranchStatusModel {
    BranchStatusModel {
        branch: BranchModel {
            ownership: put_into(
                status.branch.ownership,
                FileOwnershipModel {
                    file_path: path,
                    hunks: seq![
                        hunk.to_own().with_timestamp(mtime).with_hash(diff_hash_of(hunk.diff)),
                    ],
                },
            ),
            ..status.branch
        },
        files: with_hunks(status.files, path, hunks_at(status.files, path).push(hunk)),
    }
}

/// How giving a branch the hunks of a file from the given one on comes out.
pub open spec fn give_hunks_flow(
    s: Seq<ReplyModel>,
    status: BranchStatusModel,
    times: Seq<FileTimeModel>,
    file: FileDiffModel,
    i: int,
) -> Flow<(BranchStatusModel, Seq<FileTimeModel>)>
    decreases file.hunks.len() - i,
{
    if i < 0 || i >= file.hunks.len() {
        Flow::Done((status, times), s)
    } else {
        get_mtime_flow(s, times, false, file.path).and_then(
            |m: (u128, Seq<FileTimeModel>), s: Seq<ReplyModel>|
                give_hunks_flow(
                    s,
                    give_hunk(status, file.path, file.hunks[i], m.0),
                    m.1,
                    file,
                    i + 1,
                ),
        )
    }
}

/// How giving a branch the files of a diff from the given one on comes out.
pub open spec fn give_files_flow(
    s: Seq<ReplyModel>,
    status: BranchStatusModel,
    times: Seq<FileTimeModel>,
    diff: Seq<FileDiffModel>,
    i: int,
) -> Flow<(BranchStatusModel, Seq<FileTimeModel>)>
    decreases diff.len() - i,
{
    if i < 0 || i >= diff.len() {
        Flow::Done((status, times), s)
    } else {
        give_hunks_flow(s, status, times, diff[i], 0).and_then(
            |g: (BranchStatusModel, Seq<FileTimeModel>), s: Seq<ReplyModel>|
                give_files_flow(s, g.0, g.1, diff, i + 1),
        )
    }
}

/// Gives a branch one more hunk.
fn give_one(status: &mut BranchStatus, path: &String, hunk: &DiffHunk, mtime: u128)
    ensures
        final(status)@ == give_hunk(old(status)@, path@, hunk@, mtime),
{
    let hash: String = diff_hash(hunk.diff().as_str());
    let owned: Hunk = hunk.to_own().with_timestamp(mtime).with_hash(hash.as_str());
    let mut owned_hunks: Vec<Hunk> = Vec::new();
    owned_hunks.push(owned);
    assert(views(owned_hunks@) =~= seq![owned@]);
    status.branch.ownership.put(&FileOwnership { file_path: path.clone(), hunks: owned_hunks });
    let mut hunks = hunks_of_file(&status.files, path);
    let ghost before = hunks@;
    hunks.push(hunk.clone());
    proof {
        lemma_views_push(before, hunks@.last());
    }
    put_hunks(&mut status.files, path, hunks);
}

/// Gives a branch the hunks of a file.
fn give_hunks(
    tape: &mut Tape,
    status: &mut BranchStatus,
    times: &mut Vec<FileTime>,
    file: &FileDiff,
) -> (r: Result<(), Stop>)
    ensures
        (match r {
            Ok(_) => Flow::Done((final(status)@, views(final(times)@)), final(tape)@),
            Err(stop) => Flow::Stop(stop@),
        }) == give_hunks_flow(old(tape)@, old(status)@, views(old(times)@), file@, 0),
{
    let mut i: usize = 0;
    while i < file.hunks.len()
        invariant
            i <= file.hunks@.len(),
            give_hunks_flow(old(tape)@, old(status)@, views(old(times)@), file@, 0)
                == give_hunks_flow(tape@, status@, views(times@), file@, i as int),
        decreases file.hunks@.len() - i,
    {
        let mtime: u128 = get_mtime(tape, times, false, &file.path)?;
        give_one(status, &file.path, &file.hunks[i], mtime);
        i = i + 1;
    }
    Ok(())
}

/// How giving the rest to the first branch comes out.
pub open spec fn give_rest_flow(s: Seq<ReplyModel>, a: AlignmentModel) -> Flow<
    Seq<BranchStatusModel>,
> {
    if a.statuses.len() == 0 {
        Flow::Done(a.statuses, s)
    } else {
        give_files_flow(s, a.statuses[0], a.times, a.diff, 0).and_then(
            |g: (BranchStatusModel, Seq<FileTimeModel>), s: Seq<ReplyModel>|
                Flow::Done(a.statuses.update(0, g.0), s),
        )
    }
}

/// Gives what no branch lays claim to, to the first branch.
fn give_rest(tape: &mut Tape, alignment: Alignment) -> (r: Result<Vec<BranchStatus>, Stop>)
    ensures
        outcome_seq(r, final(tape)@) == give_rest_flow(old(tape)@, alignment@),
{
    let ghost start = alignment@;
    let Alignment { statuses, diff, times } = alignment;
    let mut statuses = statuses;
    let mut times = times;
    if statuses.len() == 0 {
        return Ok(statuses);
    }
    let ghost before = statuses@;
    let mut first: BranchStatus = statuses.remove(0);
    let ghost first_before = first@;
    let ghost times_before = views(times@);
    let mut i: usize = 0;
    while i < diff.len()
        invariant
            i <= diff@.len(),
            give_files_flow(old(tape)@, first_before, times_before, views(diff@), 0)
                == give_files_flow(tape@, first@, views(times@), views(diff@), i as int),
            start == alignment@,
            start.statuses.len() > 0,
            start.statuses[0] == first_before,
            start.times == times_before,
            start.diff == views(diff@),
        decreases diff@.len() - i,
    {
        give_hunks(tape, &mut first, &mut times, &diff[i])?;
        i = i + 1;
    }
    statuses.insert(0, first);
    assert(views(statuses@) =~= start.statuses.update(0, first@));
    Ok(statuses)
}

/// How storing the branches from the given one on comes out.
pub open spec fn write_statuses_flow(
    s: Seq<ReplyModel>,
    statuses: Seq<BranchStatusModel>,
    i: int,
) -> Flow<()>
    decreases statuses.len() - i,
{
    if i < 0 || i >= statuses.len() {
        Flow::Done((), s)
    } else {
        ask_unit(s, RequestModel::WriteBranch(statuses[i].branch)).and_then(
            |u: (), s: Seq<ReplyModel>| write_statuses_flow(s, statuses, i + 1),
        )
    }
}

/// Stores the branches.
fn write_statuses(tape: &mut Tape, statuses: &Vec<BranchStatus>) -> (r: Result<(), Stop>)
    ensures
        outcome(r, final(tape)@) == write_statuses_flow(old(tape)@, views(statuses@), 0),
{
    let mut i: usize = 0;
    while i < statuses.len()
        invariant
            i <= statuses@.len(),
            write_statuses_flow(old(tape)@, views(statuses@), 0) == write_statuses_flow(
                tape@,
                views(statuses@),
                i as int,
            ),
        decreases statuses@.len() - i,
    {
        tape.ask_unit(Request::WriteBranch(statuses[i].branch.clone()))?;
        i = i + 1;
    }
    Ok(())
}

/// The wish for a branch that leaves everything open.
pub open spec fn any_branch() -> BranchCreateModel {
    BranchCreateModel { name: None, ownership: None, order: None }
}

/// How finding the branches to share the hunks out among comes out: the given ones in their
/// order, or a new one where there are none and there is something to share out.
pub open spec fn branches_to_serve_flow(
    s: Seq<ReplyModel>,
    branches: Seq<BranchModel>,
    diff: Seq<FileDiffModel>,
) -> Flow<Seq<BranchModel>> {
    if branches.len() == 0 && diff.len() > 0 {
        create_virtual_branch_flow(s, any_branch()).and_then(
            |branch: BranchModel, s: Seq<ReplyModel>| Flow::Done(seq![branch], s),
        )
    } else {
        Flow::Done(by_order(branches), s)
    }
}

/// How sharing the hunks of a diff out among some branches comes out: first each branch gets what
/// it lays claim to, then the first gets the rest.
pub open spec fn share_out_flow(
    s: Seq<ReplyModel>,
    diff: Seq<FileDiffModel>,
    branches: Seq<BranchModel>,
) -> Flow<Seq<BranchStatusModel>> {
    align_flow(s, AlignmentModel { statuses: seq![], diff, times: seq![] }, branches, 0).and_then(
        |a: AlignmentModel, s: Seq<ReplyModel>| give_rest_flow(s, a),
    )
}

/// Shares the hunks of a diff out among some branches.
pub fn share_out(tape: &mut Tape, diff: Vec<FileDiff>, branches: &Vec<Branch>) -> (r: Result<
    Vec<BranchStatus>,
    Stop,
>)
    ensures
        outcome_seq(r, final(tape)@) == share_out_flow(old(tape)@, views(diff@), views(branches@)),
{
    let mut alignment = Alignment { statuses: Vec::new(), diff, times: Vec::new() };
    let ghost start = alignment@;
    proof {
        assert(start.statuses =~= seq![]);
        assert(start.times =~= seq![]);
    }
    let mut i: usize = 0;
    while i < branches.len()
        invariant
            i <= branches@.len(),
            align_flow(old(tape)@, start, views(branches@), 0) == align_flow(
                tape@,
                alignment@,
                views(branches@),
                i as int,
            ),
            start == (AlignmentModel { statuses: seq![], diff: views(diff@), times: seq![] }),
        decreases branches@.len() - i,
    {
        alignment = align_branch(tape, alignment, &branches[i])?;
        i = i + 1;
    }
    give_rest(tape, alignment)
}

/// How finding the status of the applied branches comes out. Every hunk that differs between the
/// target and the working directory goes to one branch, and the branches are stored as they are
/// then.
pub open spec fn get_applied_status_flow(
    s: Seq<ReplyModel>,
    target: TargetModel,
    branches: Seq<BranchModel>,
) -> Flow<Seq<BranchStatusModel>> {
    ask_diffs(s, RequestModel::DiffWorkdir(target.sha)).and_then(
        |diff: Seq<FileDiffModel>, s: Seq<ReplyModel>|
            branches_to_serve_flow(s, branches, diff).and_then(
                |branches: Seq<BranchModel>, s: Seq<ReplyModel>|
                    share_out_flow(s, diff, branches).and_then(
                        |statuses: Seq<BranchStatusModel>, s: Seq<ReplyModel>|
                            write_statuses_flow(s, statuses, 0).and_then(
                                |u: (), s: Seq<ReplyModel>| Flow::Done(statuses, s),
                            ),
                    ),
            ),
    )
}

/// The status of the applied branches, compared with the target.
pub fn get_applied_status(tape: &mut Tape, default_target: &Target, virtual_branches: Vec<Branch>) -> (r:
    Result<Vec<BranchStatus>, Stop>)
    ensures
        outcome_seq(r, final(tape)@) == get_applied_status_flow(
            old(tape)@,
            default_target@,
            views(virtual_branches@),
        ),
{
    let diff = tape.ask_diffs(Request::DiffWorkdir(default_target.sha))?;
    let branches = if virtual_branches.len() == 0 && diff.len() > 0 {
        let branch = create_virtual_branch(tape, &BranchCreateRequest::new())?;
        let mut branches: Vec<Branch> = Vec::new();
        branches.push(branch);
        assert(views(branches@) =~= seq![branch@]);
        branches
    } else {
        sort_by_order(virtual_branches)
    };
    let statuses = share_out(tape, diff, &branches)?;
    write_statuses(tape, &statuses)?;
    Ok(statuses)
}

/// How finding the status of an unapplied branch comes out: what differs between the target and the
/// tree of the branch. Ownership does not matter here.
pub open spec fn non_applied_status_flow(
    s: Seq<ReplyModel>,
    target: TargetModel,
    branch: BranchModel,
) -> Flow<BranchStatusModel> {
    if branch.applied {
        fail(BranchErrorModel::BranchIsApplied(branch.name))
    } else {
        ask_unit(s, RequestModel::FindTree(branch.tree)).and_then(
            |u: (), s: Seq<ReplyModel>|
                ask_commit(s, RequestModel::FindCommit(target.sha)).and_then(
                    |commit: CommitModel, s: Seq<ReplyModel>|
                        ask_diffs(s, RequestModel::DiffTrees(commit.tree, branch.tree)).and_then(
                            |files: Seq<FileDiffModel>, s: Seq<ReplyModel>|
                                Flow::Done(BranchStatusModel { branch, files }, s),
                        ),
                ),
        )
    }
}

/// How finding the status of the unapplied branches comes out, behind those found already.
pub open spec fn get_non_applied_status_flow(
    s: Seq<ReplyModel>,
    target: TargetModel,
    branches: Seq<BranchModel>,
    done: Seq<BranchStatusModel>,
) -> Flow<Seq<BranchStatusModel>>
    decreases branches.len() - done.len(),
{
    let i = done.len() as int;
    if i >= branches.len() {
        Flow::Done(done, s)
    } else {
        non_applied_status_flow(s, target, branches[i]).and_then(
            |status: BranchStatusModel, s: Seq<ReplyModel>|
                get_non_applied_status_flow(s, target, branches, done.push(status)),
        )
    }
}

/// The status of the unapplied branches, compared with the target.
pub fn get_non_applied_status(
    tape: &mut Tape,
    default_target: &Target,
    virtual_branches: &Vec<Branch>,
) -> (r: Result<Vec<BranchStatus>, Stop>)
    ensures
        outcome_seq(r, final(tape)@) == get_non_applied_status_flow(
            old(tape)@,
            default_target@,
            views(virtual_branches@),
            seq![],
        ),
{
    let mut statuses: Vec<BranchStatus> = Vec::new();
    let mut i: usize = 0;
    assert(views(statuses@) =~= seq![]);
    while i < virtual_branches.len()
        invariant
            i == statuses@.len() <= virtual_branches@.len(),
            get_non_applied_status_flow(
                old(tape)@,
                default_target@,
                views(virtual_branches@),
                seq![],
            ) == get_non_applied_status_flow(
                tape@,
                default_target@,
                views(virtual_branches@),
                views(statuses@),
            ),
        decreases virtual_branches@.len() - i,
    {
        let branch = &virtual_branches[i];
        if branch.applied {
            return Err(Stop::Fail(BranchError::BranchIsApplied(branch.name.clone())));
        }
        tape.ask_unit(Request::FindTree(branch.tree))?;
        let commit = tape.ask_commit(Request::FindCommit(default_target.sha))?;
        let files = tape.ask_diffs(Request::DiffTrees(commit.tree, branch.tree))?;
        let ghost before = statuses@;
        statuses.push(BranchStatus { branch: branch.clone(), files });
        proof {
            lemma_views_push(before, statuses@.last());
        }
        i = i + 1;
    }
    Ok(statuses)
}

/// How finding the status of all branches comes out: first the applied ones, then the others.
/// Without a target there is none.
pub open spec fn get_status_by_branch_flow(s: Seq<ReplyModel>) -> Flow<Seq<BranchStatusModel>> {
    ask_unit(s, RequestModel::OpenSession).and_then(
        |u: (), s: Seq<ReplyModel>|
            get_default_target_flow(s).and_then(
                |target: Option<TargetModel>, s: Seq<ReplyModel>|
                    match target {
                        None => Flow::Done(seq![], s),
                        Some(target) => ask_branches(s, RequestModel::ListBranches).and_then(
                            |branches: Seq<BranchModel>, s: Seq<ReplyModel>|
                                get_applied_status_flow(s, target, applied_only(branches)).and_then(
                                    |applied: Seq<BranchStatusModel>, s: Seq<ReplyModel>|
                                        get_non_applied_status_flow(
                                            s,
                                            target,
                                            unapplied_only(branches),
                                            seq![],
                                        ).and_then(
                                            |unapplied: Seq<BranchStatusModel>, s: Seq<ReplyModel>|
                                                Flow::Done(applied + unapplied, s),
                                        ),
                                ),
                        ),
                    },
            ),
    )
}

/// The status of all branches.
pub fn get_status_by_branch(tape: &mut Tape) -> (r: Result<Vec<BranchStatus>, Stop>)
    ensures
        outcome_seq(r, final(tape)@) == get_status_by_branch_flow(old(tape)@),
{
    tape.ask_unit(Request::OpenSession)?;
    let default_target = match get_default_target(tape)? {
        Some(target) => target,
        None => {
            let none: Vec<BranchStatus> = Vec::new();
            assert(views(none@) =~= seq![]);
            return Ok(none);
        },
    };
    let branches = tape.ask_branches(Request::ListBranches)?;
    let mut statuses = get_applied_status(tape, &default_target, keep_applied(&branches, true))?;
    let mut unapplied = get_non_applied_status(
        tape,
        &default_target,
        &keep_applied(&branches, false),
    )?;
    let ghost applied = views(statuses@);
    let ghost others = views(unapplied@);
    statuses.append(&mut unapplied);
    assert(views(statuses@) =~= applied + others);
    Ok(statuses)
}

} // verus!
