//! Reading what is stored: the default target and the branches.

use crate::branch::{Branch, BranchModel, Target, TargetModel};
use crate::protocol::{
    ask_branches, ask_unit, fail, outcome, outcome_opt, outcome_seq, reply_to, BranchError,
    BranchErrorModel, FailureKind, Flow, Reply, ReplyModel, Request, RequestModel, Stop,
    StopModel, Tape,
};
use crate::seqs::{lemma_filter_ends, lemma_filter_next, lemma_views_push, views};
use vstd::prelude::*;

verus! {

/// How reading the default target comes out: where none is set there is none.
pub open spec fn get_default_target_flow(s: Seq<ReplyModel>) -> Flow<Option<TargetModel>> {
    match reply_to(s, RequestModel::ReadDefaultTarget) {
        Flow::Done(ReplyModel::Target(target), rest) => Flow::Done(Some(target), rest),
        Flow::Done(ReplyModel::Failed(failure), rest) => if failure.kind == FailureKind::NotFound {
            Flow::Done(None, rest)
        } else {
            fail(BranchErrorModel::Outside(failure))
        },
        Flow::Done(_, _) => fail(BranchErrorModel::UnexpectedReply),
        Flow::Stop(stop) => Flow::Stop(stop),
    }
}

/// Reads the default target, if one is set.
pub fn get_default_target(tape: &mut Tape) -> (r: Result<Option<Target>, Stop>)
    ensures
        outcome_opt(r, final(tape)@) == get_default_target_flow(old(tape)@),
{
    match tape.reply_to(Request::ReadDefaultTarget)? {
        Reply::Target(target) => Ok(Some(target.clone())),
        Reply::Failed(failure) => {
            if failure.kind == FailureKind::NotFound {
                Ok(None)
            } else {
                Err(Stop::Fail(BranchError::Outside(failure.clone())))
            }
        },
        _ => Err(Stop::Fail(BranchError::UnexpectedReply)),
    }
}

/// The branches that are applied.
pub open spec fn applied_only(branches: Seq<BranchModel>) -> Seq<BranchModel> {
    branches.filter(|b: BranchModel| b.applied)
}

/// The branches that are not applied.
pub open spec fn unapplied_only(branches: Seq<BranchModel>) -> Seq<BranchModel> {
    branches.filter(|b: BranchModel| !b.applied)
}

/// The branches of which `applied` is true, or of which it is false.
pub(crate) fn keep_applied(branches: &Vec<Branch>, applied: bool) -> (kept: Vec<Branch>)
    ensures
        applied ==> views(kept@) == applied_only(views(branches@)),
        !applied ==> views(kept@) == unapplied_only(views(branches@)),
{
    let ghost all = views(branches@);
    let ghost keep = if applied {
        |b: BranchModel| b.applied
    } else {
        |b: BranchModel| !b.applied
    };
    let mut kept: Vec<Branch> = Vec::new();
    let mut i: usize = 0;
    proof {
        lemma_filter_ends(all, keep);
        assert(views(kept@) =~= seq![]);
    }
    while i < branches.len()
        invariant
            i <= branches@.len(),
            all == views(branches@),
            forall|b: BranchModel| #[trigger] keep(b) == (b.applied == applied),
            views(kept@) == all.take(i as int).filter(keep),
        decreases branches@.len() - i,
    {
        let ghost before = kept@;
        proof {
            lemma_filter_next(all, i as int, keep);
        }
        if branches[i].applied == applied {
            kept.push(branches[i].clone());
            proof {
                lemma_views_push(before, kept@.last());
            }
        }
        i = i + 1;
    }
    kept
}

/// How listing the applied branches comes out.
pub open spec fn list_applied_vbranches_flow(s: Seq<ReplyModel>) -> Flow<Seq<BranchModel>> {
    ask_unit(s, RequestModel::OpenSession).and_then(
        |u: (), s: Seq<ReplyModel>|
            ask_branches(s, RequestModel::ListBranches).and_then(
                |branches: Seq<BranchModel>, s: Seq<ReplyModel>|
                    Flow::Done(applied_only(branches), s),
            ),
    )
}

/// Lists the applied branches.
pub fn list_applied_vbranches(tape: &mut Tape) -> (r: Result<Vec<Branch>, Stop>)
    ensures
        outcome_seq(r, final(tape)@) == list_applied_vbranches_flow(old(tape)@),
{
    tape.ask_unit(Request::OpenSession)?;
    let branches = tape.ask_branches(Request::ListBranches)?;
    Ok(keep_applied(&branches, true))
}

/// How noting every branch from the given one on as unapplied comes out.
pub open spec fn unapply_from_flow(s: Seq<ReplyModel>, branches: Seq<BranchModel>, i: int) -> Flow<()>
    decreases branches.len() - i,
{
    if i < 0 || i >= branches.len() {
        Flow::Done((), s)
    } else {
        ask_unit(
            s,
            RequestModel::WriteBranch(BranchModel { applied: false, ..branches[i] }),
        ).and_then(|u: (), s: Seq<ReplyModel>| unapply_from_flow(s, branches, i + 1))
    }
}

/// How noting all branches as unapplied comes out: each applied branch is stored with nothing
/// changed but that it is not applied.
pub open spec fn mark_all_unapplied_flow(s: Seq<ReplyModel>) -> Flow<()> {
    list_applied_vbranches_flow(s).and_then(
        |applied: Seq<BranchModel>, s: Seq<ReplyModel>| unapply_from_flow(s, applied, 0),
    )
}

/// Notes all branches as unapplied, without touching the working directory.
pub fn mark_all_unapplied(tape: &mut Tape) -> (r: Result<(), Stop>)
    ensures
        outcome(r, final(tape)@) == mark_all_unapplied_flow(old(tape)@),
{
    let applied = list_applied_vbranches(tape)?;
    let ghost all = views(applied@);
    let mut i: usize = 0;
    while i < applied.len()
        invariant
            i <= applied@.len(),
            all == views(applied@),
            mark_all_unapplied_flow(old(tape)@) == unapply_from_flow(tape@, all, i as int),
        decreases applied@.len() - i,
    {
        let mut branch = applied[i].clone();
        branch.applied = false;
        tape.ask_unit(Request::WriteBranch(branch))?;
        i = i + 1;
    }
    Ok(())
}

/// The replies that a session, its branches and some stored branches make.
pub open spec fn branches_and_stores(branches: Seq<BranchModel>, stored: nat) -> Seq<ReplyModel> {
    seq![ReplyModel::Unit, ReplyModel::Branches(branches)] + Seq::new(
        stored,
        |i: int| ReplyModel::Unit,
    )
}

proof fn lemma_unapply_from(branches: Seq<BranchModel>, stored: nat, i: int)
    requires
        0 <= i,
        i + stored <= branches.len(),
    ensures
        unapply_from_flow(Seq::new(stored, |i: int| ReplyModel::Unit), branches, i) == (if i
            + stored < branches.len() {
            Flow::Stop(
                StopModel::Ask(
                    RequestModel::WriteBranch(
                        BranchModel { applied: false, ..branches[i + stored] },
                    ),
                ),
            )
        } else {
            Flow::Done((), seq![])
        }),
    decreases stored,
{
    let s = Seq::new(stored, |i: int| ReplyModel::Unit);
    if stored > 0 {
        let fewer = (stored - 1) as nat;
        assert(s.skip(1) =~= Seq::new(fewer, |i: int| ReplyModel::Unit));
        lemma_unapply_from(branches, fewer, i + 1);
    } else {
        assert(s =~= seq![]);
    }
}

/// When all branches are noted as unapplied, exactly the applied ones are stored, one after the
/// other, with nothing changed but that they are not applied.
pub proof fn all_applied_branches_are_stored_as_unapplied(
    branches: Seq<BranchModel>,
    stored: nat,
)
    requires
        stored <= applied_only(branches).len(),
    ensures
        mark_all_unapplied_flow(branches_and_stores(branches, stored)) == (if stored
            < applied_only(branches).len() {
            Flow::Stop(
                StopModel::Ask(
                    RequestModel::WriteBranch(
                        BranchModel { applied: false, ..applied_only(branches)[stored as int] },
                    ),
                ),
            )
        } else {
            Flow::Done((), seq![])
        }),
{
    let s = branches_and_stores(branches, stored);
    assert(s.skip(1).skip(1) =~= Seq::new(stored, |i: int| ReplyModel::Unit));
    lemma_unapply_from(applied_only(branches), stored, 0);
}

} // verus!
