//! Pushing branches to their remote.

use crate::branch::{Branch, BranchModel, TargetModel};
use crate::create::{upstream_for, upstream_of};
use crate::naming::{
    dedup_fmt, unique_name, unique_name_is_new, RemoteBranchModel, RemoteBranchName, LARGEST_NUMBER,
};
use crate::objects::BranchId;
use crate::protocol::{
    ask_branch, ask_remote_branches, ask_unit, fail, outcome, outcome_opt, reply_to, BranchError,
    BranchErrorModel, Failure, FailureModel, Flow, Reply, ReplyModel, Request, RequestModel, Stop,
    StopModel, Tape,
};
use crate::seqs::views;
use crate::session::{get_default_target, get_default_target_flow};
use crate::text::{decimal, lowercase, to_lowercase};
use vstd::prelude::*;

verus! {

/// Why pushing fails.
#[derive(Debug)]
pub enum PushError {
    /// The remote refused, or could not be reached.
    Remote(Failure),
    /// Anything else.
    Other(BranchError),
}

/// Why pushing stops.
#[derive(Debug)]
pub enum PushStop {
    /// The request has no reply yet.
    Ask(Request),
    /// It fails.
    Fail(PushError),
}

/// The names of some remote branches, in lower case.
pub open spec fn lower_names(branches: Seq<RemoteBranchModel>) -> Seq<Seq<char>> {
    Seq::new(branches.len(), |i: int| lowercase(branches[i].branch))
}

/// The branch of the same remote whose name is not yet among those taken.
pub open spec fn with_free_name(wanted: RemoteBranchModel, taken: Seq<Seq<char>>) -> RemoteBranchModel {
    RemoteBranchModel {
        remote: wanted.remote,
        branch: unique_name(taken, wanted.branch, "-"@),
    }
}

/// The branch of the same remote whose name is not yet among those taken.
pub fn free_branch(wanted: &RemoteBranchName, taken: &Vec<String>) -> (free: RemoteBranchName)
    ensures
        free@ == with_free_name(wanted@, views(taken@)),
{
    RemoteBranchName {
        remote: wanted.remote.clone(),
        branch: dedup_fmt(taken, wanted.branch.as_str(), "-"),
    }
}

/// The names of some remote branches, in lower case.
fn names_in_lower_case(branches: &Vec<RemoteBranchName>) -> (names: Vec<String>)
    ensures
        views(names@) == lower_names(views(branches@)),
{
    let mut names: Vec<String> = Vec::new();
    let mut i: usize = 0;
    while i < branches.len()
        invariant
            i <= branches@.len(),
            names@.len() == i,
            forall|k: int|
                0 <= k < i ==> (#[trigger] names@[k])@ == lowercase(branches@[k]@.branch),
        decreases branches@.len() - i,
    {
        names.push(to_lowercase(branches[i].branch.as_str()));
        i = i + 1;
    }
    assert(views(names@) =~= lower_names(views(branches@)));
    names
}

/// How finding where a branch is pushed to comes out: to its upstream branch, or else to one of the
/// target's remote that has its slug for its name, made unique among all remote branches. Remotes
/// may not tell upper from lower case.
pub open spec fn push_target_flow(s: Seq<ReplyModel>, branch: BranchModel) -> Flow<
    RemoteBranchModel,
> {
    match branch.upstream {
        Some(upstream) => Flow::Done(upstream, s),
        None => get_default_target_flow(s).and_then(
            |target: Option<TargetModel>, s: Seq<ReplyModel>|
                match target {
                    None => fail(BranchErrorModel::NoDefaultTarget),
                    Some(target) => ask_remote_branches(s, RequestModel::ListRemoteBranches).and_then(
                        |branches: Seq<RemoteBranchModel>, s: Seq<ReplyModel>|
                            Flow::Done(
                                with_free_name(
                                    upstream_of(target, branch.name),
                                    lower_names(branches),
                                ),
                                s,
                            ),
                    ),
                },
        ),
    }
}

/// How asking something of the remote comes out: done, or refused.
pub open spec fn ask_remote_end(s: Seq<ReplyModel>, request: RequestModel) -> Flow<
    Option<FailureModel>,
> {
    reply_to(s, request).and_then(
        |reply: ReplyModel, s: Seq<ReplyModel>|
            match reply {
                ReplyModel::Unit => Flow::Done(None, s),
                ReplyModel::Failed(failure) => Flow::Done(Some(failure), s),
                _ => fail(BranchErrorModel::UnexpectedReply),
            },
    )
}

/// How pushing a branch comes out; it ends with what the remote has against it, if anything. A
/// branch that was pushed is stored with where it was pushed to.
pub open spec fn push_flow(s: Seq<ReplyModel>, id: BranchId, force: bool) -> Flow<
    Option<FailureModel>,
> {
    ask_unit(s, RequestModel::OpenSession).and_then(
        |u: (), s: Seq<ReplyModel>|
            ask_branch(s, RequestModel::ReadBranch(id)).and_then(
                |branch: BranchModel, s: Seq<ReplyModel>|
                    push_target_flow(s, branch).and_then(
                        |remote: RemoteBranchModel, s: Seq<ReplyModel>|
                            push_to_flow(s, branch, remote, force),
                    ),
            ),
    )
}

/// How pushing a branch to a remote branch comes out.
pub open spec fn push_to_flow(
    s: Seq<ReplyModel>,
    branch: BranchModel,
    remote: RemoteBranchModel,
    force: bool,
) -> Flow<Option<FailureModel>> {
    ask_remote_end(s, RequestModel::Push { head: branch.head, branch: remote, force }).and_then(
        |refused: Option<FailureModel>, s: Seq<ReplyModel>|
            match refused {
                Some(failure) => Flow::Done(Some(failure), s),
                None => ask_unit(
                    s,
                    RequestModel::WriteBranch(
                        BranchModel {
                            upstream: Some(remote),
                            upstream_head: Some(branch.head),
                            ..branch
                        },
                    ),
                ).and_then(
                    |u: (), s: Seq<ReplyModel>|
                        ask_remote_end(s, RequestModel::Fetch(remote.remote)),
                ),
            },
    )
}

/// Where a branch is pushed to.
fn push_target(tape: &mut Tape, branch: &Branch) -> (r: Result<RemoteBranchName, Stop>)
    ensures
        outcome(r, final(tape)@) == push_target_flow(old(tape)@, branch@),
{
    if let Some(upstream) = &branch.upstream {
        return Ok(upstream.clone());
    }
    match get_default_target(tape)? {
        Some(target) => {
            let wanted = upstream_for(&target, branch.name.as_str());
            let branches = tape.ask_remote_branches(Request::ListRemoteBranches)?;
            let taken = names_in_lower_case(&branches);
            Ok(free_branch(&wanted, &taken))
        },
        None => Err(Stop::Fail(BranchError::NoDefaultTarget)),
    }
}

/// Asks something of the remote.
fn ask_of_remote(tape: &mut Tape, request: Request) -> (r: Result<Option<Failure>, Stop>)
    ensures
        outcome_opt(r, final(tape)@) == ask_remote_end(old(tape)@, request@),
{
    match tape.reply_to(request)? {
        Reply::Unit => Ok(None),
        Reply::Failed(failure) => Ok(Some(failure.clone())),
        _ => Err(Stop::Fail(BranchError::UnexpectedReply)),
    }
}

/// Pushes a branch, and gives back what the remote has against it.
fn try_push(tape: &mut Tape, branch_id: BranchId, with_force: bool) -> (r: Result<
    Option<Failure>,
    Stop,
>)
    ensures
        outcome_opt(r, final(tape)@) == push_flow(
            old(tape)@,
            branch_id,
            with_force,
        ),
{
    tape.ask_unit(Request::OpenSession)?;
    let branch = tape.ask_branch(Request::ReadBranch(branch_id))?;
    let remote = push_target(tape, &branch)?;
    let head = branch.head;
    let refused = ask_of_remote(
        tape,
        Request::Push { head, branch: remote.clone(), force: with_force },
    )?;
    if let Some(failure) = refused {
        return Ok(Some(failure));
    }
    let mut pushed = branch;
    pushed.upstream = Some(remote.clone());
    pushed.upstream_head = Some(head);
    tape.ask_unit(Request::WriteBranch(pushed))?;
    ask_of_remote(tape, Request::Fetch(remote.remote.clone()))
}

/// Pushes a branch to its remote.
pub fn push(tape: &mut Tape, branch_id: BranchId, with_force: bool) -> (r: Result<(), PushStop>)
    ensures
        (match r {
            Ok(_) => Flow::Done(None, final(tape)@),
            Err(PushStop::Fail(PushError::Remote(failure))) => Flow::Done(
                Some(failure@),
                final(tape)@,
            ),
            Err(PushStop::Fail(PushError::Other(error))) => fail(error@),
            Err(PushStop::Ask(request)) => Flow::Stop(StopModel::Ask(request@)),
        }) == push_flow(old(tape)@, branch_id, with_force),
{
    match try_push(tape, branch_id, with_force) {
        Ok(None) => Ok(()),
        Ok(Some(failure)) => Err(PushStop::Fail(PushError::Remote(failure))),
        Err(Stop::Ask(request)) => Err(PushStop::Ask(request)),
        Err(Stop::Fail(error)) => Err(PushStop::Fail(PushError::Other(error))),
    }
}

/// A branch without an upstream branch is pushed to one whose name no remote branch has, upper and
/// lower case alike, as long as none already stands just past the largest number.
pub proof fn a_branch_is_first_pushed_to_a_new_branch(
    wanted: RemoteBranchModel,
    branches: Seq<RemoteBranchModel>,
)
    requires
        !lower_names(branches).contains(
            wanted.branch + "-"@ + decimal((LARGEST_NUMBER + 1) as nat),
        ),
    ensures
        with_free_name(wanted, lower_names(branches)).remote == wanted.remote,
        !lower_names(branches).contains(with_free_name(wanted, lower_names(branches)).branch),
{
    unique_name_is_new(lower_names(branches), wanted.branch, "-"@);
}

/// A branch that has an upstream branch is pushed there, without a look at the target or at other
/// remote branches.
pub proof fn a_branch_is_pushed_to_its_upstream_branch(s: Seq<ReplyModel>, branch: BranchModel)
    requires
        branch.upstream is Some,
    ensures
        push_target_flow(s, branch) == Flow::Done(branch.upstream->0, s),
{
}

} // verus!
