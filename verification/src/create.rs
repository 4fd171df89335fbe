//! Making, changing and deleting virtual branches.

use crate::branch::{
    Branch, BranchCreateModel, BranchCreateRequest, BranchModel, BranchUpdateModel,
    BranchUpdateRequest, CommitModel, Target, TargetModel,
};
use crate::naming::{
    dedup, remote_branch_of, remote_prefix, slug_of, slugify, unique_name, unique_name_is_new,
    RemoteBranchModel, RemoteBranchName, LARGEST_NUMBER,
};
use crate::objects::BranchId;
use crate::ownership::{
    is_free_of, same_ownership, take_from, taken_is_gone, taking_gives_nothing_back, FileOwnership,
    FileOwnershipModel, Ownership,
};
use crate::protocol::{
    ask_branch, ask_branches, ask_commit, ask_id, ask_millis, ask_target, ask_unit, fail, outcome,
    BranchError, BranchErrorModel, Flow, ReplyModel, Request, RequestModel, Stop,
    StopModel, Tape,
};
use crate::seqs::{
    lemma_filter_ends, lemma_filter_next, lemma_views_push, sort_with_keys, sorted_by_key,
    sorting_orders_the_elements, views,
};
use crate::session::{get_default_target, get_default_target_flow};
use crate::text::{decimal, lemma_first_of};
use vstd::prelude::*;

verus! {

/// The applied branches other than the one with the given id.
pub open spec fn other_applied(branches: Seq<BranchModel>, id: BranchId) -> Seq<BranchModel> {
    branches.filter(|b: BranchModel| b.applied && b.id != id)
}

/// The applied branches other than the one with the given id.
pub(crate) fn keep_other_applied(branches: &Vec<Branch>, id: BranchId) -> (kept: Vec<Branch>)
    ensures
        views(kept@) == other_applied(views(branches@), id),
{
    let ghost all = views(branches@);
    let ghost keep = |b: BranchModel| b.applied && b.id != id;
    let mut kept: Vec<Branch> = Vec::new();
    let mut i: usize = 0;
    proof {
        lemma_filter_ends(all, keep);
        assert(views(kept@) =~= seq![]);
    }
    while i < branches.len()
        invariant
            i <= branches@.len(),
            all == views(branches@),
            keep == (|b: BranchModel| b.applied && b.id != id),
            views(kept@) == all.take(i as int).filter(keep),
        decreases branches@.len() - i,
    {
        let ghost before = kept@;
        proof {
            lemma_filter_next(all, i as int, keep);
        }
        if branches[i].applied && branches[i].id != id {
            kept.push(branches[i].clone());
            proof {
                lemma_views_push(before, kept@.last());
            }
        }
        i = i + 1;
    }
    kept
}

/// A branch without what a claim takes from it.
pub open spec fn without_claim(branch: BranchModel, claim: FileOwnershipModel) -> BranchModel {
    BranchModel { ownership: take_from(branch.ownership, claim).1, ..branch }
}

/// How taking a claim from the branches from the given one on comes out: a branch that something
/// is taken from is stored.
pub open spec fn take_claim_flow(
    s: Seq<ReplyModel>,
    branches: Seq<BranchModel>,
    claim: FileOwnershipModel,
    i: int,
) -> Flow<Seq<BranchModel>>
    decreases branches.len() - i,
{
    if i < 0 || i >= branches.len() {
        Flow::Done(branches, s)
    } else {
        let branch = without_claim(branches[i], claim);
        let written = if take_from(branches[i].ownership, claim).0.len() > 0 {
            ask_unit(s, RequestModel::WriteBranch(branch))
        } else {
            Flow::Done((), s)
        };
        written.and_then(
            |u: (), s: Seq<ReplyModel>|
                take_claim_flow(s, branches.update(i, branch), claim, i + 1),
        )
    }
}

/// How taking the claims from the given one on from the branches comes out.
pub open spec fn take_claims_flow(
    s: Seq<ReplyModel>,
    branches: Seq<BranchModel>,
    claims: Seq<FileOwnershipModel>,
    i: int,
) -> Flow<Seq<BranchModel>>
    decreases claims.len() - i,
{
    if i < 0 || i >= claims.len() {
        Flow::Done(branches, s)
    } else {
        take_claim_flow(s, branches, claims[i], 0).and_then(
            |branches: Seq<BranchModel>, s: Seq<ReplyModel>|
                take_claims_flow(s, branches, claims, i + 1),
        )
    }
}

/// How giving an ownership to a branch comes out: every other applied branch gives up what the
/// ownership claims, and is stored where it gave up anything; the branch itself owns then what
/// the ownership says. Where the branch owns that already, nothing happens.
pub open spec fn set_ownership_flow(
    s: Seq<ReplyModel>,
    target: BranchModel,
    ownership: Seq<FileOwnershipModel>,
) -> Flow<BranchModel> {
    if same_ownership(target.ownership, ownership) {
        Flow::Done(target, s)
    } else {
        ask_branches(s, RequestModel::ListBranches).and_then(
            |branches: Seq<BranchModel>, s: Seq<ReplyModel>|
                take_claims_flow(s, other_applied(branches, target.id), ownership, 0).and_then(
                    |rest: Seq<BranchModel>, s: Seq<ReplyModel>|
                        Flow::Done(BranchModel { ownership, ..target }, s),
                ),
        )
    }
}

/// Takes a claim from all the branches.
fn take_claim(tape: &mut Tape, branches: &mut Vec<Branch>, claim: &FileOwnership) -> (r: Result<
    (),
    Stop,
>)
    ensures
        (match r {
            Ok(_) => Flow::Done(views(final(branches)@), final(tape)@),
            Err(stop) => Flow::Stop(stop@),
        }) == take_claim_flow(old(tape)@, views(old(branches)@), claim@, 0),
{
    let mut i: usize = 0;
    while i < branches.len()
        invariant
            i <= branches@.len(),
            take_claim_flow(old(tape)@, views(old(branches)@), claim@, 0) == take_claim_flow(
                tape@,
                views(branches@),
                claim@,
                i as int,
            ),
        decreases branches@.len() - i,
    {
        let ghost before = views(branches@);
        let mut branch = branches[i].clone();
        let taken: Vec<FileOwnership> = branch.ownership.take(claim);
        let copy = branch.clone();
        branches.set(i, branch);
        assert(views(branches@) =~= before.update(i as int, without_claim(before[i as int], claim@)));
        if taken.len() > 0 {
            tape.ask_unit(Request::WriteBranch(copy))?;
        }
        i = i + 1;
    }
    Ok(())
}

/// Gives an ownership to a branch, and takes it from all other applied branches.
pub fn set_ownership(tape: &mut Tape, target: &mut Branch, ownership: &Ownership) -> (r: Result<
    (),
    Stop,
>)
    ensures
        (match r {
            Ok(_) => Flow::Done(final(target)@, final(tape)@),
            Err(stop) => Flow::Stop(stop@),
        }) == set_ownership_flow(old(tape)@, old(target)@, ownership@),
        r is Err ==> final(target)@ == old(target)@,
{
    if target.ownership.same(ownership) {
        return Ok(());
    }
    let branches = tape.ask_branches(Request::ListBranches)?;
    let mut others = keep_other_applied(&branches, target.id);
    let ghost all = others;
    let ghost s = tape@;
    let mut i: usize = 0;
    while i < ownership.files.len()
        invariant
            i <= ownership.files@.len(),
            take_claims_flow(s, views(all@), ownership@, 0) == take_claims_flow(
                tape@,
                views(others@),
                ownership@,
                i as int,
            ),
            *target == *old(target),
            !same_ownership(target@.ownership, ownership@),
            set_ownership_flow(old(tape)@, old(target)@, ownership@) == take_claims_flow(
                s,
                views(all@),
                ownership@,
                0,
            ).and_then(
                |rest: Seq<BranchModel>, s: Seq<ReplyModel>|
                    Flow::Done(BranchModel { ownership: ownership@, ..target@ }, s),
            ),
        decreases ownership.files@.len() - i,
    {
        take_claim(tape, &mut others, &ownership.files[i])?;
        i = i + 1;
    }
    target.ownership = ownership.clone();
    Ok(())
}

/// The branches in the order in which they are shown.
pub open spec fn by_order(branches: Seq<BranchModel>) -> Seq<BranchModel> {
    sorted_by_key(branches, |b: BranchModel| b.order as int)
}

/// Sorts the branches into the order in which they are shown.
pub(crate) fn sort_by_order(branches: Vec<Branch>) -> (sorted: Vec<Branch>)
    ensures
        views(sorted@) == by_order(views(branches@)),
{
    let mut keys: Vec<usize> = Vec::new();
    let mut i: usize = 0;
    while i < branches.len()
        invariant
            i <= branches@.len(),
            keys@.len() == i,
            forall|k: int| 0 <= k < i ==> keys@[k] == (#[trigger] branches@[k])@.order,
        decreases branches@.len() - i,
    {
        keys.push(branches[i].order);
        i = i + 1;
    }
    sort_with_keys(branches, keys, Ghost(|b: BranchModel| b.order as int))
}

/// The names of some branches.
pub open spec fn names_of(branches: Seq<BranchModel>) -> Seq<Seq<char>> {
    Seq::new(branches.len(), |i: int| branches[i].name)
}

/// The names of some branches.
pub(crate) fn branch_names(branches: &Vec<Branch>) -> (names: Vec<String>)
    ensures
        views(names@) == names_of(views(branches@)),
{
    let mut names: Vec<String> = Vec::new();
    let mut i: usize = 0;
    while i < branches.len()
        invariant
            i <= branches@.len(),
            names@.len() == i,
            forall|k: int| 0 <= k < i ==> (#[trigger] names@[k])@ == branches@[k]@.name,
        decreases branches@.len() - i,
    {
        names.push(branches[i].name.clone());
        i = i + 1;
    }
    assert(views(names@) =~= names_of(views(branches@)));
    names
}

/// The place of the `i`th branch once there is room at place `order`.
pub open spec fn moved_over(i: int, order: int) -> int {
    if i < order {
        i
    } else {
        i + 1
    }
}

/// How making room at place `order` comes out, from the `i`th branch on: a branch whose place
/// changes is stored with its new place.
pub open spec fn make_room_flow(
    s: Seq<ReplyModel>,
    branches: Seq<BranchModel>,
    order: int,
    i: int,
) -> Flow<()>
    decreases branches.len() - i,
{
    if i < 0 || i >= branches.len() {
        Flow::Done((), s)
    } else {
        let place = moved_over(i, order);
        let written = if branches[i].order != place {
            ask_unit(
                s,
                RequestModel::WriteBranch(BranchModel { order: place as usize, ..branches[i] }),
            )
        } else {
            Flow::Done((), s)
        };
        written.and_then(
            |u: (), s: Seq<ReplyModel>| make_room_flow(s, branches, order, i + 1),
        )
    }
}

/// Where a new branch is to stand among `n` branches: where it was asked for, but not past the
/// end; at the end where it was not asked for.
pub open spec fn place_of_new(order: Option<usize>, n: nat) -> int {
    match order {
        Some(order) => if order < n {
            order as int
        } else {
            n as int
        },
        None => n as int,
    }
}

/// The name that a new branch is to have: the one asked for, or else that of any virtual branch.
pub open spec fn wanted_name(name: Option<Seq<char>>) -> Seq<char> {
    match name {
        Some(name) => name,
        None => "Virtual branch"@,
    }
}

/// The name that a new branch gets: the one that it is to have, made unique.
pub open spec fn name_of_new(name: Option<Seq<char>>, branches: Seq<BranchModel>) -> Seq<char> {
    unique_name(names_of(branches), wanted_name(name), seq![' '])
}

/// A new branch.
pub open spec fn new_branch(
    id: BranchId,
    name: Seq<char>,
    target: TargetModel,
    commit: CommitModel,
    now: u128,
    order: int,
) -> BranchModel {
    BranchModel {
        id,
        name,
        notes: seq![],
        applied: true,
        upstream: None,
        upstream_head: None,
        created_timestamp_ms: now,
        updated_timestamp_ms: now,
        tree: commit.tree,
        head: target.sha,
        ownership: seq![],
        order: order as usize,
    }
}

/// How making a branch comes out once the branches, in order, are known.
pub open spec fn create_among_flow(
    s: Seq<ReplyModel>,
    create: BranchCreateModel,
    target: TargetModel,
    commit: CommitModel,
    branches: Seq<BranchModel>,
) -> Flow<BranchModel> {
    let order = place_of_new(create.order, branches.len());
    make_room_flow(s, branches, order, 0).and_then(
        |u: (), s: Seq<ReplyModel>|
            ask_millis(s, RequestModel::Now).and_then(
                |now: u128, s: Seq<ReplyModel>|
                    ask_id(s, RequestModel::NewBranchId).and_then(
                        |id: BranchId, s: Seq<ReplyModel>|
                            {
                                let branch = new_branch(
                                    id,
                                    name_of_new(create.name, branches),
                                    target,
                                    commit,
                                    now,
                                    order,
                                );
                                let owned = match create.ownership {
                                    Some(ownership) => set_ownership_flow(s, branch, ownership),
                                    None => Flow::Done(branch, s),
                                };
                                owned.and_then(
                                    |branch: BranchModel, s: Seq<ReplyModel>|
                                        ask_unit(s, RequestModel::WriteBranch(branch)).and_then(
                                            |u: (), s: Seq<ReplyModel>|
                                                ask_unit(
                                                    s,
                                                    RequestModel::AddBranchReference(branch),
                                                ).and_then(
                                                    |u: (), s: Seq<ReplyModel>|
                                                        Flow::Done(branch, s),
                                                ),
                                        ),
                                )
                            },
                    ),
            ),
    )
}

/// How making a branch comes out. The branch starts at the target, is applied, and stands where
/// it was asked for; the other branches make room.
pub open spec fn create_virtual_branch_flow(s: Seq<ReplyModel>, create: BranchCreateModel) -> Flow<
    BranchModel,
> {
    ask_unit(s, RequestModel::OpenSession).and_then(
        |u: (), s: Seq<ReplyModel>|
            ask_target(s, RequestModel::ReadDefaultTarget).and_then(
                |target: TargetModel, s: Seq<ReplyModel>|
                    ask_commit(s, RequestModel::FindStoreCommit(target.sha)).and_then(
                        |commit: CommitModel, s: Seq<ReplyModel>|
                            ask_branches(s, RequestModel::ListBranches).and_then(
                                |branches: Seq<BranchModel>, s: Seq<ReplyModel>|
                                    create_among_flow(s, create, target, commit, by_order(branches)),
                            ),
                    ),
            ),
    )
}

/// Makes room at place `order`.
fn make_room(tape: &mut Tape, branches: &Vec<Branch>, order: usize) -> (r: Result<(), Stop>)
    ensures
        outcome(r, final(tape)@) == make_room_flow(old(tape)@, views(branches@), order as int, 0),
{
    let mut i: usize = 0;
    while i < branches.len()
        invariant
            i <= branches@.len(),
            make_room_flow(old(tape)@, views(branches@), order as int, 0) == make_room_flow(
                tape@,
                views(branches@),
                order as int,
                i as int,
            ),
        decreases branches@.len() - i,
    {
        let place: usize = if i < order { i } else { i + 1 };
        if branches[i].order != place {
            let mut branch = branches[i].clone();
            branch.order = place;
            tape.ask_unit(Request::WriteBranch(branch))?;
        }
        i = i + 1;
    }
    Ok(())
}

/// Makes a branch.
pub fn create_virtual_branch(tape: &mut Tape, create: &BranchCreateRequest) -> (r: Result<
    Branch,
    Stop,
>)
    ensures
        outcome(r, final(tape)@) == create_virtual_branch_flow(old(tape)@, create@),
{
    tape.ask_unit(Request::OpenSession)?;
    let target = tape.ask_target(Request::ReadDefaultTarget)?;
    let commit = tape.ask_commit(Request::FindStoreCommit(target.sha))?;
    let branches = sort_by_order(tape.ask_branches(Request::ListBranches)?);
    let order: usize = match create.order {
        Some(order) => if order < branches.len() { order } else { branches.len() },
        None => branches.len(),
    };
    make_room(tape, &branches, order)?;
    let now: u128 = tape.ask_millis(Request::Now)?;
    let id = tape.ask_id(Request::NewBranchId)?;
    let names = branch_names(&branches);
    let name: String = match &create.name {
        Some(name) => dedup(&names, name.as_str()),
        None => dedup(&names, "Virtual branch"),
    };
    let mut branch = Branch {
        id,
        name,
        notes: String::new(),
        applied: true,
        upstream: None,
        upstream_head: None,
        created_timestamp_ms: now,
        updated_timestamp_ms: now,
        tree: commit.tree,
        head: target.sha,
        ownership: Ownership::new(),
        order,
    };
    if let Some(ownership) = &create.ownership {
        set_ownership(tape, &mut branch, ownership)?;
    }
    tape.ask_unit(Request::WriteBranch(branch.clone()))?;
    tape.ask_unit(Request::AddBranchReference(branch.clone()))?;
    Ok(branch)
}

/// The branch of the target's remote that has the given slug for its name.
pub open spec fn upstream_with_slug(target: TargetModel, slug: Seq<char>) -> RemoteBranchModel {
    remote_branch_of(
        RemoteBranchModel { remote: target.branch.remote, branch: slug }.refname(),
    )->0
}

/// The upstream branch of a name: the branch of the target's remote that has the slug of the
/// name for its name.
pub open spec fn upstream_of(target: TargetModel, name: Seq<char>) -> RemoteBranchModel {
    upstream_with_slug(target, slug_of(name))
}

/// The branch of the target's remote that has the given slug for its name.
pub fn upstream_from_slug(target: &Target, slug: String) -> (upstream: RemoteBranchName)
    ensures
        upstream@ == upstream_with_slug(target@, slug@),
{
    let named = RemoteBranchName { remote: target.branch.remote.clone(), branch: slug };
    let refname: String = named.refname();
    proof {
        let rest = refname@.skip(remote_prefix().len() as int);
        assert(refname@.take(remote_prefix().len() as int) =~= remote_prefix());
        assert(rest[named@.remote.len() as int] == '/');
        lemma_first_of(rest, '/');
    }
    RemoteBranchName::parse(refname.as_str()).unwrap()
}

/// The upstream branch of a name.
pub(crate) fn upstream_for(target: &Target, name: &str) -> (upstream: RemoteBranchName)
    ensures
        upstream@ == upstream_of(target@, name@),
{
    upstream_from_slug(target, slugify(name))
}

/// The upstream branch of a name lies at the target's remote and has the slug for its name,
/// where the name of the remote holds no slash.
pub proof fn upstream_is_the_slug(target: TargetModel, name: Seq<char>)
    requires
        !target.branch.remote.contains('/'),
    ensures
        upstream_of(target, name) == (RemoteBranchModel {
            remote: target.branch.remote,
            branch: slug_of(name),
        }),
{
    crate::naming::parse_of_refname(
        RemoteBranchModel { remote: target.branch.remote, branch: slug_of(name) },
    );
}

/// How renaming a branch comes out: the new name is made unique among all stored branches, and
/// the git reference follows it.
pub open spec fn rename_flow(s: Seq<ReplyModel>, branch: BranchModel, name: Seq<char>) -> Flow<
    BranchModel,
> {
    ask_branches(s, RequestModel::ListBranches).and_then(
        |branches: Seq<BranchModel>, s: Seq<ReplyModel>|
            ask_unit(s, RequestModel::DeleteBranchReference(branch)).and_then(
                |u: (), s: Seq<ReplyModel>|
                    {
                        let renamed = BranchModel {
                            name: unique_name(names_of(branches), name, seq![' ']),
                            ..branch
                        };
                        ask_unit(s, RequestModel::AddBranchReference(renamed)).and_then(
                            |u: (), s: Seq<ReplyModel>| Flow::Done(renamed, s),
                        )
                    },
            ),
    )
}

/// How naming the upstream branch of a branch comes out.
pub open spec fn set_upstream_flow(s: Seq<ReplyModel>, branch: BranchModel, name: Seq<char>) -> Flow<
    BranchModel,
> {
    get_default_target_flow(s).and_then(
        |target: Option<TargetModel>, s: Seq<ReplyModel>|
            match target {
                Some(target) => Flow::Done(
                    BranchModel { upstream: Some(upstream_of(target, name)), ..branch },
                    s,
                ),
                None => fail(BranchErrorModel::NoRemote),
            },
    )
}

/// A branch with the notes and the place that an update gives it.
pub open spec fn with_notes_and_order(branch: BranchModel, update: BranchUpdateModel) -> BranchModel {
    BranchModel {
        notes: match update.notes {
            Some(notes) => notes,
            None => branch.notes,
        },
        order: match update.order {
            Some(order) => order,
            None => branch.order,
        },
        ..branch
    }
}

/// How changing a branch comes out. What the update leaves out stays as it is.
pub open spec fn update_branch_flow(s: Seq<ReplyModel>, update: BranchUpdateModel) -> Flow<
    BranchModel,
> {
    ask_unit(s, RequestModel::OpenSession).and_then(
        |u: (), s: Seq<ReplyModel>|
            ask_branch(s, RequestModel::ReadBranch(update.id)).and_then(
                |branch: BranchModel, s: Seq<ReplyModel>|
                    (match update.ownership {
                        Some(ownership) => set_ownership_flow(s, branch, ownership),
                        None => Flow::Done(branch, s),
                    }).and_then(
                        |branch: BranchModel, s: Seq<ReplyModel>|
                            (match update.name {
                                Some(name) => rename_flow(s, branch, name),
                                None => Flow::Done(branch, s),
                            }).and_then(
                                |branch: BranchModel, s: Seq<ReplyModel>|
                                    (match update.upstream {
                                        Some(name) => set_upstream_flow(s, branch, name),
                                        None => Flow::Done(branch, s),
                                    }).and_then(
                                        |branch: BranchModel, s: Seq<ReplyModel>|
                                            {
                                                let updated = with_notes_and_order(branch, update);
                                                ask_unit(
                                                    s,
                                                    RequestModel::WriteBranch(updated),
                                                ).and_then(
                                                    |u: (), s: Seq<ReplyModel>|
                                                        Flow::Done(updated, s),
                                                )
                                            },
                                    ),
                            ),
                    ),
            ),
    )
}

/// Changes a branch.
pub fn update_branch(tape: &mut Tape, branch_update: &BranchUpdateRequest) -> (r: Result<
    Branch,
    Stop,
>)
    ensures
        outcome(r, final(tape)@) == update_branch_flow(old(tape)@, branch_update@),
{
    tape.ask_unit(Request::OpenSession)?;
    let mut branch = tape.ask_branch(Request::ReadBranch(branch_update.id))?;
    if let Some(ownership) = &branch_update.ownership {
        set_ownership(tape, &mut branch, ownership)?;
    }
    if let Some(name) = &branch_update.name {
        let branches = tape.ask_branches(Request::ListBranches)?;
        tape.ask_unit(Request::DeleteBranchReference(branch.clone()))?;
        branch.name = dedup(&branch_names(&branches), name.as_str());
        tape.ask_unit(Request::AddBranchReference(branch.clone()))?;
    }
    if let Some(name) = &branch_update.upstream {
        match get_default_target(tape)? {
            Some(target) => {
                branch.upstream = Some(upstream_for(&target, name.as_str()));
            },
            None => {
                return Err(Stop::Fail(BranchError::NoRemote));
            },
        }
    }
    if let Some(notes) = &branch_update.notes {
        branch.notes = notes.clone();
    }
    if let Some(order) = branch_update.order {
        branch.order = order;
    }
    tape.ask_unit(Request::WriteBranch(branch.clone()))?;
    Ok(branch)
}

/// How deleting a branch comes out: it leaves the store, and its git reference goes.
pub open spec fn delete_branch_flow(s: Seq<ReplyModel>, id: BranchId) -> Flow<BranchModel> {
    ask_unit(s, RequestModel::OpenSession).and_then(
        |u: (), s: Seq<ReplyModel>|
            ask_branch(s, RequestModel::ReadBranch(id)).and_then(
                |branch: BranchModel, s: Seq<ReplyModel>|
                    ask_unit(s, RequestModel::DeleteBranch(branch)).and_then(
                        |u: (), s: Seq<ReplyModel>|
                            ask_unit(s, RequestModel::DeleteBranchReference(branch)).and_then(
                                |u: (), s: Seq<ReplyModel>| Flow::Done(branch, s),
                            ),
                    ),
            ),
    )
}

/// Deletes a branch.
pub fn delete_branch(tape: &mut Tape, branch_id: BranchId) -> (r: Result<Branch, Stop>)
    ensures
        outcome(r, final(tape)@) == delete_branch_flow(old(tape)@, branch_id),
{
    tape.ask_unit(Request::OpenSession)?;
    let branch = tape.ask_branch(Request::ReadBranch(branch_id))?;
    tape.ask_unit(Request::DeleteBranch(branch.clone()))?;
    tape.ask_unit(Request::DeleteBranchReference(branch.clone()))?;
    Ok(branch)
}

proof fn lemma_take_claim(
    s: Seq<ReplyModel>,
    branches: Seq<BranchModel>,
    claim: FileOwnershipModel,
    i: int,
)
    requires
        0 <= i <= branches.len(),
        forall|k: int| 0 <= k < i ==> is_free_of((#[trigger] branches[k]).ownership, claim),
    ensures
        take_claim_flow(s, branches, claim, i) matches Flow::Done(r, _) ==> {
            &&& r.len() == branches.len()
            &&& forall|k: int|
                0 <= k < r.len() ==> {
                    &&& is_free_of((#[trigger] r[k]).ownership, claim)
                    &&& r[k] == without_claim(branches[k], claim) || r[k] == branches[k]
                }
        },
    decreases branches.len() - i,
{
    if i < branches.len() {
        let branch = without_claim(branches[i], claim);
        let next = branches.update(i, branch);
        taken_is_gone(branches[i].ownership, claim);
        if take_from(branches[i].ownership, claim).0.len() > 0 {
            match ask_unit(s, RequestModel::WriteBranch(branch)) {
                Flow::Done(_, rest) => {
                    lemma_take_claim(rest, next, claim, i + 1);
                    lemma_take_claim_touches(rest, next, claim, i + 1);
                },
                Flow::Stop(_) => {},
            }
        } else {
            lemma_take_claim(s, next, claim, i + 1);
            lemma_take_claim_touches(s, next, claim, i + 1);
        }
    }
}

proof fn lemma_take_claim_touches(
    s: Seq<ReplyModel>,
    branches: Seq<BranchModel>,
    claim: FileOwnershipModel,
    i: int,
)
    requires
        0 <= i <= branches.len(),
    ensures
        take_claim_flow(s, branches, claim, i) matches Flow::Done(r, _) ==> {
            &&& r.len() == branches.len()
            &&& forall|k: int| 0 <= k < i ==> #[trigger] r[k] == branches[k]
        },
    decreases branches.len() - i,
{
    if i < branches.len() {
        let branch = without_claim(branches[i], claim);
        let next = branches.update(i, branch);
        if take_from(branches[i].ownership, claim).0.len() > 0 {
            match ask_unit(s, RequestModel::WriteBranch(branch)) {
                Flow::Done(_, rest) => {
                    lemma_take_claim_touches(rest, next, claim, i + 1);
                },
                Flow::Stop(_) => {},
            }
        } else {
            lemma_take_claim_touches(s, next, claim, i + 1);
        }
    }
}

proof fn lemma_take_claims(
    s: Seq<ReplyModel>,
    branches: Seq<BranchModel>,
    claims: Seq<FileOwnershipModel>,
    i: int,
)
    requires
        0 <= i <= claims.len(),
        forall|k: int, c: int|
            0 <= k < branches.len() && 0 <= c < i ==> is_free_of(
                (#[trigger] branches[k]).ownership,
                #[trigger] claims[c],
            ),
    ensures
        take_claims_flow(s, branches, claims, i) matches Flow::Done(r, _) ==> {
            &&& r.len() == branches.len()
            &&& forall|k: int, c: int|
                0 <= k < r.len() && 0 <= c < claims.len() ==> is_free_of(
                    (#[trigger] r[k]).ownership,
                    #[trigger] claims[c],
                )
        },
    decreases claims.len() - i,
{
    if i < claims.len() {
        lemma_take_claim(s, branches, claims[i], 0);
        match take_claim_flow(s, branches, claims[i], 0) {
            Flow::Done(next, rest) => {
                assert forall|k: int, c: int| 0 <= k < next.len() && 0 <= c < i + 1 implies is_free_of(
                    (#[trigger] next[k]).ownership,
                    #[trigger] claims[c],
                ) by {
                    if c < i {
                        assert(is_free_of(branches[k].ownership, claims[c]));
                        taking_gives_nothing_back(branches[k].ownership, claims[i], claims[c]);
                    }
                }
                lemma_take_claims(rest, next, claims, i + 1);
            },
            Flow::Stop(_) => {},
        }
    }
}

/// Once the claims have been taken from some branches, none of them owns anything that is claimed.
pub proof fn others_give_up_what_is_claimed(
    s: Seq<ReplyModel>,
    branches: Seq<BranchModel>,
    claims: Seq<FileOwnershipModel>,
)
    ensures
        take_claims_flow(s, branches, claims, 0) matches Flow::Done(r, _) ==> {
            &&& r.len() == branches.len()
            &&& forall|k: int, c: int|
                0 <= k < r.len() && 0 <= c < claims.len() ==> is_free_of(
                    (#[trigger] r[k]).ownership,
                    #[trigger] claims[c],
                )
        },
{
    lemma_take_claims(s, branches, claims, 0);
}

/// Giving an ownership to a branch changes nothing else of it, and it owns then the same as was
/// asked for.
pub proof fn the_branch_gets_what_is_asked_for(
    s: Seq<ReplyModel>,
    branch: BranchModel,
    ownership: Seq<FileOwnershipModel>,
)
    ensures
        set_ownership_flow(s, branch, ownership) matches Flow::Done(r, _) ==> {
            &&& r == (BranchModel { ownership: r.ownership, ..branch })
            &&& same_ownership(r.ownership, ownership)
        },
{
}

/// The branches make room for a new one: each keeps its place relative to the others, none is where
/// the new one is, and together they stand one behind the other without a gap.
pub proof fn there_is_room_for_the_new_branch(order: Option<usize>, n: nat)
    ensures
        ({
            let place = place_of_new(order, n);
            &&& 0 <= place <= n
            &&& forall|i: int|
                0 <= i < n ==> 0 <= #[trigger] moved_over(i, place) <= n && moved_over(i, place)
                    != place
            &&& forall|i: int, j: int|
                0 <= i < j < n ==> #[trigger] moved_over(i, place) < #[trigger] moved_over(j, place)
            &&& forall|k: int|
                #![trigger is_taken(k, place, n)]
                0 <= k <= n && k != place ==> is_taken(k, place, n)
        }),
{
    let place = place_of_new(order, n);
    assert forall|k: int|
        #![trigger is_taken(k, place, n)]
        0 <= k <= n && k != place implies is_taken(k, place, n) by {
        if k < place {
            assert(moved_over(k, place) == k);
        } else {
            assert(moved_over(k - 1, place) == k);
        }
    }
}

/// Whether one of `n` branches stands at a place once there is room at another.
pub open spec fn is_taken(k: int, place: int, n: nat) -> bool {
    exists|i: int| 0 <= i < n && #[trigger] moved_over(i, place) == k
}

/// A new branch is applied, starts at the target without a commit of its own, has no upstream
/// branch, and owns the same as was asked for.
pub proof fn a_new_branch_starts_at_the_target(s: Seq<ReplyModel>, create: BranchCreateModel)
    ensures
        create_virtual_branch_flow(s, create) matches Flow::Done(branch, _) ==> {
            &&& s.len() > 1
            &&& s[1] matches ReplyModel::Target(target)
            &&& branch.head == target.sha
            &&& branch.applied
            &&& branch.upstream is None
            &&& same_ownership(
                branch.ownership,
                match create.ownership {
                    Some(ownership) => ownership,
                    None => seq![],
                },
            )
        },
{
}

/// A name with the number behind it that is just past the largest one.
pub open spec fn past_the_largest(name: Seq<char>) -> Seq<char> {
    name + seq![' '] + decimal((LARGEST_NUMBER + 1) as nat)
}

proof fn lemma_sorting_keeps_names(branches: Seq<BranchModel>, name: Seq<char>)
    ensures
        names_of(by_order(branches)).contains(name) == names_of(branches).contains(name),
{
    broadcast use vstd::seq_lib::group_to_multiset_ensures;

    let sorted = by_order(branches);
    sorting_orders_the_elements(branches, |b: BranchModel| b.order as int);
    if names_of(sorted).contains(name) {
        let i = choose|i: int| 0 <= i < sorted.len() && names_of(sorted)[i] == name;
        assert(sorted.to_multiset().count(sorted[i]) > 0);
        assert(branches.contains(sorted[i]));
        let j = choose|j: int| 0 <= j < branches.len() && branches[j] == sorted[i];
        assert(names_of(branches)[j] == name);
    }
    if names_of(branches).contains(name) {
        let i = choose|i: int| 0 <= i < branches.len() && names_of(branches)[i] == name;
        assert(branches.to_multiset().count(branches[i]) > 0);
        assert(sorted.contains(branches[i]));
        let j = choose|j: int| 0 <= j < sorted.len() && sorted[j] == branches[i];
        assert(names_of(sorted)[j] == name);
    }
}

/// A new branch has a name of its own: that of no branch that is stored, as long as none already
/// stands just past the largest number.
pub proof fn a_new_branch_has_a_new_name(s: Seq<ReplyModel>, create: BranchCreateModel)
    ensures
        create_virtual_branch_flow(s, create) matches Flow::Done(branch, _) ==> {
            &&& s.len() > 3
            &&& s[3] matches ReplyModel::Branches(branches)
            &&& !names_of(branches).contains(past_the_largest(wanted_name(create.name))) ==> !names_of(
                branches,
            ).contains(branch.name)
        },
{
    if let Flow::Done(branch, _) = create_virtual_branch_flow(s, create) {
        let branches = s[3]->Branches_0;
        let sorted = by_order(branches);
        lemma_sorting_keeps_names(branches, past_the_largest(wanted_name(create.name)));
        lemma_sorting_keeps_names(branches, branch.name);
        if !names_of(branches).contains(past_the_largest(wanted_name(create.name))) {
            unique_name_is_new(names_of(sorted), wanted_name(create.name), seq![' ']);
        }
    }
}

/// A renamed branch has a name of its own: that of no branch that is stored, as long as none
/// already stands just past the largest number.
pub proof fn a_renamed_branch_has_a_new_name(
    s: Seq<ReplyModel>,
    branch: BranchModel,
    name: Seq<char>,
)
    ensures
        rename_flow(s, branch, name) matches Flow::Done(renamed, _) ==> {
            &&& renamed == (BranchModel { name: renamed.name, ..branch })
            &&& s.len() > 0
            &&& s[0] matches ReplyModel::Branches(branches)
            &&& !names_of(branches).contains(past_the_largest(name)) ==> !names_of(
                branches,
            ).contains(renamed.name)
        },
{
    if let Flow::Done(_, _) = rename_flow(s, branch, name) {
        let branches = s[0]->Branches_0;
        if !names_of(branches).contains(past_the_largest(name)) {
            unique_name_is_new(names_of(branches), name, seq![' ']);
        }
    }
}

/// A new branch stands where it was asked for, but not past the end of the branches.
pub proof fn a_new_branch_stands_at_its_place(s: Seq<ReplyModel>, create: BranchCreateModel)
    ensures
        create_virtual_branch_flow(s, create) matches Flow::Done(branch, _) ==> {
            &&& s.len() > 3
            &&& s[3] matches ReplyModel::Branches(branches)
            &&& branch.order == place_of_new(create.order, branches.len()) as usize
        },
{
    if s.len() > 3 {
        if let ReplyModel::Branches(branches) = s[3] {
            sorting_orders_the_elements(branches, |b: BranchModel| b.order as int);
        }
    }
}

/// Whether a branch is one of some others with nothing changed but what it owns.
pub open spec fn is_one_but_for_ownership(branch: BranchModel, of: Seq<BranchModel>) -> bool {
    exists|k: int|
        0 <= k < of.len() && branch == (BranchModel {
            ownership: branch.ownership,
            ..#[trigger] of[k]
        })
}

proof fn lemma_take_claim_stores(
    s: Seq<ReplyModel>,
    branches: Seq<BranchModel>,
    claim: FileOwnershipModel,
    i: int,
    all: Seq<BranchModel>,
)
    requires
        0 <= i,
        forall|k: int|
            0 <= k < branches.len() ==> is_one_but_for_ownership(#[trigger] branches[k], all),
    ensures
        take_claim_flow(s, branches, claim, i) matches Flow::Stop(
            StopModel::Ask(RequestModel::WriteBranch(branch)),
        ) ==> is_one_but_for_ownership(branch, all),
        take_claim_flow(s, branches, claim, i) matches Flow::Done(r, _) ==> forall|k: int|
            0 <= k < r.len() ==> is_one_but_for_ownership(#[trigger] r[k], all),
    decreases branches.len() - i,
{
    if i < branches.len() {
        let branch = without_claim(branches[i], claim);
        let k = choose|k: int|
            0 <= k < all.len() && branches[i] == (BranchModel {
                ownership: branches[i].ownership,
                ..#[trigger] all[k]
            });
        assert(branch == (BranchModel { ownership: branch.ownership, ..all[k] }));
        assert(is_one_but_for_ownership(branch, all));
        let written = if take_from(branches[i].ownership, claim).0.len() > 0 {
            ask_unit(s, RequestModel::WriteBranch(branch))
        } else {
            Flow::Done((), s)
        };
        if let Flow::Done(_, rest) = written {
            lemma_take_claim_stores(rest, branches.update(i, branch), claim, i + 1, all);
        }
    }
}

proof fn lemma_take_claims_stores(
    s: Seq<ReplyModel>,
    branches: Seq<BranchModel>,
    claims: Seq<FileOwnershipModel>,
    i: int,
    all: Seq<BranchModel>,
)
    requires
        0 <= i,
        forall|k: int|
            0 <= k < branches.len() ==> is_one_but_for_ownership(#[trigger] branches[k], all),
    ensures
        take_claims_flow(s, branches, claims, i) matches Flow::Stop(
            StopModel::Ask(RequestModel::WriteBranch(branch)),
        ) ==> is_one_but_for_ownership(branch, all),
    decreases claims.len() - i,
{
    if i < claims.len() {
        lemma_take_claim_stores(s, branches, claims[i], 0, all);
        if let Flow::Done(next, rest) = take_claim_flow(s, branches, claims[i], 0) {
            lemma_take_claims_stores(rest, next, claims, i + 1, all);
        }
    }
}

/// While an ownership is given to a branch, only other applied branches are stored, with nothing
/// changed but what they own.
pub proof fn only_ownership_changes_of_the_others(
    s: Seq<ReplyModel>,
    target: BranchModel,
    ownership: Seq<FileOwnershipModel>,
)
    ensures
        set_ownership_flow(s, target, ownership) matches Flow::Stop(
            StopModel::Ask(RequestModel::WriteBranch(branch)),
        ) ==> {
            &&& s.len() > 0
            &&& s[0] matches ReplyModel::Branches(branches)
            &&& is_one_but_for_ownership(branch, other_applied(branches, target.id))
            &&& branch.applied && branch.id != target.id
        },
{
    if s.len() > 0 {
        if let ReplyModel::Branches(branches) = s[0] {
            let others = other_applied(branches, target.id);
            assert forall|k: int| 0 <= k < others.len() implies is_one_but_for_ownership(
                #[trigger] others[k],
                others,
            ) by {
                assert(others[k] == (BranchModel { ownership: others[k].ownership, ..others[k] }));
            }
            lemma_take_claims_stores(s.drop_first(), others, ownership, 0, others);
            let other = |b: BranchModel| b.applied && b.id != target.id;
            broadcast use vstd::seq_lib::group_filter_ensures;

            assert forall|k: int| 0 <= k < others.len() implies (#[trigger] others[k]).applied
                && others[k].id != target.id by {
                assert(other(others[k]));
            }
        }
    }
}

} // verus!
