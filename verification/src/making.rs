//! What is asked for, step by step, when a branch is made, changed or deleted.

use crate::branch::{BranchCreateModel, BranchModel, BranchUpdateModel, CommitModel, TargetModel};
use crate::create::{
    by_order, create_among_flow, create_virtual_branch_flow, delete_branch_flow, make_room_flow,
    names_of, other_applied, rename_flow, set_ownership_flow, set_upstream_flow, take_claim_flow,
    take_claims_flow, update_branch_flow, upstream_is_the_slug,
};
use crate::dialogue::{after, comes_to, fails_with, goes_through, lemma_goes_on, lemma_told, Step};
use crate::naming::{slug_of, unique_name, RemoteBranchModel};
use crate::objects::BranchId;
use crate::ownership::{same_ownership, take_from, FileOwnershipModel};
use crate::protocol::{BranchErrorModel, FailureKind, FailureModel, Flow, ReplyModel, RequestModel};
use crate::seqs::{sorting_keeps_the_order_of_equals, sorting_orders_the_elements};
use vstd::prelude::*;

verus! {

/// A branch that has just been made: applied, at the target and with its tree, without notes and
/// without anything upstream. It is made and last changed now.
pub open spec fn is_new(
    branch: BranchModel,
    create: BranchCreateModel,
    target: TargetModel,
    commit: CommitModel,
    sorted: Seq<BranchModel>,
    now: u128,
    id: BranchId,
) -> bool {
    &&& branch.id == id
    &&& branch.name == unique_name(
        Seq::new(sorted.len(), |i: int| sorted[i].name),
        match create.name {
            Some(name) => name,
            None => "Virtual branch"@,
        },
        seq![' '],
    )
    &&& branch.notes == Seq::<char>::empty()
    &&& branch.applied
    &&& branch.upstream is None
    &&& branch.upstream_head is None
    &&& branch.created_timestamp_ms == now
    &&& branch.updated_timestamp_ms == now
    &&& branch.tree == commit.tree
    &&& branch.head == target.sha
    &&& branch.ownership == Seq::<FileOwnershipModel>::empty()
    &&& branch.order == is_placed(create.order, sorted.len())
}

/// Where a new branch stands among some others: where it was asked for, but not past the end, and at
/// the end where nothing was asked for.
pub open spec fn is_placed(order: Option<usize>, n: nat) -> int {
    if order is Some && order->0 < n {
        order->0 as int
    } else {
        n as int
    }
}

/// A new branch starts at the target, with the tree of the target. It is stored once the others have
/// made room for it and, where an ownership is asked for, once it has got that. Then it gets its git
/// reference, and it is the result.
#[verifier::rlimit(60)]
pub proof fn a_new_branch_is_stored_and_gets_a_reference(
    create: BranchCreateModel,
    target: TargetModel,
    commit: CommitModel,
    branches: Seq<BranchModel>,
    room: Seq<ReplyModel>,
    now: u128,
    id: BranchId,
    new: BranchModel,
    owned: Seq<ReplyModel>,
    owner: BranchModel,
)
    requires
        branches.len() <= usize::MAX,
        forall|more: Seq<ReplyModel>| #[trigger]
            make_room_flow(
                room + more,
                by_order(branches),
                is_placed(create.order, branches.len()),
                0,
            ) == Flow::Done((), more),
        is_new(new, create, target, commit, by_order(branches), now, id),
        create.ownership is Some ==> forall|more: Seq<ReplyModel>| #[trigger]
            set_ownership_flow(owned + more, new, create.ownership->0) == Flow::Done(owner, more),
        create.ownership is None ==> owner == new && owned.len() == 0,
    ensures
        comes_to(
            |s: Seq<ReplyModel>| create_virtual_branch_flow(s, create),
            seq![
                Step::Ask(RequestModel::OpenSession, ReplyModel::Unit),
                Step::Ask(RequestModel::ReadDefaultTarget, ReplyModel::Target(target)),
                Step::Ask(RequestModel::FindStoreCommit(target.sha), ReplyModel::Commit(commit)),
                Step::Ask(RequestModel::ListBranches, ReplyModel::Branches(branches)),
                Step::Part(room),
                Step::Ask(RequestModel::Now, ReplyModel::Millis(now)),
                Step::Ask(RequestModel::NewBranchId, ReplyModel::Id(id)),
                Step::Part(owned),
                Step::Ask(RequestModel::WriteBranch(owner), ReplyModel::Unit),
                Step::Ask(RequestModel::AddBranchReference(owner), ReplyModel::Unit),
            ],
            owner,
        ),
{
    broadcast use lemma_told;

    let sorted = by_order(branches);
    sorting_orders_the_elements(branches, |b: BranchModel| b.order as int);
    assert(names_of(sorted) =~= Seq::new(sorted.len(), |i: int| sorted[i].name));
    let begins = seq![
        Step::Ask(RequestModel::OpenSession, ReplyModel::Unit),
        Step::Ask(RequestModel::ReadDefaultTarget, ReplyModel::Target(target)),
        Step::Ask(RequestModel::FindStoreCommit(target.sha), ReplyModel::Commit(commit)),
        Step::Ask(RequestModel::ListBranches, ReplyModel::Branches(branches)),
    ];
    let made = seq![
        Step::Part(room),
        Step::Ask(RequestModel::Now, ReplyModel::Millis(now)),
        Step::Ask(RequestModel::NewBranchId, ReplyModel::Id(id)),
        Step::Part(owned),
        Step::Ask(RequestModel::WriteBranch(owner), ReplyModel::Unit),
        Step::Ask(RequestModel::AddBranchReference(owner), ReplyModel::Unit),
    ];
    assert forall|more: Seq<ReplyModel>| create.ownership is None implies
        #[trigger] (owned + more) =~= more by {
    }
    reveal_with_fuel(after, 7);
    reveal_with_fuel(goes_through, 7);
    assert(comes_to(
        |s: Seq<ReplyModel>| create_among_flow(s, create, target, commit, sorted),
        made,
        owner,
    ));
    lemma_goes_on(
        |s: Seq<ReplyModel>| create_virtual_branch_flow(s, create),
        |s: Seq<ReplyModel>| create_among_flow(s, create, target, commit, sorted),
        begins,
        made,
    );
    assert(begins + made =~= seq![
        Step::Ask(RequestModel::OpenSession, ReplyModel::Unit),
        Step::Ask(RequestModel::ReadDefaultTarget, ReplyModel::Target(target)),
        Step::Ask(RequestModel::FindStoreCommit(target.sha), ReplyModel::Commit(commit)),
        Step::Ask(RequestModel::ListBranches, ReplyModel::Branches(branches)),
        Step::Part(room),
        Step::Ask(RequestModel::Now, ReplyModel::Millis(now)),
        Step::Ask(RequestModel::NewBranchId, ReplyModel::Id(id)),
        Step::Part(owned),
        Step::Ask(RequestModel::WriteBranch(owner), ReplyModel::Unit),
        Step::Ask(RequestModel::AddBranchReference(owner), ReplyModel::Unit),
    ]);
}

/// The branches stand in the order of their places, those with the same place as they stood before,
/// none missing and none added.
pub proof fn branches_stand_in_order(branches: Seq<BranchModel>, place: int)
    ensures
        forall|i: int, j: int|
            0 <= i <= j < by_order(branches).len() ==> (#[trigger] by_order(branches)[i]).order <= (
            #[trigger] by_order(branches)[j]).order,
        by_order(branches).to_multiset() == branches.to_multiset(),
        by_order(branches).filter(|b: BranchModel| b.order == place) == branches.filter(
            |b: BranchModel| b.order == place,
        ),
{
    let key = |b: BranchModel| b.order as int;
    sorting_orders_the_elements(branches, key);
    sorting_keeps_the_order_of_equals(branches, key, place);
    assert((|b: BranchModel| key(b) == place) =~= (|b: BranchModel| b.order == place));
    assert forall|i: int, j: int| 0 <= i <= j < by_order(branches).len() implies (
    #[trigger] by_order(branches)[i]).order <= (#[trigger] by_order(branches)[j]).order by {
        assert(key(by_order(branches)[i]) <= key(by_order(branches)[j]));
    }
}

/// A branch that is to own something else than it does gets just that, once it has been taken from
/// all other applied branches. Where it owns that already, nothing is asked for.
pub proof fn an_ownership_is_taken_from_all_others(
    branch: BranchModel,
    ownership: Seq<FileOwnershipModel>,
    branches: Seq<BranchModel>,
    others: Seq<BranchModel>,
    taken: Seq<ReplyModel>,
    left: Seq<BranchModel>,
)
    requires
        others == branches.filter(|b: BranchModel| b.applied && b.id != branch.id),
        forall|more: Seq<ReplyModel>| #[trigger]
            take_claims_flow(taken + more, others, ownership, 0) == Flow::Done(left, more),
    ensures
        same_ownership(branch.ownership, ownership) ==> comes_to(
            |s: Seq<ReplyModel>| set_ownership_flow(s, branch, ownership),
            seq![],
            branch,
        ),
        !same_ownership(branch.ownership, ownership) ==> comes_to(
            |s: Seq<ReplyModel>| set_ownership_flow(s, branch, ownership),
            seq![
                Step::Ask(RequestModel::ListBranches, ReplyModel::Branches(branches)),
                Step::Part(taken),
            ],
            BranchModel { ownership, ..branch },
        ),
{
    broadcast use lemma_told;

    assert(other_applied(branches, branch.id) == others);
    reveal_with_fuel(after, 3);
    reveal_with_fuel(goes_through, 3);
}

/// A claim is taken from each branch in turn. One that loses something is stored with what is left,
/// and nothing else changed; one that loses nothing is not stored.
pub proof fn a_branch_that_loses_something_is_stored(
    branches: Seq<BranchModel>,
    claim: FileOwnershipModel,
    i: int,
)
    requires
        0 <= i < branches.len(),
    ensures
        ({
            let (taken, left) = take_from(branches[i].ownership, claim);
            let branch = BranchModel { ownership: left, ..branches[i] };
            let next = branches.update(i, branch);
            if taken.len() > 0 {
                &&& goes_through(
                    |s: Seq<ReplyModel>| take_claim_flow(s, branches, claim, i),
                    seq![Step::Ask(RequestModel::WriteBranch(branch), ReplyModel::Unit)],
                )
                &&& forall|s: Seq<ReplyModel>| #[trigger]
                    take_claim_flow(
                        after(seq![Step::Ask(RequestModel::WriteBranch(branch), ReplyModel::Unit)], s),
                        branches,
                        claim,
                        i,
                    ) == take_claim_flow(s, next, claim, i + 1)
            } else {
                forall|s: Seq<ReplyModel>| #[trigger]
                    take_claim_flow(s, branches, claim, i) == take_claim_flow(
                        s,
                        next,
                        claim,
                        i + 1,
                    )
            }
        }),
        forall|s: Seq<ReplyModel>| #[trigger]
            take_claim_flow(s, branches, claim, branches.len() as int) == Flow::Done(branches, s),
{
    broadcast use lemma_told;

    reveal_with_fuel(after, 2);
    reveal_with_fuel(goes_through, 2);
}

/// The others make room in turn: one that does not stand at its place yet is stored with it, and
/// nothing else changed. Those before the place of the new branch stand one behind the other from the
/// first place on, and the rest one place further.
pub proof fn a_branch_that_moves_is_stored(branches: Seq<BranchModel>, order: int, i: int)
    requires
        0 <= i < branches.len() <= usize::MAX,
    ensures
        ({
            let place = if i < order {
                i
            } else {
                i + 1
            };
            let moved = BranchModel { order: place as usize, ..branches[i] };
            if branches[i].order == place {
                forall|s: Seq<ReplyModel>| #[trigger]
                    make_room_flow(s, branches, order, i) == make_room_flow(
                        s,
                        branches,
                        order,
                        i + 1,
                    )
            } else {
                &&& goes_through(
                    |s: Seq<ReplyModel>| make_room_flow(s, branches, order, i),
                    seq![Step::Ask(RequestModel::WriteBranch(moved), ReplyModel::Unit)],
                )
                &&& forall|s: Seq<ReplyModel>| #[trigger]
                    make_room_flow(
                        after(seq![Step::Ask(RequestModel::WriteBranch(moved), ReplyModel::Unit)], s),
                        branches,
                        order,
                        i,
                    ) == make_room_flow(s, branches, order, i + 1)
            }
        }),
        forall|s: Seq<ReplyModel>| #[trigger]
            make_room_flow(s, branches, order, branches.len() as int) == Flow::Done((), s),
{
    broadcast use lemma_told;

    reveal_with_fuel(after, 2);
    reveal_with_fuel(goes_through, 2);
}

/// The steps that rename a branch: its old git reference goes, and it gets a new one.
pub open spec fn rename_steps(
    branch: BranchModel,
    renamed: BranchModel,
    branches: Seq<BranchModel>,
) -> Seq<Step> {
    seq![
        Step::Ask(RequestModel::ListBranches, ReplyModel::Branches(branches)),
        Step::Ask(RequestModel::DeleteBranchReference(branch), ReplyModel::Unit),
        Step::Ask(RequestModel::AddBranchReference(renamed), ReplyModel::Unit),
    ]
}

/// A branch that is renamed loses its git reference and gets one of the new name, which is made
/// unique among the names of all branches. Nothing else of it changes.
pub proof fn the_reference_follows_the_name(
    branch: BranchModel,
    name: Seq<char>,
    branches: Seq<BranchModel>,
)
    ensures
        ({
            let renamed = BranchModel {
                name: unique_name(
                    Seq::new(branches.len(), |i: int| branches[i].name),
                    name,
                    seq![' '],
                ),
                ..branch
            };
            comes_to(
                |s: Seq<ReplyModel>| rename_flow(s, branch, name),
                rename_steps(branch, renamed, branches),
                renamed,
            )
        }),
{
    broadcast use lemma_told;

    assert(names_of(branches) =~= Seq::new(branches.len(), |i: int| branches[i].name));
    reveal_with_fuel(after, 5);
    reveal_with_fuel(goes_through, 5);
}

/// The upstream branch that a branch is given lies at the target's remote, and has the slug of what
/// is asked for as its name. Without a target there is no remote.
pub proof fn an_upstream_branch_is_given_by_its_slug(
    branch: BranchModel,
    name: Seq<char>,
    target: TargetModel,
    failure: FailureModel,
)
    requires
        !target.branch.remote.contains('/'),
        failure.kind == FailureKind::NotFound,
    ensures
        comes_to(
            |s: Seq<ReplyModel>| set_upstream_flow(s, branch, name),
            seq![Step::Ask(RequestModel::ReadDefaultTarget, ReplyModel::Target(target))],
            BranchModel {
                upstream: Some(
                    RemoteBranchModel { remote: target.branch.remote, branch: slug_of(name) },
                ),
                ..branch
            },
        ),
        fails_with(
            |s: Seq<ReplyModel>| set_upstream_flow(s, branch, name),
            seq![Step::Ask(RequestModel::ReadDefaultTarget, ReplyModel::Failed(failure))],
            BranchErrorModel::NoRemote,
        ),
{
    broadcast use lemma_told;

    upstream_is_the_slug(target, name);
    reveal_with_fuel(after, 2);
    reveal_with_fuel(goes_through, 2);
}

/// A branch with what an update gives it of notes and place, and nothing else changed.
pub open spec fn is_noted(
    updated: BranchModel,
    branch: BranchModel,
    update: BranchUpdateModel,
) -> bool {
    &&& updated == (BranchModel { notes: updated.notes, order: updated.order, ..branch })
    &&& updated.notes == if update.notes is Some {
        update.notes->0
    } else {
        branch.notes
    }
    &&& updated.order == if update.order is Some {
        update.order->0
    } else {
        branch.order
    }
}

/// Changing a branch gives it, in this order, the ownership, the name and the upstream branch that
/// are asked for, and then the notes and the place. What is not asked for stays as it is. The branch
/// is stored once, as it is in the end, and that is the result.
#[verifier::rlimit(60)]
pub proof fn a_changed_branch_is_stored_as_asked_for(
    update: BranchUpdateModel,
    branch: BranchModel,
    owned: Seq<ReplyModel>,
    owner: BranchModel,
    renamed: Seq<ReplyModel>,
    named: BranchModel,
    given: Seq<ReplyModel>,
    placed: BranchModel,
    updated: BranchModel,
)
    requires
        update.ownership is Some ==> forall|more: Seq<ReplyModel>| #[trigger]
            set_ownership_flow(owned + more, branch, update.ownership->0) == Flow::Done(owner, more),
        update.ownership is None ==> owner == branch && owned.len() == 0,
        update.name is Some ==> forall|more: Seq<ReplyModel>| #[trigger]
            rename_flow(renamed + more, owner, update.name->0) == Flow::Done(named, more),
        update.name is None ==> named == owner && renamed.len() == 0,
        update.upstream is Some ==> forall|more: Seq<ReplyModel>| #[trigger]
            set_upstream_flow(given + more, named, update.upstream->0) == Flow::Done(placed, more),
        update.upstream is None ==> placed == named && given.len() == 0,
        is_noted(updated, placed, update),
    ensures
        comes_to(
            |s: Seq<ReplyModel>| update_branch_flow(s, update),
            seq![
                Step::Ask(RequestModel::OpenSession, ReplyModel::Unit),
                Step::Ask(RequestModel::ReadBranch(update.id), ReplyModel::Branch(branch)),
                Step::Part(owned),
                Step::Part(renamed),
                Step::Part(given),
                Step::Ask(RequestModel::WriteBranch(updated), ReplyModel::Unit),
            ],
            updated,
        ),
{
    broadcast use lemma_told;

    assert forall|more: Seq<ReplyModel>| update.ownership is None implies
        #[trigger] (owned + more) =~= more by {
    }
    assert forall|more: Seq<ReplyModel>| update.name is None implies
        #[trigger] (renamed + more) =~= more by {
    }
    assert forall|more: Seq<ReplyModel>| update.upstream is None implies
        #[trigger] (given + more) =~= more by {
    }
    reveal_with_fuel(after, 7);
    reveal_with_fuel(goes_through, 7);
}

/// A branch that is deleted leaves the store and loses its git reference.
pub proof fn a_deleted_branch_is_gone(id: BranchId, branch: BranchModel)
    ensures
        comes_to(
            |s: Seq<ReplyModel>| delete_branch_flow(s, id),
            seq![
                Step::Ask(RequestModel::OpenSession, ReplyModel::Unit),
                Step::Ask(RequestModel::ReadBranch(id), ReplyModel::Branch(branch)),
                Step::Ask(RequestModel::DeleteBranch(branch), ReplyModel::Unit),
                Step::Ask(RequestModel::DeleteBranchReference(branch), ReplyModel::Unit),
            ],
            branch,
        ),
{
    broadcast use lemma_told;

    reveal_with_fuel(after, 6);
    reveal_with_fuel(goes_through, 6);
}

} // verus!
