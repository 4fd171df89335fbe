//! The places of the branches once a new one is made.

use crate::branch::{BranchCreateModel, BranchModel, CommitModel, TargetModel};
use crate::create::{
    by_order, create_among_flow, create_virtual_branch_flow, is_one_but_for_ownership, is_taken,
    make_room_flow, moved_over, name_of_new, new_branch, other_applied, place_of_new,
    set_ownership_flow, take_claim_flow, take_claims_flow, there_is_room_for_the_new_branch,
    without_claim,
};
use crate::objects::BranchId;
use crate::ownership::{same_ownership, take_from, FileOwnershipModel};
use crate::protocol::{ask_unit, Flow, ReplyModel, RequestModel, StopModel};
use crate::seqs::{lemma_filter_from, sorting_orders_the_elements};
use vstd::prelude::*;

verus! {

/// What is stored, by id, once some branches have been stored one after the other.
pub open spec fn stored(
    before: Map<BranchId, BranchModel>,
    writes: Seq<BranchModel>,
) -> Map<BranchId, BranchModel>
    decreases writes.len(),
{
    if writes.len() == 0 {
        before
    } else {
        stored(before.insert(writes[0].id, writes[0]), writes.drop_first())
    }
}

/// Whether some branches, each with an id of its own, are all that is stored.
pub open spec fn is_all_of(branches: Seq<BranchModel>, store: Map<BranchId, BranchModel>) -> bool {
    &&& forall|i: int|
        0 <= i < branches.len() ==> store.dom().contains((#[trigger] branches[i]).id)
            && store[branches[i].id] == branches[i]
    &&& forall|id: BranchId| #[trigger]
        store.dom().contains(id) ==> exists|i: int|
            0 <= i < branches.len() && (#[trigger] branches[i]).id == id
    &&& forall|i: int, j: int|
        0 <= i < j < branches.len() ==> (#[trigger] branches[i]).id != (#[trigger] branches[j]).id
}

/// The `i`th of some branches, with its place once there is room at place `order`.
pub open spec fn moved(branches: Seq<BranchModel>, order: int, i: int) -> BranchModel {
    BranchModel { order: moved_over(i, order) as usize, ..branches[i] }
}

/// The branches from the `i`th on that change their place when room is made at place `order`,
/// each with its new place.
pub open spec fn moves(branches: Seq<BranchModel>, order: int, i: int) -> Seq<BranchModel>
    decreases branches.len() - i,
{
    if i < 0 || i >= branches.len() {
        seq![]
    } else if branches[i].order != moved_over(i, order) {
        seq![moved(branches, order, i)] + moves(branches, order, i + 1)
    } else {
        moves(branches, order, i + 1)
    }
}

/// Some replies that something is done.
pub open spec fn units(n: nat) -> Seq<ReplyModel> {
    Seq::new(n, |i: int| ReplyModel::Unit)
}

proof fn lemma_make_room(branches: Seq<BranchModel>, order: int, i: int, n: nat)
    requires
        0 <= i <= branches.len(),
        n <= moves(branches, order, i).len(),
    ensures
        n < moves(branches, order, i).len() ==> make_room_flow(units(n), branches, order, i)
            == Flow::<()>::Stop(
            StopModel::Ask(RequestModel::WriteBranch(moves(branches, order, i)[n as int])),
        ),
    decreases branches.len() - i,
{
    if i < branches.len() {
        let rest = moves(branches, order, i + 1);
        if branches[i].order != moved_over(i, order) {
            if n > 0 {
                let fewer = (n - 1) as nat;
                assert(units(n).drop_first() =~= units(fewer));
                lemma_make_room(branches, order, i + 1, fewer);
                if n < moves(branches, order, i).len() {
                    assert(moves(branches, order, i)[n as int] == rest[n - 1]);
                }
            }
        } else {
            lemma_make_room(branches, order, i + 1, n);
        }
    }
}

proof fn lemma_room_is_made(
    branches: Seq<BranchModel>,
    order: int,
    i: int,
    more: Seq<ReplyModel>,
)
    requires
        0 <= i <= branches.len(),
    ensures
        make_room_flow(units(moves(branches, order, i).len()) + more, branches, order, i)
            == Flow::Done((), more),
    decreases branches.len() - i,
{
    let n = moves(branches, order, i).len();
    if i < branches.len() {
        lemma_room_is_made(branches, order, i + 1, more);
        if branches[i].order != moved_over(i, order) {
            assert((units(n) + more).drop_first() =~= units((n - 1) as nat) + more);
        }
    } else {
        assert(units(n) + more =~= more);
    }
}

/// The replies with which making a branch begins: a session, the target, its commit and the
/// branches.
pub open spec fn beginning(
    target: TargetModel,
    commit: CommitModel,
    branches: Seq<BranchModel>,
) -> Seq<ReplyModel> {
    seq![
        ReplyModel::Unit,
        ReplyModel::Target(target),
        ReplyModel::Commit(commit),
        ReplyModel::Branches(branches),
    ]
}

proof fn lemma_beginning(
    target: TargetModel,
    commit: CommitModel,
    branches: Seq<BranchModel>,
    more: Seq<ReplyModel>,
    create: BranchCreateModel,
)
    ensures
        create_virtual_branch_flow(beginning(target, commit, branches) + more, create)
            == create_among_flow(more, create, target, commit, by_order(branches)),
{
    let s = beginning(target, commit, branches) + more;
    assert(s.drop_first().drop_first().drop_first().drop_first() =~= more);
}

/// When a branch is made, the branches that have to change their place are stored first, one after
/// the other, with nothing changed but the place. Then the new branch is made.
pub proof fn the_branches_that_move_are_stored_first(
    target: TargetModel,
    commit: CommitModel,
    branches: Seq<BranchModel>,
    create: BranchCreateModel,
    n: nat,
)
    requires
        n <= moves(by_order(branches), place_of_new(create.order, branches.len()), 0).len(),
    ensures
        create_virtual_branch_flow(beginning(target, commit, branches) + units(n), create) == ({
            let place = place_of_new(create.order, branches.len());
            let written = moves(by_order(branches), place, 0);
            Flow::<BranchModel>::Stop(
                StopModel::Ask(
                    if n < written.len() {
                        RequestModel::WriteBranch(written[n as int])
                    } else {
                        RequestModel::Now
                    },
                ),
            )
        }),
{
    let sorted = by_order(branches);
    let place = place_of_new(create.order, branches.len());
    sorting_orders_the_elements(branches, |b: BranchModel| b.order as int);
    lemma_beginning(target, commit, branches, units(n), create);
    lemma_make_room(sorted, place, 0, n);
    if n == moves(sorted, place, 0).len() {
        lemma_room_is_made(sorted, place, 0, seq![]);
        assert(units(n) + Seq::<ReplyModel>::empty() =~= units(n));
    }
}

/// A branch that is made to own nothing is stored last, at its place; then it gets its git
/// reference, and is the result.
pub proof fn the_new_branch_is_stored_last(
    target: TargetModel,
    commit: CommitModel,
    branches: Seq<BranchModel>,
    create: BranchCreateModel,
    now: u128,
    id: BranchId,
)
    requires
        create.ownership is None || create.ownership->0.len() == 0,
    ensures
        ({
            let sorted = by_order(branches);
            let place = place_of_new(create.order, branches.len());
            let new = new_branch(
                id,
                name_of_new(create.name, sorted),
                target,
                commit,
                now,
                place,
            );
            let s = beginning(target, commit, branches) + (units(
                moves(sorted, place, 0).len(),
            ) + seq![ReplyModel::Millis(now), ReplyModel::Id(id)]);
            &&& create_virtual_branch_flow(s, create) == Flow::<BranchModel>::Stop(
                StopModel::Ask(RequestModel::WriteBranch(new)),
            )
            &&& create_virtual_branch_flow(s.push(ReplyModel::Unit), create)
                == Flow::<BranchModel>::Stop(
                StopModel::Ask(RequestModel::AddBranchReference(new)),
            )
            &&& create_virtual_branch_flow(
                s.push(ReplyModel::Unit).push(ReplyModel::Unit),
                create,
            ) == Flow::Done(new, seq![])
        }),
{
    let sorted = by_order(branches);
    let place = place_of_new(create.order, branches.len());
    let room = units(moves(sorted, place, 0).len());
    let made = seq![ReplyModel::Millis(now), ReplyModel::Id(id)];
    let s = beginning(target, commit, branches) + (room + made);
    sorting_orders_the_elements(branches, |b: BranchModel| b.order as int);
    let done = ReplyModel::Unit;
    assert(s.push(done) =~= beginning(target, commit, branches) + (room + made.push(done)));
    assert(s.push(done).push(done) =~= beginning(target, commit, branches) + (room + made.push(
        done,
    ).push(done)));
    lemma_after_room(target, commit, branches, create, made);
    lemma_after_room(target, commit, branches, create, made.push(done));
    lemma_after_room(target, commit, branches, create, made.push(done).push(done));
    assert(made.drop_first().drop_first() =~= seq![]);
    assert(made.push(done).drop_first().drop_first() =~= seq![done]);
    assert(made.push(done).push(done).drop_first().drop_first() =~= seq![done, done]);
    assert(seq![done].drop_first() =~= seq![]);
    assert(seq![done, done].drop_first() =~= seq![done]);
}

proof fn lemma_after_room(
    target: TargetModel,
    commit: CommitModel,
    branches: Seq<BranchModel>,
    create: BranchCreateModel,
    more: Seq<ReplyModel>,
)
    ensures
        ({
            let sorted = by_order(branches);
            let place = place_of_new(create.order, branches.len());
            let room = units(moves(sorted, place, 0).len());
            &&& sorted.len() == branches.len()
            &&& create_virtual_branch_flow(
                beginning(target, commit, branches) + (room + more),
                create,
            ) == create_among_flow(room + more, create, target, commit, sorted)
            &&& make_room_flow(room + more, sorted, place, 0) == Flow::Done((), more)
        }),
{
    let sorted = by_order(branches);
    let place = place_of_new(create.order, branches.len());
    let room = units(moves(sorted, place, 0).len());
    sorting_orders_the_elements(branches, |b: BranchModel| b.order as int);
    lemma_beginning(target, commit, branches, room + more, create);
    lemma_room_is_made(sorted, place, 0, more);
}

proof fn lemma_sorting_keeps_all(branches: Seq<BranchModel>, store: Map<BranchId, BranchModel>)
    requires
        is_all_of(branches, store),
    ensures
        by_order(branches).len() == branches.len(),
        is_all_of(by_order(branches), store),
        forall|i: int|
            0 <= i < branches.len() ==> by_order(branches).contains(#[trigger] branches[i]),
{
    broadcast use vstd::seq_lib::group_to_multiset_ensures;

    let sorted = by_order(branches);
    sorting_orders_the_elements(branches, |b: BranchModel| b.order as int);
    assert forall|i: int| 0 <= i < sorted.len() implies branches.contains(#[trigger] sorted[i]) by {
        assert(sorted.to_multiset().count(sorted[i]) > 0);
    }
    assert forall|i: int| 0 <= i < branches.len() implies sorted.contains(
        #[trigger] branches[i],
    ) by {
        assert(branches.to_multiset().count(branches[i]) > 0);
    }
    assert forall|i: int| 0 <= i < sorted.len() implies store.dom().contains(
        (#[trigger] sorted[i]).id,
    ) && store[sorted[i].id] == sorted[i] by {
        let k = choose|k: int| 0 <= k < branches.len() && branches[k] == sorted[i];
        assert(branches[k].id == sorted[i].id);
    }
    assert forall|id: BranchId| #[trigger] store.dom().contains(id) implies exists|i: int|
        0 <= i < sorted.len() && (#[trigger] sorted[i]).id == id by {
        let k = choose|k: int| 0 <= k < branches.len() && (#[trigger] branches[k]).id == id;
        assert(sorted.contains(branches[k]));
        let i = choose|i: int| 0 <= i < sorted.len() && sorted[i] == branches[k];
        assert(sorted[i].id == id);
    }
    assert(branches.no_duplicates()) by {
        assert forall|i: int, j: int|
            0 <= i < branches.len() && 0 <= j < branches.len() && i != j implies branches[i]
            != branches[j] by {
            if i < j {
                assert(branches[i].id != branches[j].id);
            } else {
                assert(branches[j].id != branches[i].id);
            }
        }
    }
    branches.lemma_multiset_has_no_duplicates();
    sorted.lemma_multiset_has_no_duplicates_conv();
    assert forall|i: int, j: int| 0 <= i < j < sorted.len() implies (#[trigger] sorted[i]).id != (
    #[trigger] sorted[j]).id by {
        assert(store[sorted[i].id] == sorted[i]);
        assert(store[sorted[j].id] == sorted[j]);
        assert(sorted[i] != sorted[j]);
    }
}

proof fn lemma_stored_moves(
    store: Map<BranchId, BranchModel>,
    branches: Seq<BranchModel>,
    order: int,
    i: int,
)
    requires
        0 <= i <= branches.len(),
        branches.len() <= usize::MAX,
        forall|k: int|
            i <= k < branches.len() ==> store.dom().contains((#[trigger] branches[k]).id)
                && store[branches[k].id] == branches[k],
        forall|j: int, k: int|
            0 <= j < k < branches.len() ==> (#[trigger] branches[j]).id != (
            #[trigger] branches[k]).id,
    ensures
        stored(store, moves(branches, order, i)).dom() == store.dom(),
        forall|k: int|
            i <= k < branches.len() ==> stored(store, moves(branches, order, i))[(
            #[trigger] branches[k]).id] == moved(branches, order, k),
        forall|id: BranchId|
            (forall|k: int| i <= k < branches.len() ==> (#[trigger] branches[k]).id != id) ==> (
            #[trigger] stored(store, moves(branches, order, i))[id]) == store[id],
    decreases branches.len() - i,
{
    if i < branches.len() {
        let branch = moved(branches, order, i);
        let written = moves(branches, order, i);
        let rest = moves(branches, order, i + 1);
        let next = if branches[i].order != moved_over(i, order) {
            store.insert(branch.id, branch)
        } else {
            store
        };
        if branches[i].order != moved_over(i, order) {
            assert(written.drop_first() =~= rest);
            assert(next.dom() =~= store.dom());
        } else {
            assert(branch == branches[i]);
        }
        assert(stored(store, written) == stored(next, rest));
        assert forall|k: int| i + 1 <= k < branches.len() implies next.dom().contains(
            (#[trigger] branches[k]).id,
        ) && next[branches[k].id] == branches[k] by {
            assert(branches[i].id != branches[k].id);
        }
        lemma_stored_moves(next, branches, order, i + 1);
        assert forall|k: int| i <= k < branches.len() implies stored(store, written)[(
        #[trigger] branches[k]).id] == moved(branches, order, k) by {
            if k == i {
                assert forall|j: int| i + 1 <= j < branches.len() implies (
                #[trigger] branches[j]).id != branches[i].id by {}
                assert(stored(next, rest)[branches[i].id] == next[branches[i].id]);
            }
        }
        assert forall|id: BranchId|
            (forall|k: int| i <= k < branches.len() ==> (#[trigger] branches[k]).id != id) implies (
        #[trigger] stored(store, written)[id]) == store[id] by {
            assert(branches[i].id != id);
            assert(stored(next, rest)[id] == next[id]);
        }
    }
}

proof fn lemma_stored_push(
    store: Map<BranchId, BranchModel>,
    writes: Seq<BranchModel>,
    last: BranchModel,
)
    ensures
        stored(store, writes.push(last)) == stored(store, writes).insert(last.id, last),
    decreases writes.len(),
{
    let all = writes.push(last);
    if writes.len() > 0 {
        assert(all.drop_first() =~= writes.drop_first().push(last));
        lemma_stored_push(store.insert(writes[0].id, writes[0]), writes.drop_first(), last);
    } else {
        assert(all.drop_first() =~= seq![]);
        reveal_with_fuel(stored, 2);
    }
}

/// What is stored once room is made for a new branch, and the branch is stored there.
pub open spec fn stored_with_new(
    store: Map<BranchId, BranchModel>,
    branches: Seq<BranchModel>,
    new: BranchModel,
) -> Map<BranchId, BranchModel> {
    stored(store, moves(by_order(branches), new.order as int, 0).push(new))
}

/// Whether some branch that is stored has the place `k`.
pub open spec fn has_place(store: Map<BranchId, BranchModel>, k: int) -> bool {
    exists|id: BranchId| #[trigger] store.dom().contains(id) && store[id].order == k
}

/// Whether some branches have made room for a new one: the places of all go from zero on without a
/// gap, and no two are the same. The branches that were stored before keep their order among each
/// other, and nothing but their place and what they own changes.
pub open spec fn has_made_room(
    store: Map<BranchId, BranchModel>,
    after: Map<BranchId, BranchModel>,
    n: nat,
    new: BranchModel,
) -> bool {
    &&& after.dom() == store.dom().insert(new.id)
    &&& after[new.id] == new
    &&& forall|id: BranchId| #[trigger]
        store.dom().contains(id) ==> after[id] == (BranchModel {
            order: after[id].order,
            ownership: after[id].ownership,
            ..store[id]
        })
    &&& forall|a: BranchId, b: BranchId| #[trigger]
        store.dom().contains(a) && #[trigger] store.dom().contains(b) && store[a].order
            < store[b].order ==> after[a].order < after[b].order
    &&& forall|id: BranchId| #[trigger]
        after.dom().contains(id) ==> 0 <= after[id].order <= n
    &&& forall|a: BranchId, b: BranchId| #[trigger]
        after.dom().contains(a) && #[trigger] after.dom().contains(b) && a != b ==> after[a].order
            != after[b].order
    &&& forall|k: int| 0 <= k <= n ==> #[trigger] has_place(after, k)
}

/// Once a new branch is stored at its place, the branches have made room for it, and what those
/// own that were stored before has not changed.
pub proof fn the_places_are_without_a_gap(
    store: Map<BranchId, BranchModel>,
    branches: Seq<BranchModel>,
    order: Option<usize>,
    new: BranchModel,
)
    requires
        is_all_of(branches, store),
        branches.len() < usize::MAX,
        !store.dom().contains(new.id),
        new.order == place_of_new(order, branches.len()),
    ensures
        ({
            let after = stored_with_new(store, branches, new);
            &&& has_made_room(store, after, branches.len(), new)
            &&& forall|id: BranchId| #[trigger]
                store.dom().contains(id) ==> after[id].ownership == store[id].ownership
        }),
{
    let sorted = by_order(branches);
    let place = new.order as int;
    let room = stored(store, moves(sorted, place, 0));
    let after = stored_with_new(store, branches, new);
    let n = branches.len();
    lemma_sorting_keeps_all(branches, store);
    sorting_orders_the_elements(branches, |b: BranchModel| b.order as int);
    there_is_room_for_the_new_branch(order, n);
    lemma_stored_moves(store, sorted, place, 0);
    lemma_stored_push(store, moves(sorted, place, 0), new);
    assert forall|i: int| 0 <= i < n implies after[(#[trigger] sorted[i]).id] == moved(
        sorted,
        place,
        i,
    ) && after.dom().contains(sorted[i].id) by {
        assert(store.dom().contains(sorted[i].id));
    }
    assert forall|a: BranchId, b: BranchId| #[trigger]
        store.dom().contains(a) && #[trigger] store.dom().contains(b) && store[a].order
            < store[b].order implies after[a].order < after[b].order by {
        let i = choose|i: int| 0 <= i < n && (#[trigger] sorted[i]).id == a;
        let j = choose|j: int| 0 <= j < n && (#[trigger] sorted[j]).id == b;
        assert(i < j);
        assert(moved_over(i, place) < moved_over(j, place));
    }
    assert forall|id: BranchId| #[trigger] after.dom().contains(id) implies 0 <= after[id].order
        <= n by {
        if id != new.id {
            assert(store.dom().contains(id));
            let i = choose|i: int| 0 <= i < n && (#[trigger] sorted[i]).id == id;
            assert(0 <= moved_over(i, place) <= n);
        }
    }
    assert forall|a: BranchId, b: BranchId| #[trigger]
        after.dom().contains(a) && #[trigger] after.dom().contains(b) && a
            != b implies after[a].order != after[b].order by {
        if a != new.id {
            assert(store.dom().contains(a));
            let i = choose|i: int| 0 <= i < n && (#[trigger] sorted[i]).id == a;
            assert(moved_over(i, place) != place);
            if b != new.id {
                assert(store.dom().contains(b));
                let j = choose|j: int| 0 <= j < n && (#[trigger] sorted[j]).id == b;
                assert(i != j);
                if i < j {
                    assert(moved_over(i, place) < moved_over(j, place));
                } else {
                    assert(moved_over(j, place) < moved_over(i, place));
                }
            }
        } else {
            assert(store.dom().contains(b));
            let j = choose|j: int| 0 <= j < n && (#[trigger] sorted[j]).id == b;
            assert(moved_over(j, place) != place);
        }
    }
    assert forall|k: int| 0 <= k <= n implies #[trigger] has_place(after, k) by {
        if k == place {
            assert(after.dom().contains(new.id));
        } else {
            assert(is_taken(k, place, n));
            let i = choose|i: int| 0 <= i < n && #[trigger] moved_over(i, place) == k;
            assert(after.dom().contains(sorted[i].id));
            assert(after[sorted[i].id].order == k);
        }
    }
}

/// The branches from the `i`th on that lose something to a claim, each without it.
pub open spec fn claim_writes(
    branches: Seq<BranchModel>,
    claim: FileOwnershipModel,
    i: int,
) -> Seq<BranchModel>
    decreases branches.len() - i,
{
    if i < 0 || i >= branches.len() {
        seq![]
    } else if take_from(branches[i].ownership, claim).0.len() > 0 {
        seq![without_claim(branches[i], claim)] + claim_writes(branches, claim, i + 1)
    } else {
        claim_writes(branches, claim, i + 1)
    }
}

/// Some branches, from the `i`th on without what a claim takes from them.
pub open spec fn without_claim_from(
    branches: Seq<BranchModel>,
    claim: FileOwnershipModel,
    i: int,
) -> Seq<BranchModel> {
    Seq::new(
        branches.len(),
        |k: int|
            if k < i {
                branches[k]
            } else {
                without_claim(branches[k], claim)
            },
    )
}

/// What is stored when the claims from the `i`th on are taken from some branches: for each claim,
/// the branches that lose something to it.
pub open spec fn claims_writes(
    branches: Seq<BranchModel>,
    claims: Seq<FileOwnershipModel>,
    i: int,
) -> Seq<BranchModel>
    decreases claims.len() - i,
{
    if i < 0 || i >= claims.len() {
        seq![]
    } else {
        claim_writes(branches, claims[i], 0) + claims_writes(
            without_claim_from(branches, claims[i], 0),
            claims,
            i + 1,
        )
    }
}

proof fn lemma_claim_writes_forget(
    one: Seq<BranchModel>,
    other: Seq<BranchModel>,
    claim: FileOwnershipModel,
    i: int,
)
    requires
        0 <= i,
        one.len() == other.len(),
        forall|k: int| i <= k < one.len() ==> one[k] == other[k],
    ensures
        claim_writes(one, claim, i) == claim_writes(other, claim, i),
    decreases one.len() - i,
{
    if i < one.len() {
        lemma_claim_writes_forget(one, other, claim, i + 1);
    }
}

proof fn lemma_take_claim_writes(
    branches: Seq<BranchModel>,
    claim: FileOwnershipModel,
    i: int,
    n: nat,
)
    requires
        0 <= i <= branches.len(),
        n < claim_writes(branches, claim, i).len(),
    ensures
        take_claim_flow(units(n), branches, claim, i) == Flow::<Seq<BranchModel>>::Stop(
            StopModel::Ask(RequestModel::WriteBranch(claim_writes(branches, claim, i)[n as int])),
        ),
    decreases branches.len() - i,
{
    if i < branches.len() {
        let next = branches.update(i, without_claim(branches[i], claim));
        lemma_claim_writes_forget(branches, next, claim, i + 1);
        if take_from(branches[i].ownership, claim).0.len() > 0 {
            if n > 0 {
                let fewer = (n - 1) as nat;
                assert(units(n).drop_first() =~= units(fewer));
                lemma_take_claim_writes(next, claim, i + 1, fewer);
            }
        } else {
            lemma_take_claim_writes(next, claim, i + 1, n);
        }
    }
}

proof fn lemma_claim_is_taken(
    branches: Seq<BranchModel>,
    claim: FileOwnershipModel,
    i: int,
    more: Seq<ReplyModel>,
)
    requires
        0 <= i <= branches.len(),
    ensures
        take_claim_flow(units(claim_writes(branches, claim, i).len()) + more, branches, claim, i)
            == Flow::Done(without_claim_from(branches, claim, i), more),
    decreases branches.len() - i,
{
    let n = claim_writes(branches, claim, i).len();
    if i < branches.len() {
        let next = branches.update(i, without_claim(branches[i], claim));
        lemma_claim_writes_forget(branches, next, claim, i + 1);
        lemma_claim_is_taken(next, claim, i + 1, more);
        assert(without_claim_from(next, claim, i + 1) =~= without_claim_from(branches, claim, i));
        if take_from(branches[i].ownership, claim).0.len() > 0 {
            assert((units(n) + more).drop_first() =~= units((n - 1) as nat) + more);
        }
    } else {
        assert(units(n) + more =~= more);
        assert(without_claim_from(branches, claim, i) =~= branches);
    }
}

proof fn lemma_take_claims_writes(
    branches: Seq<BranchModel>,
    claims: Seq<FileOwnershipModel>,
    i: int,
    n: nat,
)
    requires
        0 <= i <= claims.len(),
        n < claims_writes(branches, claims, i).len(),
    ensures
        take_claims_flow(units(n), branches, claims, i) == Flow::<Seq<BranchModel>>::Stop(
            StopModel::Ask(
                RequestModel::WriteBranch(claims_writes(branches, claims, i)[n as int]),
            ),
        ),
    decreases claims.len() - i,
{
    if i < claims.len() {
        let first = claim_writes(branches, claims[i], 0);
        if n < first.len() {
            lemma_take_claim_writes(branches, claims[i], 0, n);
        } else {
            let later = (n - first.len()) as nat;
            assert(units(n) =~= units(first.len()) + units(later));
            lemma_claim_is_taken(branches, claims[i], 0, units(later));
            lemma_take_claims_writes(
                without_claim_from(branches, claims[i], 0),
                claims,
                i + 1,
                later,
            );
        }
    }
}

proof fn lemma_claims_are_taken(
    branches: Seq<BranchModel>,
    claims: Seq<FileOwnershipModel>,
    i: int,
    more: Seq<ReplyModel>,
) -> (left: Seq<BranchModel>)
    requires
        0 <= i <= claims.len(),
    ensures
        take_claims_flow(
            units(claims_writes(branches, claims, i).len()) + more,
            branches,
            claims,
            i,
        ) == Flow::Done(left, more),
    decreases claims.len() - i,
{
    let n = claims_writes(branches, claims, i).len();
    if i < claims.len() {
        let first = claim_writes(branches, claims[i], 0);
        let next = without_claim_from(branches, claims[i], 0);
        let later = claims_writes(next, claims, i + 1).len();
        assert(units(n) + more =~= units(first.len()) + (units(later) + more));
        lemma_claim_is_taken(branches, claims[i], 0, units(later) + more);
        lemma_claims_are_taken(next, claims, i + 1, more)
    } else {
        assert(units(n) + more =~= more);
        branches
    }
}

/// The replies with which a branch is made once there is room: the time, the id, and all branches
/// that are stored by then.
pub open spec fn made_with_owner(
    now: u128,
    id: BranchId,
    listed: Seq<BranchModel>,
) -> Seq<ReplyModel> {
    seq![ReplyModel::Millis(now), ReplyModel::Id(id), ReplyModel::Branches(listed)]
}

proof fn lemma_with_owner(
    target: TargetModel,
    commit: CommitModel,
    branches: Seq<BranchModel>,
    create: BranchCreateModel,
    now: u128,
    id: BranchId,
    listed: Seq<BranchModel>,
    more: Seq<ReplyModel>,
)
    requires
        create.ownership matches Some(ownership) && ownership.len() > 0,
    ensures
        ({
            let sorted = by_order(branches);
            let place = place_of_new(create.order, branches.len());
            let room = units(moves(sorted, place, 0).len());
            let new = new_branch(
                id,
                name_of_new(create.name, sorted),
                target,
                commit,
                now,
                place,
            );
            let owner = BranchModel { ownership: create.ownership->0, ..new };
            create_virtual_branch_flow(
                beginning(target, commit, branches) + (room + (made_with_owner(now, id, listed)
                    + more)),
                create,
            ) == take_claims_flow(
                more,
                other_applied(listed, id),
                create.ownership->0,
                0,
            ).and_then(
                |rest: Seq<BranchModel>, s: Seq<ReplyModel>| stored_owner_flow(s, owner),
            )
        }),
{
    let made = made_with_owner(now, id, listed) + more;
    lemma_after_room(target, commit, branches, create, made);
    assert(made.drop_first().drop_first().drop_first() =~= more);
    let sorted = by_order(branches);
    let place = place_of_new(create.order, branches.len());
    let new = new_branch(id, name_of_new(create.name, sorted), target, commit, now, place);
    assert(!same_ownership(new.ownership, create.ownership->0));
    let found = made.drop_first().drop_first();
    let owner = BranchModel { ownership: create.ownership->0, ..new };
    assert(set_ownership_flow(found, new, create.ownership->0) == take_claims_flow(
        more,
        other_applied(listed, id),
        create.ownership->0,
        0,
    ).and_then(|rest: Seq<BranchModel>, s: Seq<ReplyModel>| Flow::Done(owner, s)));
}

/// How storing a new branch comes out: it is stored, and gets its git reference.
pub open spec fn stored_owner_flow(s: Seq<ReplyModel>, new: BranchModel) -> Flow<BranchModel> {
    ask_unit(s, RequestModel::WriteBranch(new)).and_then(
        |u: (), s: Seq<ReplyModel>|
            ask_unit(s, RequestModel::AddBranchReference(new)).and_then(
                |u: (), s: Seq<ReplyModel>| Flow::Done(new, s),
            ),
    )
}

/// When a branch is made with an ownership, the branches that lose something to it are stored once
/// there is room, one after the other. Then the new branch is stored, with that ownership, gets its
/// git reference, and is the result.
pub proof fn the_new_branch_is_stored_behind_those_that_lose_to_it(
    target: TargetModel,
    commit: CommitModel,
    branches: Seq<BranchModel>,
    create: BranchCreateModel,
    now: u128,
    id: BranchId,
    listed: Seq<BranchModel>,
    n: nat,
    more: Seq<ReplyModel>,
)
    requires
        create.ownership matches Some(ownership) && ownership.len() > 0,
        n <= claims_writes(other_applied(listed, id), create.ownership->0, 0).len(),
    ensures
        ({
            let sorted = by_order(branches);
            let place = place_of_new(create.order, branches.len());
            let writes = claims_writes(other_applied(listed, id), create.ownership->0, 0);
            let new = new_branch(
                id,
                name_of_new(create.name, sorted),
                target,
                commit,
                now,
                place,
            );
            let owner = BranchModel { ownership: create.ownership->0, ..new };
            let room = units(moves(sorted, place, 0).len());
            let made = made_with_owner(now, id, listed);
            &&& n < writes.len() ==> create_virtual_branch_flow(
                beginning(target, commit, branches) + (room + (made + units(n))),
                create,
            ) == Flow::<BranchModel>::Stop(
                StopModel::Ask(RequestModel::WriteBranch(writes[n as int])),
            )
            &&& n == writes.len() ==> create_virtual_branch_flow(
                beginning(target, commit, branches) + (room + (made + (units(n) + more))),
                create,
            ) == stored_owner_flow(more, owner)
        }),
{
    let writes = claims_writes(other_applied(listed, id), create.ownership->0, 0);
    if n < writes.len() {
        lemma_with_owner(target, commit, branches, create, now, id, listed, units(n));
        lemma_take_claims_writes(other_applied(listed, id), create.ownership->0, 0, n);
    } else {
        lemma_with_owner(target, commit, branches, create, now, id, listed, units(n) + more);
        lemma_claims_are_taken(other_applied(listed, id), create.ownership->0, 0, more);
    }
}

proof fn lemma_stored_append(
    store: Map<BranchId, BranchModel>,
    one: Seq<BranchModel>,
    other: Seq<BranchModel>,
)
    ensures
        stored(store, one + other) == stored(stored(store, one), other),
    decreases one.len(),
{
    if one.len() > 0 {
        assert((one + other).drop_first() =~= one.drop_first() + other);
        lemma_stored_append(store.insert(one[0].id, one[0]), one.drop_first(), other);
    } else {
        assert(one + other =~= other);
    }
}

/// Whether two stores are the same but for what the branches own.
pub open spec fn is_same_but_for_ownership(
    one: Map<BranchId, BranchModel>,
    other: Map<BranchId, BranchModel>,
) -> bool {
    &&& one.dom() == other.dom()
    &&& forall|id: BranchId| #[trigger]
        one.dom().contains(id) ==> other[id] == (BranchModel {
            ownership: other[id].ownership,
            ..one[id]
        })
}

proof fn lemma_stored_owners(
    store: Map<BranchId, BranchModel>,
    current: Map<BranchId, BranchModel>,
    branches: Seq<BranchModel>,
    writes: Seq<BranchModel>,
)
    requires
        is_all_of(branches, store),
        is_same_but_for_ownership(store, current),
        forall|k: int|
            0 <= k < writes.len() ==> is_one_but_for_ownership(#[trigger] writes[k], branches),
    ensures
        is_same_but_for_ownership(store, stored(current, writes)),
    decreases writes.len(),
{
    if writes.len() > 0 {
        let write = writes[0];
        let rest = writes.drop_first();
        assert(is_one_but_for_ownership(writes[0], branches));
        let k = choose|k: int|
            0 <= k < branches.len() && write == (BranchModel {
                ownership: write.ownership,
                ..#[trigger] branches[k]
            });
        assert(store.dom().contains(branches[k].id));
        assert(store[write.id] == branches[k]);
        let next = current.insert(write.id, write);
        assert(next.dom() =~= current.dom());
        assert(is_same_but_for_ownership(store, next));
        assert forall|j: int| 0 <= j < rest.len() implies is_one_but_for_ownership(
            #[trigger] rest[j],
            branches,
        ) by {
            assert(rest[j] == writes[j + 1]);
        }
        lemma_stored_owners(store, next, branches, rest);
    }
}

proof fn lemma_claim_writes_from(
    branches: Seq<BranchModel>,
    claim: FileOwnershipModel,
    i: int,
    all: Seq<BranchModel>,
    j: int,
)
    requires
        0 <= i,
        forall|k: int|
            0 <= k < branches.len() ==> is_one_but_for_ownership(#[trigger] branches[k], all),
        0 <= j < claim_writes(branches, claim, i).len(),
    ensures
        is_one_but_for_ownership(claim_writes(branches, claim, i)[j], all),
    decreases branches.len() - i,
{
    if i < branches.len() {
        if take_from(branches[i].ownership, claim).0.len() > 0 {
            if j == 0 {
                lemma_without_claim_from(branches[i], claim, all);
            } else {
                lemma_claim_writes_from(branches, claim, i + 1, all, j - 1);
            }
        } else {
            lemma_claim_writes_from(branches, claim, i + 1, all, j);
        }
    }
}

proof fn lemma_without_claim_from(
    branch: BranchModel,
    claim: FileOwnershipModel,
    all: Seq<BranchModel>,
)
    requires
        is_one_but_for_ownership(branch, all),
    ensures
        is_one_but_for_ownership(without_claim(branch, claim), all),
{
    let k = choose|k: int|
        0 <= k < all.len() && branch == (BranchModel {
            ownership: branch.ownership,
            ..#[trigger] all[k]
        });
    let left = without_claim(branch, claim);
    assert(left == (BranchModel { ownership: left.ownership, ..all[k] }));
}

proof fn lemma_claims_writes_from(
    branches: Seq<BranchModel>,
    claims: Seq<FileOwnershipModel>,
    i: int,
    all: Seq<BranchModel>,
    j: int,
)
    requires
        0 <= i,
        forall|k: int|
            0 <= k < branches.len() ==> is_one_but_for_ownership(#[trigger] branches[k], all),
        0 <= j < claims_writes(branches, claims, i).len(),
    ensures
        is_one_but_for_ownership(claims_writes(branches, claims, i)[j], all),
    decreases claims.len() - i,
{
    if i < claims.len() {
        let first = claim_writes(branches, claims[i], 0);
        let next = without_claim_from(branches, claims[i], 0);
        if j < first.len() {
            lemma_claim_writes_from(branches, claims[i], 0, all, j);
        } else {
            assert forall|k: int| 0 <= k < next.len() implies is_one_but_for_ownership(
                #[trigger] next[k],
                all,
            ) by {
                assert(is_one_but_for_ownership(branches[k], all));
                lemma_without_claim_from(branches[k], claims[i], all);
            }
            lemma_claims_writes_from(next, claims, i + 1, all, j - first.len());
        }
    }
}

/// What is stored once room is made for a new branch, the others have given up what it is to own,
/// and the branch is stored.
pub open spec fn stored_with_owner(
    store: Map<BranchId, BranchModel>,
    branches: Seq<BranchModel>,
    listed: Seq<BranchModel>,
    new: BranchModel,
) -> Map<BranchId, BranchModel> {
    stored(
        store,
        moves(by_order(branches), new.order as int, 0) + claims_writes(
            other_applied(listed, new.id),
            new.ownership,
            0,
        ).push(new),
    )
}

/// Once a new branch is stored at its place with what it is to own, the branches have made room
/// for it: also then nothing but their place and what they own changes of the others. The branches
/// that lose something to it are read when there is room already.
pub proof fn the_places_are_without_a_gap_with_an_ownership(
    store: Map<BranchId, BranchModel>,
    branches: Seq<BranchModel>,
    order: Option<usize>,
    listed: Seq<BranchModel>,
    new: BranchModel,
)
    requires
        is_all_of(branches, store),
        branches.len() < usize::MAX,
        !store.dom().contains(new.id),
        new.order == place_of_new(order, branches.len()),
        is_all_of(listed, stored(store, moves(by_order(branches), new.order as int, 0))),
    ensures
        has_made_room(
            store,
            stored_with_owner(store, branches, listed, new),
            branches.len(),
            new,
        ),
{
    let moved = moves(by_order(branches), new.order as int, 0);
    let room = stored(store, moved);
    let others = other_applied(listed, new.id);
    let writes = claims_writes(others, new.ownership, 0);
    let owned = stored(room, writes);
    let before = stored_with_new(store, branches, new);
    let after = stored_with_owner(store, branches, listed, new);
    the_places_are_without_a_gap(store, branches, order, new);
    lemma_stored_push(store, moved, new);
    lemma_stored_append(store, moved, writes.push(new));
    lemma_stored_push(room, writes, new);
    assert(before == room.insert(new.id, new));
    assert(after == owned.insert(new.id, new));
    assert forall|k: int| 0 <= k < others.len() implies is_one_but_for_ownership(
        #[trigger] others[k],
        listed,
    ) by {
        let i = lemma_filter_from(listed, |b: BranchModel| b.applied && b.id != new.id, k);
        assert(others[k] == (BranchModel { ownership: others[k].ownership, ..listed[i] }));
    }
    assert forall|j: int| 0 <= j < writes.len() implies is_one_but_for_ownership(
        #[trigger] writes[j],
        listed,
    ) by {
        lemma_claims_writes_from(others, new.ownership, 0, listed, j);
    }
    assert forall|id: BranchId| #[trigger] room.dom().contains(id) implies room[id] == (
    BranchModel { ownership: room[id].ownership, ..room[id] }) by {}
    lemma_stored_owners(room, room, listed, writes);
    assert forall|id: BranchId| #[trigger] after.dom().contains(id) implies before.dom().contains(
        id,
    ) && after[id] == (BranchModel { ownership: after[id].ownership, ..before[id] }) by {
        if id != new.id {
            assert(room.dom().contains(id));
        }
    }
    assert(after.dom() =~= before.dom());
    assert forall|id: BranchId| #[trigger] store.dom().contains(id) implies after[id] == (
    BranchModel {
        order: after[id].order,
        ownership: after[id].ownership,
        ..store[id]
    }) by {
        assert(after.dom().contains(id));
    }
    assert forall|k: int| 0 <= k <= branches.len() implies #[trigger] has_place(after, k) by {
        assert(has_place(before, k));
        let id = choose|id: BranchId| #[trigger]
            before.dom().contains(id) && before[id].order == k;
        assert(after.dom().contains(id));
    }
    assert forall|a: BranchId, b: BranchId| #[trigger]
        store.dom().contains(a) && #[trigger] store.dom().contains(b) && store[a].order
            < store[b].order implies after[a].order < after[b].order by {
        assert(after.dom().contains(a) && after.dom().contains(b));
    }
}

} // verus!
