//! That the order in which the hunks of a file, or the files, are given does not matter to a tree.

use crate::alignment::{is_tidy, lemma_count_at};
use crate::branch::CommitModel;
use crate::claims::hunks_at;
use crate::diff::{distinct_paths, lemma_place_of, place_of, DiffHunkModel, FileDiffModel};
use crate::objects::Oid;
use crate::patch::{apply_hunks, hunks_may_come_in_any_order};
use crate::protocol::{Flow, ReplyModel, RequestModel, StopModel, TreeEditModel};
use crate::replay::lemma_edit_flow;
use crate::seqs::distinct_keys;
use crate::sharing::all_hunks;
use crate::tree::{content_flow, edit_flow, edits_flow, is_binary, write_tree_onto_commit_flow};
use vstd::multiset::Multiset;
use vstd::prelude::*;
use vstd::seq_lib::{commutative_foldr, lemma_fold_right_permutation};

verus! {

/// Whether a file has the same hunks as another, in whatever order, each at a line of its own.
pub open spec fn has_same_hunks(one: FileDiffModel, other: FileDiffModel) -> bool {
    &&& one.path == other.path
    &&& one.hunks.to_multiset() == other.hunks.to_multiset()
    &&& distinct_keys(one.hunks, |h: DiffHunkModel| h.new_start as int)
}

proof fn lemma_content(s: Seq<ReplyModel>, tree: Oid, one: FileDiffModel, other: FileDiffModel)
    requires
        has_same_hunks(one, other),
    ensures
        content_flow(s, tree, one) == content_flow(s, tree, other),
{
    broadcast use vstd::seq_lib::group_to_multiset_ensures;

    assert(one.hunks.len() == one.hunks.to_multiset().len());
    assert(other.hunks.len() == other.hunks.to_multiset().len());
    if one.hunks.len() == 1 {
        assert(one.hunks.to_multiset().count(one.hunks[0]) > 0);
        assert(other.hunks.contains(one.hunks[0]));
        assert(one.hunks =~= other.hunks);
    } else {
        assert(!is_binary(one.hunks) && !is_binary(other.hunks));
    }
    assert forall|content: Seq<u8>| #[trigger]
        apply_hunks(content, one.hunks) == apply_hunks(content, other.hunks) by {
        hunks_may_come_in_any_order(content, one.hunks, other.hunks);
    }
}

proof fn lemma_edits(
    s: Seq<ReplyModel>,
    tree: Oid,
    one: Seq<FileDiffModel>,
    other: Seq<FileDiffModel>,
    i: int,
    edits: Seq<TreeEditModel>,
)
    requires
        one.len() == other.len(),
        forall|k: int| 0 <= k < one.len() ==> has_same_hunks(#[trigger] one[k], other[k]),
    ensures
        edits_flow(s, tree, one, i, edits) == edits_flow(s, tree, other, i, edits),
    decreases one.len() - i,
{
    if 0 <= i < one.len() {
        assert(has_same_hunks(one[i], other[i]));
        assert forall|s: Seq<ReplyModel>| #[trigger]
            content_flow(s, tree, one[i]) == content_flow(s, tree, other[i]) by {
            lemma_content(s, tree, one[i], other[i]);
        }
        assert(edit_flow(s, tree, one[i]) == edit_flow(s, tree, other[i]));
        if let Flow::Done(edit, rest) = edit_flow(s, tree, one[i]) {
            let next = match edit {
                Some(edit) => edits.push(edit),
                None => edits,
            };
            lemma_edits(rest, tree, one, other, i + 1, next);
        }
    }
}

/// The hunks of each file may be given in any order: where each begins at a line of its own, the
/// tree is written in the same way.
pub proof fn hunks_make_the_same_tree_in_any_order(
    s: Seq<ReplyModel>,
    commit: Oid,
    one: Seq<FileDiffModel>,
    other: Seq<FileDiffModel>,
)
    requires
        one.len() == other.len(),
        forall|k: int| 0 <= k < one.len() ==> has_same_hunks(#[trigger] one[k], other[k]),
    ensures
        write_tree_onto_commit_flow(s, commit, one) == write_tree_onto_commit_flow(
            s,
            commit,
            other,
        ),
{
    if s.len() > 0 {
        if let ReplyModel::Commit(base) = s[0] {
            lemma_edits(s.drop_first(), base.tree, one, other, 0, seq![]);
        }
    }
}

/// The replies about some files, one file after the other, where `about` has the replies about
/// each of them.
pub open spec fn replies_about(
    about: spec_fn(FileDiffModel) -> Seq<ReplyModel>,
    files: Seq<FileDiffModel>,
) -> Seq<ReplyModel>
    decreases files.len(),
{
    if files.len() == 0 {
        seq![]
    } else {
        about(files[0]) + replies_about(about, files.drop_first())
    }
}

/// Whether the replies about a file are just those that say what becomes of its entry.
pub open spec fn is_settled(
    about: spec_fn(FileDiffModel) -> Seq<ReplyModel>,
    tree: Oid,
    file: FileDiffModel,
) -> bool {
    edit_flow(about(file), tree, file) matches Flow::Done(_, rest) && rest.len() == 0
}

/// What becomes of the entries of some files, by the replies about each of them.
pub open spec fn edits_about(
    about: spec_fn(FileDiffModel) -> Seq<ReplyModel>,
    tree: Oid,
    files: Seq<FileDiffModel>,
) -> Seq<TreeEditModel>
    decreases files.len(),
{
    if files.len() == 0 {
        seq![]
    } else {
        let edits = edits_about(about, tree, files.drop_last());
        match edit_flow(about(files.last()), tree, files.last()) {
            Flow::Done(Some(edit), _) => edits.push(edit),
            _ => edits,
        }
    }
}

proof fn lemma_edits_about(
    about: spec_fn(FileDiffModel) -> Seq<ReplyModel>,
    more: Seq<ReplyModel>,
    tree: Oid,
    files: Seq<FileDiffModel>,
    i: int,
)
    requires
        0 <= i <= files.len(),
        forall|k: int| 0 <= k < files.len() ==> is_settled(about, tree, #[trigger] files[k]),
    ensures
        edits_flow(
            replies_about(about, files.skip(i)) + more,
            tree,
            files,
            i,
            edits_about(about, tree, files.take(i)),
        ) == Flow::Done(edits_about(about, tree, files), more),
    decreases files.len() - i,
{
    if i < files.len() {
        let file = files[i];
        let rest = replies_about(about, files.skip(i + 1)) + more;
        assert(is_settled(about, tree, file));
        assert(files.skip(i).drop_first() =~= files.skip(i + 1));
        assert(replies_about(about, files.skip(i)) + more =~= about(file) + rest);
        lemma_edit_flow(about(file), rest, tree, file);
        if let Flow::Done(_, used) = edit_flow(about(file), tree, file) {
            assert(used + rest =~= rest);
        }
        assert(files.take(i + 1).drop_last() =~= files.take(i));
        lemma_edits_about(about, more, tree, files, i + 1);
    } else {
        assert(files.take(i) =~= files);
        assert(replies_about(about, files.skip(i)) + more =~= more);
    }
}

/// Some edits with what becomes of the entry of one more file.
pub open spec fn with_edit_about(
    about: spec_fn(FileDiffModel) -> Seq<ReplyModel>,
    tree: Oid,
    file: FileDiffModel,
    edits: Multiset<TreeEditModel>,
) -> Multiset<TreeEditModel> {
    match edit_flow(about(file), tree, file) {
        Flow::Done(Some(edit), _) => edits.insert(edit),
        _ => edits,
    }
}

proof fn lemma_edits_fold(
    about: spec_fn(FileDiffModel) -> Seq<ReplyModel>,
    tree: Oid,
    files: Seq<FileDiffModel>,
    edits: Multiset<TreeEditModel>,
)
    ensures
        files.fold_right(
            |file: FileDiffModel, edits: Multiset<TreeEditModel>|
                with_edit_about(about, tree, file, edits),
            edits,
        ) == edits_about(about, tree, files).to_multiset().add(edits),
    decreases files.len(),
{
    broadcast use vstd::seq_lib::group_to_multiset_ensures;

    let step = |file: FileDiffModel, edits: Multiset<TreeEditModel>|
        with_edit_about(about, tree, file, edits);
    if files.len() == 0 {
        assert(edits_about(about, tree, files).to_multiset().add(edits) =~= edits);
    } else {
        let before = edits_about(about, tree, files.drop_last());
        let next = step(files.last(), edits);
        lemma_edits_fold(about, tree, files.drop_last(), next);
        assert(before.to_multiset().add(next) =~= edits_about(
            about,
            tree,
            files,
        ).to_multiset().add(edits));
    }
}

proof fn lemma_edits_permuted(
    about: spec_fn(FileDiffModel) -> Seq<ReplyModel>,
    tree: Oid,
    one: Seq<FileDiffModel>,
    other: Seq<FileDiffModel>,
)
    requires
        one.to_multiset() == other.to_multiset(),
    ensures
        edits_about(about, tree, one).to_multiset() == edits_about(
            about,
            tree,
            other,
        ).to_multiset(),
{
    let step = |file: FileDiffModel, edits: Multiset<TreeEditModel>|
        with_edit_about(about, tree, file, edits);
    let none = Multiset::<TreeEditModel>::empty();
    assert forall|x: FileDiffModel, y: FileDiffModel, edits: Multiset<TreeEditModel>| #[trigger]
        step(x, step(y, edits)) == step(y, step(x, edits)) by {
        assert(step(x, step(y, edits)) =~= step(y, step(x, edits)));
    }
    assert(commutative_foldr(step));
    lemma_fold_right_permutation(one, other, step, none);
    lemma_edits_fold(about, tree, one, none);
    lemma_edits_fold(about, tree, other, none);
    assert(edits_about(about, tree, one).to_multiset().add(none) =~= edits_about(
        about,
        tree,
        one,
    ).to_multiset());
    assert(edits_about(about, tree, other).to_multiset().add(none) =~= edits_about(
        about,
        tree,
        other,
    ).to_multiset());
}

proof fn lemma_write_about(
    about: spec_fn(FileDiffModel) -> Seq<ReplyModel>,
    base: CommitModel,
    commit: Oid,
    files: Seq<FileDiffModel>,
    tree: Oid,
)
    requires
        forall|k: int| 0 <= k < files.len() ==> is_settled(about, base.tree, #[trigger] files[k]),
    ensures
        ({
            let s = seq![ReplyModel::Commit(base)] + replies_about(about, files);
            let edits = edits_about(about, base.tree, files);
            &&& write_tree_onto_commit_flow(s, commit, files) == Flow::<Oid>::Stop(
                StopModel::Ask(RequestModel::WriteTree { base: base.tree, edits }),
            )
            &&& write_tree_onto_commit_flow(s.push(ReplyModel::Oid(tree)), commit, files)
                == Flow::Done(tree, seq![])
        }),
{
    let replies = replies_about(about, files);
    let s = seq![ReplyModel::Commit(base)] + replies;
    let written = seq![ReplyModel::Oid(tree)];
    assert(files.skip(0) =~= files);
    assert(files.take(0) =~= seq![]);
    assert(s.drop_first() =~= replies + Seq::<ReplyModel>::empty());
    assert(s.push(ReplyModel::Oid(tree)).drop_first() =~= replies + written);
    assert(written.drop_first() =~= seq![]);
    lemma_edits_about(about, seq![], base.tree, files, 0);
    lemma_edits_about(about, written, base.tree, files, 0);
}

/// Whether two diffs are written on top of a commit with the same edits of the tree, in whatever
/// order, and the tree that comes back is the result.
pub open spec fn writes_same_tree(
    about: spec_fn(FileDiffModel) -> Seq<ReplyModel>,
    base: CommitModel,
    commit: Oid,
    one: Seq<FileDiffModel>,
    other: Seq<FileDiffModel>,
    tree: Oid,
) -> bool {
    let s = seq![ReplyModel::Commit(base)] + replies_about(about, one);
    let t = seq![ReplyModel::Commit(base)] + replies_about(about, other);
    let edits = edits_about(about, base.tree, one);
    let same_edits = edits_about(about, base.tree, other);
    &&& edits.to_multiset() == same_edits.to_multiset()
    &&& write_tree_onto_commit_flow(s, commit, one) == Flow::<Oid>::Stop(
        StopModel::Ask(RequestModel::WriteTree { base: base.tree, edits }),
    )
    &&& write_tree_onto_commit_flow(t, commit, other) == Flow::<Oid>::Stop(
        StopModel::Ask(RequestModel::WriteTree { base: base.tree, edits: same_edits }),
    )
    &&& write_tree_onto_commit_flow(s.push(ReplyModel::Oid(tree)), commit, one)
        == Flow::Done(tree, seq![])
    &&& write_tree_onto_commit_flow(t.push(ReplyModel::Oid(tree)), commit, other)
        == Flow::Done(tree, seq![])
}

/// The files may be given in any order: as long as the replies about each file stay the same, the
/// tree is written with the same edits, in whatever order.
pub proof fn files_make_the_same_tree_in_any_order(
    about: spec_fn(FileDiffModel) -> Seq<ReplyModel>,
    base: CommitModel,
    commit: Oid,
    one: Seq<FileDiffModel>,
    other: Seq<FileDiffModel>,
    tree: Oid,
)
    requires
        one.to_multiset() == other.to_multiset(),
        forall|k: int| 0 <= k < one.len() ==> is_settled(about, base.tree, #[trigger] one[k]),
    ensures
        writes_same_tree(about, base, commit, one, other, tree),
{
    broadcast use vstd::seq_lib::group_to_multiset_ensures;

    assert forall|k: int| 0 <= k < other.len() implies is_settled(
        about,
        base.tree,
        #[trigger] other[k],
    ) by {
        assert(other.to_multiset().count(other[k]) > 0);
        assert(one.contains(other[k]));
        let i = choose|i: int| 0 <= i < one.len() && one[i] == other[k];
        assert(is_settled(about, base.tree, one[i]));
    }
    lemma_edits_permuted(about, base.tree, one, other);
    lemma_write_about(about, base, commit, one, tree);
    lemma_write_about(about, base, commit, other, tree);
}

/// Whether two diffs have the same files with the same hunks, in whatever order, each hunk of a file
/// at a line of its own.
pub open spec fn is_same_diff(one: Seq<FileDiffModel>, other: Seq<FileDiffModel>) -> bool {
    &&& is_tidy(one)
    &&& is_tidy(other)
    &&& all_hunks(one) == all_hunks(other)
    &&& forall|k: int|
        0 <= k < one.len() ==> distinct_keys(
            (#[trigger] one[k]).hunks,
            |h: DiffHunkModel| h.new_start as int,
        )
}

/// The files of one diff with the hunks that they have in another.
pub open spec fn with_hunks_of(
    one: Seq<FileDiffModel>,
    other: Seq<FileDiffModel>,
) -> Seq<FileDiffModel> {
    Seq::new(
        one.len(),
        |k: int| FileDiffModel { path: one[k].path, hunks: hunks_at(other, one[k].path) },
    )
}

proof fn lemma_at_own_place(files: Seq<FileDiffModel>, k: int)
    requires
        distinct_paths(files),
        0 <= k < files.len(),
    ensures
        place_of(files, files[k].path) == k,
{
    let at = place_of(files, files[k].path);
    lemma_place_of(files, files[k].path);
    if at < k {
        assert(files[at].path != files[k].path);
    }
}

proof fn lemma_same_hunks_at(
    one: Seq<FileDiffModel>,
    other: Seq<FileDiffModel>,
    path: Seq<char>,
)
    requires
        distinct_paths(one),
        distinct_paths(other),
        all_hunks(one) == all_hunks(other),
    ensures
        hunks_at(one, path).to_multiset() == hunks_at(other, path).to_multiset(),
        hunks_at(one, path).len() == hunks_at(other, path).len(),
{
    broadcast use vstd::seq_lib::group_to_multiset_ensures;

    assert forall|h: DiffHunkModel| #[trigger]
        hunks_at(one, path).to_multiset().count(h) == hunks_at(other, path).to_multiset().count(
            h,
        ) by {
        lemma_count_at(one, path, h);
        lemma_count_at(other, path, h);
    }
    assert(hunks_at(one, path).to_multiset() =~= hunks_at(other, path).to_multiset());
    assert(hunks_at(one, path).len() == hunks_at(one, path).to_multiset().len());
    assert(hunks_at(other, path).len() == hunks_at(other, path).to_multiset().len());
}

proof fn lemma_no_file_twice(files: Seq<FileDiffModel>)
    requires
        distinct_paths(files),
    ensures
        files.no_duplicates(),
{
    assert forall|i: int, j: int|
        0 <= i < files.len() && 0 <= j < files.len() && i != j implies files[i] != files[j] by {
        if i < j {
            assert(files[i].path != files[j].path);
        } else {
            assert(files[j].path != files[i].path);
        }
    }
}

proof fn lemma_same_files(one: Seq<FileDiffModel>, other: Seq<FileDiffModel>)
    requires
        is_same_diff(one, other),
    ensures
        with_hunks_of(one, other).to_multiset() == other.to_multiset(),
        forall|k: int|
            0 <= k < one.len() ==> has_same_hunks(
                #[trigger] one[k],
                with_hunks_of(one, other)[k],
            ),
{
    broadcast use vstd::seq_lib::group_to_multiset_ensures;

    let turned = with_hunks_of(one, other);
    assert forall|k: int| 0 <= k < one.len() implies has_same_hunks(#[trigger] one[k], turned[k])
        && other.contains(turned[k]) by {
        let path = one[k].path;
        lemma_at_own_place(one, k);
        lemma_same_hunks_at(one, other, path);
        lemma_place_of(other, path);
        assert(one[k].hunks.len() > 0);
        let at = place_of(other, path);
        assert(other[at] == turned[k]);
    }
    assert(distinct_paths(turned)) by {
        assert forall|i: int, j: int| 0 <= i < j < turned.len() implies (#[trigger] turned[i]).path
            != (#[trigger] turned[j]).path by {
            assert(one[i].path != one[j].path);
        }
    }
    lemma_no_file_twice(turned);
    lemma_no_file_twice(other);
    turned.lemma_multiset_has_no_duplicates();
    other.lemma_multiset_has_no_duplicates();
    assert forall|f: FileDiffModel| #[trigger]
        turned.to_multiset().count(f) == other.to_multiset().count(f) by {
        if turned.contains(f) {
            let k = choose|k: int| 0 <= k < turned.len() && turned[k] == f;
            assert(has_same_hunks(one[k], turned[k]));
            assert(other.contains(turned[k]));
        } else if other.contains(f) {
            let j = choose|j: int| 0 <= j < other.len() && other[j] == f;
            lemma_at_own_place(other, j);
            lemma_same_hunks_at(one, other, f.path);
            assert(other[j].hunks.len() > 0);
            lemma_place_of(one, f.path);
            let k = place_of(one, f.path);
            assert(one[k].path == f.path);
            assert(turned[k] == f);
        }
    }
    assert(turned.to_multiset() =~= other.to_multiset());
}

proof fn lemma_edits_of_same_hunks(
    about: spec_fn(FileDiffModel) -> Seq<ReplyModel>,
    tree: Oid,
    one: Seq<FileDiffModel>,
    other: Seq<FileDiffModel>,
)
    requires
        one.len() == other.len(),
        forall|k: int| 0 <= k < one.len() ==> has_same_hunks(#[trigger] one[k], other[k]),
        forall|k: int| 0 <= k < one.len() ==> about(#[trigger] one[k]) == about(other[k]),
    ensures
        edits_about(about, tree, one) == edits_about(about, tree, other),
        forall|k: int|
            0 <= k < one.len() ==> (is_settled(about, tree, #[trigger] one[k]) <==> is_settled(
                about,
                tree,
                other[k],
            )),
    decreases one.len(),
{
    if one.len() > 0 {
        let n = one.len() - 1;
        let a = one.drop_last();
        let b = other.drop_last();
        assert forall|k: int| 0 <= k < a.len() implies has_same_hunks(#[trigger] a[k], b[k])
            && about(a[k]) == about(b[k]) by {
            assert(has_same_hunks(one[k], other[k]));
            assert(about(one[k]) == about(other[k]));
        }
        lemma_edits_of_same_hunks(about, tree, a, b);
        assert(has_same_hunks(one[n], other[n]));
        assert(about(one[n]) == about(other[n]));
        assert forall|s: Seq<ReplyModel>| #[trigger]
            content_flow(s, tree, one[n]) == content_flow(s, tree, other[n]) by {
            lemma_content(s, tree, one[n], other[n]);
        }
        assert(edit_flow(about(one[n]), tree, one[n]) == edit_flow(
            about(other[n]),
            tree,
            other[n],
        ));
        assert forall|k: int| 0 <= k < one.len() implies (is_settled(
            about,
            tree,
            #[trigger] one[k],
        ) <==> is_settled(about, tree, other[k])) by {
            if k < n {
                assert(a[k] == one[k] && b[k] == other[k]);
            }
        }
    }
}

/// The same hunks make the same tree, in whatever order the files and the hunks of each file are
/// given: as long as the replies about each file stay the same, the tree is written with the same
/// edits.
pub proof fn the_same_hunks_make_the_same_tree(
    about: spec_fn(Seq<char>) -> Seq<ReplyModel>,
    base: CommitModel,
    commit: Oid,
    one: Seq<FileDiffModel>,
    other: Seq<FileDiffModel>,
    tree: Oid,
)
    requires
        is_same_diff(one, other),
        forall|k: int|
            0 <= k < one.len() ==> is_settled(
                |f: FileDiffModel| about(f.path),
                base.tree,
                #[trigger] one[k],
            ),
    ensures
        writes_same_tree(|f: FileDiffModel| about(f.path), base, commit, one, other, tree),
{
    let of_file = |f: FileDiffModel| about(f.path);
    let turned = with_hunks_of(one, other);
    lemma_same_files(one, other);
    lemma_edits_of_same_hunks(of_file, base.tree, one, turned);
    assert forall|k: int| 0 <= k < turned.len() implies is_settled(
        of_file,
        base.tree,
        #[trigger] turned[k],
    ) by {
        assert(is_settled(of_file, base.tree, one[k]));
    }
    lemma_write_about(of_file, base, commit, one, tree);
    files_make_the_same_tree_in_any_order(of_file, base, commit, turned, other, tree);
}

} // verus!
