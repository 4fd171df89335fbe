//! Noting which files are in conflict.

use crate::objects::Oid;
use crate::protocol::{
    ask_conflicts, ask_unit, fail, outcome, BranchError, BranchErrorModel, Conflict, ConflictModel,
    Flow, MergeIndex, ReplyModel, Request, RequestModel, Stop, Tape,
};
use crate::seqs::{lemma_views_push, views};
use vstd::prelude::*;
use vstd::utf8::{decode_utf8, valid_utf8};

verus! {

/// The paths of the conflicts from the given one on, behind those found already. A conflict that
/// cannot be read, or that our side has no part in, is passed over.
pub open spec fn paths_from(conflicts: Seq<ConflictModel>, i: int, paths: Seq<Seq<char>>) -> Result<
    Seq<Seq<char>>,
    BranchErrorModel,
>
    decreases conflicts.len() - i,
{
    if i < 0 || i >= conflicts.len() {
        Ok(paths)
    } else {
        match conflicts[i] {
            ConflictModel::Ours(path) => if valid_utf8(path) {
                paths_from(conflicts, i + 1, paths.push(decode_utf8(path)))
            } else {
                Err(BranchErrorModel::PathNotUtf8)
            },
            _ => paths_from(conflicts, i + 1, paths),
        }
    }
}

/// The paths that are in conflict.
pub open spec fn paths_of(conflicts: Seq<ConflictModel>) -> Result<
    Seq<Seq<char>>,
    BranchErrorModel,
> {
    paths_from(conflicts, 0, seq![])
}

/// The paths that are in conflict.
pub fn conflict_paths(conflicts: &Vec<Conflict>) -> (r: Result<Vec<String>, BranchError>)
    ensures
        (match r {
            Ok(paths) => Ok(views(paths@)),
            Err(error) => Err(error@),
        }) == paths_of(views(conflicts@)),
{
    let mut paths: Vec<String> = Vec::new();
    let mut i: usize = 0;
    assert(views(paths@) =~= seq![]);
    while i < conflicts.len()
        invariant
            i <= conflicts@.len(),
            paths_of(views(conflicts@)) == paths_from(
                views(conflicts@),
                i as int,
                views(paths@),
            ),
        decreases conflicts@.len() - i,
    {
        let ghost before = paths@;
        if let Conflict::Ours(path) = &conflicts[i] {
            match std::str::from_utf8(path.as_slice()) {
                Ok(text) => {
                    paths.push(text.to_owned());
                    proof {
                        lemma_views_push(before, paths@.last());
                    }
                },
                Err(_) => {
                    return Err(BranchError::PathNotUtf8);
                },
            }
        }
        i = i + 1;
    }
    Ok(paths)
}

/// How checking a merge with conflicts out comes out: the files get conflict markers, and the
/// project is noted as resolving the conflicts, with the given commit as what is being merged.
pub open spec fn check_out_conflicts_flow(s: Seq<ReplyModel>, index: MergeIndex, parent: Oid) -> Flow<
    (),
> {
    ask_unit(s, RequestModel::CheckoutIndex { index: index.handle, with_conflicts: true }).and_then(
        |u: (), s: Seq<ReplyModel>|
            ask_conflicts(s, RequestModel::IndexConflicts(index.handle)).and_then(
                |conflicts: Seq<ConflictModel>, s: Seq<ReplyModel>|
                    match paths_of(conflicts) {
                        Ok(paths) => ask_unit(s, RequestModel::MarkConflicts { paths, parent }),
                        Err(error) => fail(error),
                    },
            ),
    )
}

/// Checks a merge with conflicts out.
pub(crate) fn check_out_conflicts(tape: &mut Tape, index: MergeIndex, parent: Oid) -> (r: Result<
    (),
    Stop,
>)
    ensures
        outcome(r, final(tape)@) == check_out_conflicts_flow(old(tape)@, index, parent),
{
    tape.ask_unit(Request::CheckoutIndex { index: index.handle, with_conflicts: true })?;
    let conflicts = tape.ask_conflicts(Request::IndexConflicts(index.handle))?;
    match conflict_paths(conflicts) {
        Ok(paths) => tape.ask_unit(Request::MarkConflicts { paths, parent }),
        Err(error) => Err(Stop::Fail(error)),
    }
}

} // verus!
