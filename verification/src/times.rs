//! When files were changed, each asked for once.

use crate::protocol::{
    ask_millis, ask_times, FileTimes, Flow, ReplyModel, Request, RequestModel, Stop, Tape,
};
use crate::seqs::{lemma_views_push, views};
use vstd::prelude::*;

verus! {

/// When a file was changed, in milliseconds since 1970.
#[derive(Debug)]
pub struct FileTime {
    pub path: String,
    pub millis: u128,
}

/// When a file was changed.
pub struct FileTimeModel {
    pub path: Seq<char>,
    pub millis: u128,
}

impl View for FileTime {
    type V = FileTimeModel;

    open spec fn view(&self) -> FileTimeModel {
        FileTimeModel { path: self.path@, millis: self.millis }
    }
}

/// The position of the time of a file, or the number of times where there is none.
pub open spec fn time_of(times: Seq<FileTimeModel>, path: Seq<char>) -> int
    decreases times.len(),
{
    if times.len() == 0 || times[0].path == path {
        0
    } else {
        1 + time_of(times.drop_first(), path)
    }
}

/// How asking when a file was changed comes out: the time of its last change, or else that when
/// it was made, or else the present. What is known already is not asked again.
pub open spec fn get_mtime_flow(
    s: Seq<ReplyModel>,
    known: Seq<FileTimeModel>,
    in_repository: bool,
    path: Seq<char>,
) -> Flow<(u128, Seq<FileTimeModel>)> {
    let at = time_of(known, path);
    if 0 <= at < known.len() {
        Flow::Done((known[at].millis, known), s)
    } else {
        ask_times(s, RequestModel::FileTimes { in_repository, path }).and_then(
            |times: FileTimes, s: Seq<ReplyModel>|
                (match (times.modified, times.created) {
                    (Some(millis), _) => Flow::Done(millis, s),
                    (None, Some(millis)) => Flow::Done(millis, s),
                    (None, None) => ask_millis(s, RequestModel::Now),
                }).and_then(
                    |millis: u128, s: Seq<ReplyModel>|
                        Flow::Done((millis, known.push(FileTimeModel { path, millis })), s),
                ),
        )
    }
}

/// When a file was changed.
pub fn get_mtime(
    tape: &mut Tape,
    known: &mut Vec<FileTime>,
    in_repository: bool,
    path: &String,
) -> (r: Result<u128, Stop>)
    ensures
        (match r {
            Ok(millis) => Flow::Done((millis, views(final(known)@)), final(tape)@),
            Err(stop) => Flow::Stop(stop@),
        }) == get_mtime_flow(old(tape)@, views(old(known)@), in_repository, path@),
        r is Err ==> views(final(known)@) == views(old(known)@),
{
    let ghost all = views(known@);
    let mut at: usize = 0;
    assert(all.skip(0) =~= all);
    while at < known.len() && known[at].path != *path
        invariant
            *known == *old(known),
            *tape == *old(tape),
            all == views(known@),
            at <= known@.len(),
            time_of(all, path@) == at + time_of(all.skip(at as int), path@),
        decreases known@.len() - at,
    {
        assert(all.skip(at as int).drop_first() =~= all.skip(at + 1));
        at = at + 1;
    }
    if at < known.len() {
        return Ok(known[at].millis);
    }
    let times = tape.ask_times(Request::FileTimes { in_repository, path: path.clone() })?;
    let millis: u128 = match (times.modified, times.created) {
        (Some(millis), _) => millis,
        (None, Some(millis)) => millis,
        (None, None) => tape.ask_millis(Request::Now)?,
    };
    let ghost before = known@;
    known.push(FileTime { path: path.clone(), millis });
    proof {
        lemma_views_push(before, known@.last());
    }
    Ok(millis)
}

proof fn lemma_time_of(times: Seq<FileTimeModel>, path: Seq<char>)
    ensures
        0 <= time_of(times, path) <= times.len(),
        time_of(times, path) < times.len() ==> times[time_of(times, path)].path == path,
        forall|k: int| 0 <= k < time_of(times, path) ==> (#[trigger] times[k]).path != path,
    decreases times.len(),
{
    if times.len() > 0 && times[0].path != path {
        lemma_time_of(times.drop_first(), path);
        assert forall|k: int| 0 <= k < time_of(times, path) implies (#[trigger] times[k]).path
            != path by {
            if k > 0 {
                assert(times[k] == times.drop_first()[k - 1]);
            }
        }
    }
}

/// A file is asked for once: when its time is asked for again, the answer is the same, and nothing
/// is asked of the outside.
pub proof fn a_file_is_asked_for_once(
    s: Seq<ReplyModel>,
    later: Seq<ReplyModel>,
    known: Seq<FileTimeModel>,
    in_repository: bool,
    path: Seq<char>,
)
    ensures
        get_mtime_flow(s, known, in_repository, path) matches Flow::Done(r, _) ==> get_mtime_flow(
            later,
            r.1,
            in_repository,
            path,
        ) == Flow::Done(r, later),
{
    lemma_time_of(known, path);
    match get_mtime_flow(s, known, in_repository, path) {
        Flow::Done(r, _) => {
            lemma_time_of(r.1, path);
            if time_of(known, path) >= known.len() {
                let n = known.len() as int;
                assert(r.1[n].path == path);
                let at = time_of(r.1, path);
                if at < n {
                    assert(known[at].path == path);
                }
            }
        },
        Flow::Stop(_) => {},
    }
}

} // verus!
