//! How texts are taken apart, and how numbers are written.

use crate::diff::{any_lists, lists, DiffHunkModel};
use crate::owned::has_range_of;
use crate::ownership::FileOwnershipModel;
use crate::text::{
    contains_text, decimal, digit_char, is_digit, is_number, lemma_first_of_is, lines_of,
    number_of, number_of_decimal, stands_at, starts_with,
};
use vstd::prelude::*;

verus! {

/// A line ends at a line feed, and a carriage return before it does not belong to it. What comes
/// behind is taken apart in the same way.
pub proof fn a_line_ends_at_a_line_feed(line: Seq<char>, rest: Seq<char>)
    requires
        !line.contains('\n'),
    ensures
        line.len() == 0 || line.last() != '\r' ==> lines_of(line + seq!['\n'] + rest) == seq![line]
            + lines_of(rest),
        lines_of(line + seq!['\r', '\n'] + rest) == seq![line] + lines_of(rest),
        line.len() > 0 ==> lines_of(line) == seq![line],
        lines_of(seq![]) == Seq::<Seq<char>>::empty(),
{
    let n = line.len() as int;
    assert forall|k: int| 0 <= k < n implies line[k] != '\n' by {
        assert(line.contains(line[k]));
    }
    let fed = line + seq!['\n'] + rest;
    lemma_first_of_is(fed, '\n', n);
    assert(fed.take(n) =~= line);
    assert(fed.skip(n + 1) =~= rest);
    let returned = line + seq!['\r', '\n'] + rest;
    assert forall|k: int| 0 <= k < n + 1 implies returned[k] != '\n' by {
        if k < n {
            assert(returned[k] == line[k]);
        }
    }
    lemma_first_of_is(returned, '\n', n + 1);
    assert(returned.take(n + 1) =~= line.push('\r'));
    assert(line.push('\r').drop_last() =~= line);
    assert(returned.skip(n + 2) =~= rest);
    lemma_first_of_is(line, '\n', n);
}

/// A text holds another just where it is made of something before it, the other, and something
/// behind it; it begins with another where nothing comes before.
pub proof fn what_is_held_stands_between(
    whole: Seq<char>,
    part: Seq<char>,
    front: Seq<char>,
    back: Seq<char>,
)
    ensures
        contains_text(front + part + back, part),
        starts_with(part + back, part),
        contains_text(whole, part) ==> exists|front: Seq<char>, back: Seq<char>|
            whole == #[trigger] (front + part + back),
        starts_with(whole, part) ==> exists|back: Seq<char>| whole == #[trigger] (part + back),
{
    let all = front + part + back;
    assert(all.subrange(front.len() as int, (front.len() + part.len()) as int) =~= part);
    assert(stands_at(all, part, front.len() as int));
    assert((part + back).take(part.len() as int) =~= part);
    if contains_text(whole, part) {
        let at = choose|at: int| stands_at(whole, part, at);
        let before = whole.take(at);
        let behind = whole.skip(at + part.len() as int);
        assert(whole =~= before + part + behind);
    }
    if starts_with(whole, part) {
        assert(whole =~= part + whole.skip(part.len() as int));
    }
}

/// A number is written in digits, without a zero before them, and each digit counts ten times as much
/// as the one behind it.
pub proof fn a_number_is_written_without_leading_zeros(n: nat, text: Seq<char>, digit: char)
    requires
        is_digit(digit),
    ensures
        is_number(decimal(n)),
        decimal(0) == seq!['0'],
        n > 0 ==> decimal(n)[0] != '0',
        number_of(seq![]) == 0,
        number_of(text.push(digit)) == number_of(text) * 10 + (digit as u32 - '0' as u32),
    decreases n,
{
    number_of_decimal(n);
    assert(digit_char(0) == '0');
    assert(decimal(0) =~= seq!['0']);
    assert(text.push(digit).drop_last() =~= text);
    if n >= 10 {
        a_number_is_written_without_leading_zeros(n / 10, text, digit);
        assert(decimal(n)[0] == decimal(n / 10)[0]);
    } else if n > 0 {
        assert(decimal(n)[0] == digit_char(n));
    }
}

/// A hunk of a file is listed by some ownerships just where one of them is of the file and has a range
/// with the lines of the hunk.
pub proof fn a_hunk_is_listed_by_its_lines(
    files: Seq<FileOwnershipModel>,
    path: Seq<char>,
    hunk: DiffHunkModel,
)
    ensures
        any_lists(files, path, hunk) <==> exists|i: int|
            0 <= i < files.len() && (#[trigger] files[i]).file_path == path && has_range_of(
                files[i].hunks,
                hunk,
            ),
{
    if any_lists(files, path, hunk) {
        let i = choose|i: int|
            0 <= i < files.len() && (#[trigger] files[i]).file_path == path && lists(
                files[i].hunks,
                hunk,
            );
        assert(has_range_of(files[i].hunks, hunk));
    }
    if exists|i: int|
        0 <= i < files.len() && (#[trigger] files[i]).file_path == path && has_range_of(
            files[i].hunks,
            hunk,
        ) {
        let i = choose|i: int|
            0 <= i < files.len() && (#[trigger] files[i]).file_path == path && has_range_of(
                files[i].hunks,
                hunk,
            );
        assert(lists(files[i].hunks, hunk));
    }
}

} // verus!
