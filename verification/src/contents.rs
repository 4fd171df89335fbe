//! What the content of files, hunks and ids comes to.

use crate::diff::DiffHunkModel;
use crate::digest::{diff_hash_of, md5_hex};
use crate::objects::{hex_number, is_hex_digit, is_oid_text, oid_of_text};
use crate::patch::{
    apply_from, apply_hunk, apply_hunks, by_start, has_no_end, headers_of, held_number, in_range,
    overflows, patch_parses, patched, until,
};
use crate::protocol::BranchErrorModel;
use crate::seqs::{lemma_place_for, place_for, sorted_by_key, sorting_orders_the_elements};
use crate::text::{decimal, is_digit, joined, lemma_first_of_is, lines_of, number_of_decimal};
use vstd::prelude::*;
use vstd::utf8::encode_utf8;

verus! {

/// Whether some texts are lines: none holds a line feed or ends with a carriage return, and the last
/// is not empty.
pub open spec fn are_lines(lines: Seq<Seq<char>>) -> bool {
    &&& lines.len() > 0
    &&& lines.last().len() > 0
    &&& forall|i: int| 0 <= i < lines.len() ==> is_line(#[trigger] lines[i])
}

/// Whether a text is one line.
pub open spec fn is_line(line: Seq<char>) -> bool {
    &&& forall|k: int| 0 <= k < line.len() ==> line[k] != '\n'
    &&& line.len() > 0 ==> line.last() != '\r'
}

proof fn lemma_joined_first(lines: Seq<Seq<char>>)
    requires
        lines.len() > 1,
    ensures
        joined(lines) == lines[0].push('\n') + joined(lines.drop_first()),
    decreases lines.len(),
{
    let rest = lines.drop_first();
    if lines.len() == 2 {
        assert(lines.drop_last() =~= seq![lines[0]]);
        assert(joined(lines.drop_last()) == lines[0]);
        assert(joined(rest) == lines[1]);
    } else {
        lemma_joined_first(lines.drop_last());
        assert(lines.drop_last().drop_first() =~= rest.drop_last());
        assert(joined(lines) =~= lines[0].push('\n') + joined(rest));
    }
}

/// The lines of a text that lines are joined to are these lines again.
pub proof fn lines_of_joined(lines: Seq<Seq<char>>)
    requires
        are_lines(lines),
    ensures
        lines_of(joined(lines)) == lines,
    decreases lines.len(),
{
    let s = joined(lines);
    let first = lines[0];
    assert(is_line(lines[0]));
    if lines.len() == 1 {
        lemma_first_of_is(s, '\n', s.len() as int);
        assert(seq![s] =~= lines);
    } else {
        let rest = lines.drop_first();
        lemma_joined_first(lines);
        assert forall|i: int| 0 <= i < rest.len() implies is_line(#[trigger] rest[i]) by {
            assert(is_line(lines[i + 1]));
        }
        lines_of_joined(rest);
        let end = first.len() as int;
        assert(s[end] == '\n');
        assert forall|k: int| 0 <= k < end implies s[k] != '\n' by {
            assert(s[k] == first[k]);
        }
        lemma_first_of_is(s, '\n', end);
        assert(s.take(end) =~= first);
        assert(s.skip(end + 1) =~= joined(rest));
        assert(seq![first] + rest =~= lines);
    }
}

/// The hash of a diff is the digest of those of its lines, but for the first, that begin with a plus
/// or a minus, with a line feed between each two.
pub proof fn a_hash_is_the_digest_of_the_changed_lines(lines: Seq<Seq<char>>)
    requires
        are_lines(lines),
    ensures
        diff_hash_of(joined(lines)) == md5_hex(
            encode_utf8(
                joined(
                    lines.drop_first().filter(
                        |line: Seq<char>| line.len() > 0 && (line[0] == '+' || line[0] == '-'),
                    ),
                ),
            ),
        ),
{
    lines_of_joined(lines);
    let plain = |line: Seq<char>| line.len() > 0 && (line[0] == '+' || line[0] == '-');
    let change = |line: Seq<char>| crate::digest::is_change(line);
    assert(plain =~= change);
}

/// No hunks leave the content as it is. One hunk makes of it what the patch with its text does:
/// nothing where the patch cannot be read, or where it does not fit.
pub proof fn a_hunk_is_applied_as_a_patch(content: Seq<u8>, hunk: DiffHunkModel)
    ensures
        apply_hunks(content, seq![]) == Ok::<Seq<u8>, BranchErrorModel>(content),
        ({
            let patch = "--- original\n+++ modified\n"@ + hunk.diff;
            apply_hunks(content, seq![hunk]) == if !in_range(patch) || !patch_parses(patch) {
                Err::<Seq<u8>, BranchErrorModel>(BranchErrorModel::PatchUnreadable(hunk.diff))
            } else if patched(content, patch) is None {
                Err::<Seq<u8>, BranchErrorModel>(BranchErrorModel::PatchRejected(hunk.diff))
            } else {
                Ok::<Seq<u8>, BranchErrorModel>(patched(content, patch)->0)
            }
        }),
{
    let one = seq![hunk];
    let key = |h: DiffHunkModel| h.new_start as int;
    assert(one.drop_last() =~= seq![]);
    sorting_orders_the_elements(one.drop_last(), key);
    reveal_with_fuel(sorted_by_key, 3);
    reveal_with_fuel(place_for, 2);
    reveal_with_fuel(apply_from, 3);
    assert(by_start(one) =~= one);
    assert(by_start(seq![]) =~= seq![]);
}

proof fn lemma_apply_push(
    content: Seq<u8>,
    hunks: Seq<DiffHunkModel>,
    hunk: DiffHunkModel,
    i: int,
)
    requires
        0 <= i <= hunks.len(),
    ensures
        apply_from(content, hunks.push(hunk), i) == match apply_from(content, hunks, i) {
            Ok(made) => apply_hunk(made, hunk),
            Err(error) => Err(error),
        },
    decreases hunks.len() - i,
{
    let all = hunks.push(hunk);
    if i < hunks.len() {
        assert(all[i] == hunks[i]);
        if let Ok(made) = apply_hunk(content, hunks[i]) {
            lemma_apply_push(made, hunks, hunk, i + 1);
        }
    } else {
        assert(all[i] == hunk);
        reveal_with_fuel(apply_from, 3);
    }
}

/// Hunks are applied one after the other, from the top of the file to its end: one that begins behind
/// all others is applied to what these have made.
pub proof fn hunks_are_applied_from_the_top(
    content: Seq<u8>,
    hunks: Seq<DiffHunkModel>,
    hunk: DiffHunkModel,
)
    requires
        forall|i: int| 0 <= i < hunks.len() ==> (#[trigger] hunks[i]).new_start <= hunk.new_start,
    ensures
        apply_hunks(content, hunks.push(hunk)) == match apply_hunks(content, hunks) {
            Ok(made) => apply_hunks(made, seq![hunk]),
            Err(error) => Err(error),
        },
{
    broadcast use vstd::seq_lib::group_to_multiset_ensures;

    let key = |h: DiffHunkModel| h.new_start as int;
    let sorted = sorted_by_key(hunks, key);
    let all = hunks.push(hunk);
    assert(all.drop_last() =~= hunks);
    sorting_orders_the_elements(hunks, key);
    lemma_place_for(sorted, key, key(hunk));
    let at = place_for(sorted, key, key(hunk));
    if at < sorted.len() {
        assert(sorted.to_multiset().count(sorted[at]) > 0);
        assert(hunks.contains(sorted[at]));
    }
    assert(by_start(all) =~= sorted.push(hunk));
    lemma_apply_push(content, sorted, hunk, 0);
    if let Ok(made) = apply_hunks(content, hunks) {
        a_hunk_is_applied_as_a_patch(made, hunk);
    }
}

/// A patch with no more than one hunk is in range, and so is one of which no header overflows. One of
/// which a header before the last overflows is not.
pub proof fn only_the_last_hunk_may_overflow(patch: Seq<char>, i: int)
    ensures
        headers_of(patch).len() <= 1 ==> in_range(patch),
        (forall|k: int| 0 <= k < headers_of(patch).len() ==> !overflows(#[trigger] headers_of(patch)[k]))
            ==> in_range(patch),
        0 <= i < headers_of(patch).len() - 1 && overflows(headers_of(patch)[i]) ==> !in_range(patch),
{
}

/// A header overflows just where one of its two ranges does, the first and the second between spaces.
pub proof fn a_header_overflows_by_its_ranges(
    mark: Seq<char>,
    old_lines: Seq<char>,
    new_lines: Seq<char>,
    rest: Seq<char>,
)
    requires
        !mark.contains(' '),
        !old_lines.contains(' '),
        !new_lines.contains(' '),
    ensures
        overflows(mark + seq![' '] + old_lines + seq![' '] + new_lines + seq![' '] + rest) == (
        has_no_end(old_lines) || has_no_end(new_lines)),
{
    let third = new_lines + seq![' '] + rest;
    let second = old_lines + seq![' '] + third;
    let header = mark + seq![' '] + old_lines + seq![' '] + new_lines + seq![' '] + rest;
    assert(header =~= mark + seq![' '] + second);
    lemma_cut(mark, second);
    lemma_cut(old_lines, third);
    lemma_cut(new_lines, rest);
}

proof fn lemma_cut(before: Seq<char>, rest: Seq<char>)
    requires
        !before.contains(' '),
    ensures
        until(before + seq![' '] + rest, ' ') == before,
        crate::patch::behind(before + seq![' '] + rest, ' ') == rest,
{
    let all = before + seq![' '] + rest;
    let n = before.len() as int;
    assert forall|k: int| 0 <= k < n implies all[k] != ' ' by {
        assert(all[k] == before[k]);
        assert(before.contains(before[k]));
    }
    lemma_first_of_is(all, ' ', n);
    assert(all.take(n) =~= before);
    assert(all.skip(n + 1) =~= rest);
}

/// A range has no end that can be held just where its first line and its number of lines can be held
/// and their sum cannot.
pub proof fn a_range_overflows_by_its_sum(sign: char, first: nat, lines: nat)
    ensures
        has_no_end(seq![sign] + decimal(first) + seq![','] + decimal(lines)) == (first <= usize::MAX
            && lines <= usize::MAX && first + lines > usize::MAX),
{
    let a = decimal(first);
    let b = decimal(lines);
    let numbers = a + seq![','] + b;
    let range = seq![sign] + a + seq![','] + b;
    number_of_decimal(first);
    number_of_decimal(lines);
    assert(range.skip(1) =~= numbers);
    assert(numbers[a.len() as int] == ',');
    assert(numbers.contains(','));
    assert forall|k: int| 0 <= k < a.len() implies numbers[k] != ',' by {
        assert(numbers[k] == a[k]);
        assert(is_digit(a[k]));
    }
    lemma_first_of_is(numbers, ',', a.len() as int);
    assert(numbers.take(a.len() as int) =~= a);
    assert(numbers.skip(a.len() as int + 1) =~= b);
    assert(is_digit(a[0]));
    assert(is_digit(b[0]));
    assert(held_number(a) == if first <= usize::MAX {
        Some(first)
    } else {
        None
    });
    assert(held_number(b) == if lines <= usize::MAX {
        Some(lines)
    } else {
        None
    });
}

/// An id is written with one to forty hexadecimal digits. Those that are missing at the end are
/// zeros.
pub proof fn missing_digits_are_zeros(text: Seq<char>)
    ensures
        oid_of_text(text) is Some <==> 0 < text.len() <= 40 && forall|i: int|
            0 <= i < text.len() ==> is_hex_digit(#[trigger] text[i]),
        0 < text.len() < 40 ==> oid_of_text(text.push('0')) == oid_of_text(text),
{
    let longer = text.push('0');
    if 0 < text.len() < 40 {
        assert(is_oid_text(longer) == is_oid_text(text)) by {
            if is_oid_text(longer) {
                assert forall|i: int| 0 <= i < text.len() implies is_hex_digit(
                    #[trigger] text[i],
                ) by {
                    assert(is_hex_digit(longer[i]));
                }
            }
        }
        assert(longer + Seq::new((40 - longer.len()) as nat, |i: int| '0') =~= text + Seq::new(
            (40 - text.len()) as nat,
            |i: int| '0',
        ));
    }
}

/// Each digit of an id counts sixteen times as much as the one behind it, and letters count from ten
/// on, in lower and in upper case.
pub proof fn digits_count_by_their_place(text: Seq<char>, digit: char)
    requires
        is_hex_digit(digit),
    ensures
        hex_number(seq![]) == 0,
        '0' <= digit <= '9' ==> hex_number(text.push(digit)) == hex_number(text) * 16 + (digit as u32
            - '0' as u32),
        'a' <= digit <= 'f' ==> hex_number(text.push(digit)) == hex_number(text) * 16 + 10 + (
        digit as u32 - 'a' as u32),
        'A' <= digit <= 'F' ==> hex_number(text.push(digit)) == hex_number(text) * 16 + 10 + (
        digit as u32 - 'A' as u32),
{
    assert(text.push(digit).drop_last() =~= text);
}

} // verus!
