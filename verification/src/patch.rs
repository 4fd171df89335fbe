//! Applying the diffs of hunks to the content of a file.

use crate::diff::{DiffHunk, DiffHunkModel};
use crate::protocol::{BranchError, BranchErrorModel};
use crate::seqs::{
    distinct_keys, lemma_filter_ends, lemma_filter_next, lemma_sorting_keeps_distinct,
    sort_with_keys, sorted_by_key, sorting_forgets_the_order, view_opt, views,
};
use crate::text::{
    chars_of, first_of, is_digit, is_number, lemma_first_of_is, lines_of, number_of, split_lines,
};
use vstd::prelude::*;

verus! {

/// Whether a line of a patch begins a hunk.
pub open spec fn is_header(line: Seq<char>) -> bool {
    line.len() > 0 && line[0] == '@'
}

/// A text up to the first `mark`, or all of it where there is none.
pub open spec fn until(text: Seq<char>, mark: char) -> Seq<char> {
    text.take(first_of(text, mark))
}

/// A text behind the first `mark`, or nothing where there is none.
pub open spec fn behind(text: Seq<char>, mark: char) -> Seq<char> {
    if first_of(text, mark) < text.len() {
        text.skip(first_of(text, mark) + 1)
    } else {
        seq![]
    }
}

/// The number that a text is: decimal digits, a plus before them or not, that can be held.
pub open spec fn held_number(text: Seq<char>) -> Option<nat> {
    let digits = if text.len() > 0 && text[0] == '+' {
        text.skip(1)
    } else {
        text
    };
    if is_number(digits) && number_of(digits) <= usize::MAX {
        Some(number_of(digits))
    } else {
        None
    }
}

/// Whether the first line and the number of lines of a range, such as `-3,7`, can be held but not
/// added. A range that does not give the number of lines has one line.
pub open spec fn has_no_end(range: Seq<char>) -> bool {
    let numbers = range.skip(1);
    let lines = if numbers.contains(',') {
        held_number(behind(numbers, ','))
    } else {
        Some(1)
    };
    range.len() > 0 && match (held_number(until(numbers, ',')), lines) {
        (Some(first), Some(lines)) => first + lines > usize::MAX,
        _ => false,
    }
}

/// The first range of a header, such as `@@ -3,7 +3,8 @@`: that of the lines before.
pub open spec fn old_range(header: Seq<char>) -> Seq<char> {
    until(behind(header, ' '), ' ')
}

/// The second range of a header: that of the lines after.
pub open spec fn new_range(header: Seq<char>) -> Seq<char> {
    until(behind(behind(header, ' '), ' '), ' ')
}

/// Whether a header has a range whose end cannot be held.
pub open spec fn overflows(header: Seq<char>) -> bool {
    has_no_end(old_range(header)) || has_no_end(new_range(header))
}

/// The lines of a patch that begin a hunk.
pub open spec fn headers_of(patch: Seq<char>) -> Seq<Seq<char>> {
    lines_of(patch).filter(|line: Seq<char>| is_header(line))
}

/// Whether the ends of the hunks of a patch can be held. That of the last hunk does not matter.
pub open spec fn in_range(patch: Seq<char>) -> bool {
    let headers = headers_of(patch);
    forall|i: int| 0 <= i < headers.len() - 1 ==> !overflows(#[trigger] headers[i])
}

/// The error of the diffy crate for a text that is no patch.
#[verifier::external_type_specification]
#[verifier::external_body]
pub struct ExParsePatchError(diffy::ParsePatchError);

/// The error of the diffy crate for a patch that does not fit.
#[verifier::external_type_specification]
#[verifier::external_body]
pub struct ExApplyError(diffy::ApplyError);

/// `patch_parses` names whether `diffy::Patch::from_bytes` reads a text as a patch.
pub uninterp spec fn patch_parses(patch: Seq<char>) -> bool;

/// `patched` names what `diffy::apply_bytes` makes of some content and a patch that parses, where
/// the patch fits.
pub uninterp spec fn patched(content: Seq<u8>, patch: Seq<char>) -> Option<Seq<u8>>;

/// `diffy::Patch::from_bytes` and, on the patch that it reads, `diffy::apply_bytes`. The outer
/// result says whether the text is a patch, the inner one what the patch makes of the content;
/// both are functions of the arguments alone, and have the names `patch_parses` and `patched`.
/// To see that the hunks are in order, the crate adds the first line and the number of lines of
/// each range of each hunk but the last, so these sums must fit.
#[verifier::external_body]
fn apply_patch(content: &Vec<u8>, patch: &str) -> (r: Result<
    Result<Vec<u8>, diffy::ApplyError>,
    diffy::ParsePatchError,
>)
    requires
        in_range(patch@),
    ensures
        r is Ok <==> patch_parses(patch@),
        r matches Ok(Ok(bytes)) ==> patched(content@, patch@) == Some(bytes@),
        r matches Ok(Err(_)) ==> patched(content@, patch@) is None,
{
    diffy::Patch::from_bytes(patch.as_bytes()).map(|patch| diffy::apply_bytes(content, &patch))
}

/// Whether a line of a patch begins a hunk.
fn line_is_header(line: &String) -> (r: bool)
    ensures
        r == is_header(line@),
{
    let chars: Vec<char> = chars_of(line.as_str());
    chars.len() > 0 && chars[0] == '@'
}

/// A text up to the first `mark`, and the text behind it.
fn split_at(text: &Vec<char>, mark: char) -> (r: (Vec<char>, Vec<char>))
    ensures
        r.0@ == until(text@, mark),
        r.1@ == behind(text@, mark),
{
    let mut before: Vec<char> = Vec::new();
    let mut after: Vec<char> = Vec::new();
    let mut i: usize = 0;
    while i < text.len() && text[i] != mark
        invariant
            i <= text@.len(),
            before@ == text@.take(i as int),
            forall|k: int| 0 <= k < i ==> text@[k] != mark,
        decreases text@.len() - i,
    {
        before.push(text[i]);
        i = i + 1;
        assert(text@.take(i as int) =~= text@.take(i - 1).push(text@[i - 1]));
    }
    proof {
        lemma_first_of_is(text@, mark, i as int);
    }
    let ghost at = i as int;
    if i < text.len() {
        i = i + 1;
        assert(text@.subrange(at + 1, i as int) =~= seq![]);
        while i < text.len()
            invariant
                0 <= at < i <= text@.len(),
                after@ == text@.subrange(at + 1, i as int),
            decreases text@.len() - i,
        {
            after.push(text[i]);
            i = i + 1;
            assert(text@.subrange(at + 1, i as int) =~= text@.subrange(at + 1, i - 1).push(
                text@[i - 1],
            ));
        }
    }
    assert(after@ =~= behind(text@, mark));
    (before, after)
}

/// A number with one more digit behind it, as far as it can be held.
fn with_digit(number: Option<usize>, c: char) -> (r: Option<usize>)
    requires
        is_digit(c),
    ensures
        number matches Some(n) ==> (match r {
            Some(m) => m == n * 10 + (c as u32 - '0' as u32),
            None => n * 10 + (c as u32 - '0' as u32) > usize::MAX,
        }),
        number is None ==> r is None,
{
    match number {
        Some(n) => match n.checked_mul(10) {
            Some(tens) => tens.checked_add((c as u32 - '0' as u32) as usize),
            None => None,
        },
        None => None,
    }
}

/// The number that a text is, where it can be held.
fn read_number(text: &Vec<char>) -> (r: Option<usize>)
    ensures
        (match r {
            Some(n) => Some(n as nat),
            None => None,
        }) == held_number(text@),
{
    let from: usize = if text.len() > 0 && text[0] == '+' { 1 } else { 0 };
    let ghost digits = text@.skip(from as int);
    assert(text@.skip(0) =~= text@);
    if from == text.len() {
        return None;
    }
    let mut number: Option<usize> = Some(0);
    let mut i: usize = from;
    assert(digits.take(0) =~= seq![]);
    while i < text.len()
        invariant
            from <= i <= text@.len(),
            digits == text@.skip(from as int),
            forall|k: int| 0 <= k < i - from ==> is_digit(#[trigger] digits[k]),
            number matches Some(n) ==> n == number_of(digits.take(i - from)),
            number is None ==> number_of(digits.take(i - from)) > usize::MAX,
            is_number(digits) ==> held_number(text@) == (if number_of(digits) <= usize::MAX {
                Some(number_of(digits))
            } else {
                None
            }),
            !is_number(digits) ==> held_number(text@) is None,
        decreases text@.len() - i,
    {
        let c: char = text[i];
        assert(digits[i - from] == c);
        if !('0' <= c && c <= '9') {
            return None;
        }
        proof {
            let longer = digits.take(i - from + 1);
            assert(longer.drop_last() =~= digits.take(i - from));
            assert(longer.last() == c);
        }
        number = with_digit(number, c);
        i = i + 1;
    }
    assert(digits.take(i - from) =~= digits);
    number
}

/// Whether a text holds a mark.
fn holds_mark(text: &Vec<char>, mark: char) -> (r: bool)
    ensures
        r == text@.contains(mark),
{
    let mut i: usize = 0;
    while i < text.len()
        invariant
            i <= text@.len(),
            forall|k: int| 0 <= k < i ==> text@[k] != mark,
        decreases text@.len() - i,
    {
        if text[i] == mark {
            return true;
        }
        i = i + 1;
    }
    false
}

/// A text without its first character.
fn without_first(text: &Vec<char>) -> (rest: Vec<char>)
    requires
        text@.len() > 0,
    ensures
        rest@ == text@.skip(1),
{
    let mut rest: Vec<char> = Vec::new();
    let mut i: usize = 1;
    assert(text@.subrange(1, 1) =~= seq![]);
    while i < text.len()
        invariant
            1 <= i <= text@.len(),
            rest@ == text@.subrange(1, i as int),
        decreases text@.len() - i,
    {
        rest.push(text[i]);
        i = i + 1;
        assert(text@.subrange(1, i as int) =~= text@.subrange(1, i - 1).push(text@[i - 1]));
    }
    rest
}

/// Whether the end of a range cannot be held.
fn range_has_no_end(range: &Vec<char>) -> (r: bool)
    requires
        range@.len() > 0,
    ensures
        r == has_no_end(range@),
{
    let numbers: Vec<char> = without_first(range);
    let (first, lines) = split_at(&numbers, ',');
    let count: Option<usize> = if holds_mark(&numbers, ',') { read_number(&lines) } else { Some(1) };
    match (read_number(&first), count) {
        (Some(first), Some(count)) => first > usize::MAX - count,
        _ => false,
    }
}

/// Whether a header has a range whose end cannot be held.
fn header_overflows(header: &String) -> (r: bool)
    ensures
        r == overflows(header@),
{
    let (_, ranges) = split_at(&chars_of(header.as_str()), ' ');
    let (old, rest) = split_at(&ranges, ' ');
    let (new, _) = split_at(&rest, ' ');
    (old.len() > 0 && range_has_no_end(&old)) || (new.len() > 0 && range_has_no_end(&new))
}

/// Whether the ends of the hunks of a patch can be held.
fn is_in_range(patch: &str) -> (r: bool)
    ensures
        r == in_range(patch@),
{
    let lines: Vec<String> = split_lines(patch);
    let ghost all = views(lines@);
    let ghost header = |line: Seq<char>| is_header(line);
    let mut last: bool = false;
    let ghost mut found = Seq::<Seq<char>>::empty();
    let mut i: usize = 0;
    proof {
        lemma_filter_ends(all, header);
    }
    while i < lines.len()
        invariant
            i <= lines@.len(),
            all == views(lines@),
            all == lines_of(patch@),
            header == (|line: Seq<char>| is_header(line)),
            found == all.take(i as int).filter(header),
            last == (found.len() > 0 && overflows(found.last())),
            forall|k: int| 0 <= k < found.len() - 1 ==> !overflows(#[trigger] found[k]),
        decreases lines@.len() - i,
    {
        proof {
            lemma_filter_next(all, i as int, header);
        }
        if line_is_header(&lines[i]) {
            if last {
                proof {
                    assert(all =~= all.take(i + 1) + all.skip(i + 1));
                    Seq::filter_distributes_over_add(all.take(i + 1), all.skip(i + 1), header);
                    assert(overflows(headers_of(patch@)[found.len() - 1]));
                }
                return false;
            }
            last = header_overflows(&lines[i]);
            proof {
                found = found.push(all[i as int]);
            }
        }
        i = i + 1;
    }
    assert(all.take(i as int) =~= all);
    true
}

/// The text of the patch that a hunk stands for.
pub open spec fn patch_text(diff: Seq<char>) -> Seq<char> {
    "--- original\n+++ modified\n"@ + diff
}

/// What comes of a hunk, by whether its text is a patch and by what the patch makes of the
/// content.
pub open spec fn verdict(diff: Seq<char>, outcome: Option<Option<Seq<u8>>>) -> Result<
    Seq<u8>,
    BranchErrorModel,
> {
    match outcome {
        None => Err(BranchErrorModel::PatchUnreadable(diff)),
        Some(None) => Err(BranchErrorModel::PatchRejected(diff)),
        Some(Some(content)) => Ok(content),
    }
}

/// What a hunk makes of the content of a file. A patch with a hunk whose end cannot be held cannot
/// be read.
pub open spec fn apply_hunk(content: Seq<u8>, hunk: DiffHunkModel) -> Result<
    Seq<u8>,
    BranchErrorModel,
> {
    let patch = patch_text(hunk.diff);
    verdict(
        hunk.diff,
        if in_range(patch) && patch_parses(patch) {
            Some(patched(content, patch))
        } else {
            None
        },
    )
}

/// What the hunks from the given one on make of the content of a file, one after the other.
pub open spec fn apply_from(content: Seq<u8>, hunks: Seq<DiffHunkModel>, i: int) -> Result<
    Seq<u8>,
    BranchErrorModel,
>
    decreases hunks.len() - i,
{
    if i < 0 || i >= hunks.len() {
        Ok(content)
    } else {
        match apply_hunk(content, hunks[i]) {
            Ok(content) => apply_from(content, hunks, i + 1),
            Err(error) => Err(error),
        }
    }
}

/// The hunks in the order in which they lie in the file.
pub open spec fn by_start(hunks: Seq<DiffHunkModel>) -> Seq<DiffHunkModel> {
    sorted_by_key(hunks, |h: DiffHunkModel| h.new_start as int)
}

/// What some hunks make of the content of a file. They are applied in the order in which they lie
/// in the file.
pub open spec fn apply_hunks(content: Seq<u8>, hunks: Seq<DiffHunkModel>) -> Result<
    Seq<u8>,
    BranchErrorModel,
> {
    apply_from(content, by_start(hunks), 0)
}

/// The outcome of applying hunks.
pub open spec fn patch_outcome(r: Result<Vec<u8>, BranchError>) -> Result<Seq<u8>, BranchErrorModel> {
    match r {
        Ok(bytes) => Ok(bytes@),
        Err(error) => Err(error@),
    }
}

/// What comes of a hunk, by whether its text is a patch and by what the patch makes of the
/// content.
pub fn patch_verdict(hunk: &DiffHunk, outcome: Option<Option<Vec<u8>>>) -> (r: Result<
    Vec<u8>,
    BranchError,
>)
    ensures
        patch_outcome(r) == verdict(
            hunk@.diff,
            match outcome {
                Some(content) => Some(view_opt(content)),
                None => None,
            },
        ),
{
    match outcome {
        None => Err(BranchError::PatchUnreadable(hunk.diff().clone())),
        Some(None) => Err(BranchError::PatchRejected(hunk.diff().clone())),
        Some(Some(content)) => Ok(content),
    }
}

/// Applies a hunk to the content of a file.
fn patch_once(content: &Vec<u8>, hunk: &DiffHunk) -> (r: Result<Vec<u8>, BranchError>)
    ensures
        patch_outcome(r) == apply_hunk(content@, hunk@),
{
    let mut patch: String = "--- original\n+++ modified\n".to_owned();
    patch.append(hunk.diff().as_str());
    if !is_in_range(patch.as_str()) {
        return patch_verdict(hunk, None);
    }
    let outcome: Option<Option<Vec<u8>>> = match apply_patch(content, patch.as_str()) {
        Ok(Ok(bytes)) => Some(Some(bytes)),
        Ok(Err(_)) => Some(None),
        Err(_) => None,
    };
    patch_verdict(hunk, outcome)
}

/// Sorts hunks into the order in which they lie in the file.
fn sort_by_start(hunks: &Vec<DiffHunk>) -> (sorted: Vec<DiffHunk>)
    ensures
        views(sorted@) == by_start(views(hunks@)),
{
    let mut keys: Vec<usize> = Vec::new();
    let mut i: usize = 0;
    while i < hunks.len()
        invariant
            i <= hunks@.len(),
            keys@.len() == i,
            forall|k: int| 0 <= k < i ==> keys@[k] == (#[trigger] hunks@[k])@.new_start,
        decreases hunks@.len() - i,
    {
        keys.push(hunks[i].new_start() as usize);
        i = i + 1;
    }
    let copies: Vec<DiffHunk> = hunks.clone();
    assert(views(copies@) =~= views(hunks@));
    assert forall|k: int| 0 <= k < copies@.len() implies (#[trigger] copies@[k])@.new_start
        == keys@[k] by {
        assert(views(copies@)[k] == views(hunks@)[k]);
        assert(hunks@[k]@.new_start == keys@[k]);
    }
    sort_with_keys(copies, keys, Ghost(|h: DiffHunkModel| h.new_start as int))
}

/// Applies some hunks to the content of a file.
pub fn patch_content(content: &Vec<u8>, hunks: &Vec<DiffHunk>) -> (r: Result<Vec<u8>, BranchError>)
    ensures
        patch_outcome(r) == apply_hunks(content@, views(hunks@)),
{
    let sorted: Vec<DiffHunk> = sort_by_start(hunks);
    let mut current: Vec<u8> = content.clone();
    let mut i: usize = 0;
    assert(current@ =~= content@);
    while i < sorted.len()
        invariant
            i <= sorted@.len(),
            views(sorted@) == by_start(views(hunks@)),
            apply_hunks(content@, views(hunks@)) == apply_from(current@, views(sorted@), i as int),
        decreases sorted@.len() - i,
    {
        current = patch_once(&current, &sorted[i])?;
        i = i + 1;
    }
    Ok(current)
}

/// The hunks of a file may be given in any order: where each begins at a line of its own, they make
/// the same of the file.
pub proof fn hunks_may_come_in_any_order(
    content: Seq<u8>,
    one: Seq<DiffHunkModel>,
    other: Seq<DiffHunkModel>,
)
    requires
        one.to_multiset() == other.to_multiset(),
        distinct_keys(one, |h: DiffHunkModel| h.new_start as int),
    ensures
        apply_hunks(content, one) == apply_hunks(content, other),
{
    let key = |h: DiffHunkModel| h.new_start as int;
    lemma_sorting_keeps_distinct(one, key);
    sorting_forgets_the_order(one, other, key);
}

} // verus!
