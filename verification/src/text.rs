//! Text as sequences of characters: splitting, searching, numbers in decimal.

use crate::seqs::{lemma_views_push, views};
use vstd::prelude::*;
use vstd::utf8::{decode_utf8, valid_utf8};

verus! {

/// `String::push` of std: the text grows by the one character.
pub assume_specification[ String::push ](text: &mut String, c: char)
    ensures
        final(text)@ == old(text)@.push(c),
;

/// The characters of a text, as a vector.
pub fn chars_of(text: &str) -> (chars: Vec<char>)
    ensures
        chars@ == text@,
{
    let mut chars: Vec<char> = Vec::new();
    for c in it: text.chars()
        invariant
            chars@ == it.seq().take(it.index()),
            it.seq() == text@,
    {
        chars.push(c);
        assert(it.seq().take(it.index() + 1) =~= it.seq().take(it.index()).push(c));
    }
    assert(text@.take(text@.len() as int) =~= text@);
    chars
}

/// The text made of the characters from `from` up to, not including, `to`.
pub fn text_of(chars: &Vec<char>, from: usize, to: usize) -> (text: String)
    requires
        from <= to <= chars@.len(),
    ensures
        text@ == chars@.subrange(from as int, to as int),
{
    let mut text = String::new();
    let mut i: usize = from;
    while i < to
        invariant
            from <= i <= to <= chars@.len(),
            text@ == chars@.subrange(from as int, i as int),
        decreases to - i,
    {
        text.push(chars[i]);
        i = i + 1;
        assert(chars@.subrange(from as int, i as int) =~= chars@.subrange(from as int, i - 1).push(
            chars@[i - 1],
        ));
    }
    text
}

/// Whether `whole` begins with `part`.
pub open spec fn starts_with(whole: Seq<char>, part: Seq<char>) -> bool {
    part.len() <= whole.len() && whole.take(part.len() as int) == part
}

/// Whether `part` stands at position `at` of `whole`.
pub open spec fn stands_at(whole: Seq<char>, part: Seq<char>, at: int) -> bool {
    0 <= at && at + part.len() <= whole.len() && whole.subrange(at, at + part.len()) == part
}

/// Whether `part` stands somewhere in `whole`.
pub open spec fn contains_text(whole: Seq<char>, part: Seq<char>) -> bool {
    exists|at: int| stands_at(whole, part, at)
}

/// Whether `part` stands at position `at` of `whole`.
pub fn has_at(whole: &Vec<char>, part: &Vec<char>, at: usize) -> (r: bool)
    ensures
        r == stands_at(whole@, part@, at as int),
{
    if at > whole.len() || part.len() > whole.len() - at {
        return false;
    }
    let mut i: usize = 0;
    while i < part.len()
        invariant
            at + part.len() <= whole.len(),
            i <= part@.len(),
            forall|k: int| 0 <= k < i ==> whole@[at + k] == part@[k],
        decreases part@.len() - i,
    {
        if whole[at + i] != part[i] {
            assert(whole@.subrange(at as int, at + part@.len())[i as int] != part@[i as int]);
            return false;
        }
        i = i + 1;
    }
    assert(whole@.subrange(at as int, at + part@.len()) =~= part@);
    true
}

/// Whether `part` stands somewhere in `whole`.
pub fn contains(whole: &str, part: &str) -> (r: bool)
    ensures
        r == contains_text(whole@, part@),
{
    let chars: Vec<char> = chars_of(whole);
    let sought: Vec<char> = chars_of(part);
    let mut at: usize = 0;
    while at < chars.len()
        invariant
            chars@ == whole@,
            sought@ == part@,
            at <= chars@.len(),
            forall|k: int| 0 <= k < at ==> !stands_at(whole@, part@, k),
        decreases chars@.len() - at,
    {
        if has_at(&chars, &sought, at) {
            return true;
        }
        at = at + 1;
    }
    has_at(&chars, &sought, at)
}

/// The position of the first `mark` in `s`, or the length of `s` where there is none.
pub open spec fn first_of(s: Seq<char>, mark: char) -> int
    decreases s.len(),
{
    if s.len() == 0 || s[0] == mark {
        0
    } else {
        1 + first_of(s.drop_first(), mark)
    }
}

pub proof fn lemma_first_of(s: Seq<char>, mark: char)
    ensures
        0 <= first_of(s, mark) <= s.len(),
        first_of(s, mark) < s.len() ==> s[first_of(s, mark)] == mark,
        forall|k: int| 0 <= k < first_of(s, mark) ==> s[k] != mark,
    decreases s.len(),
{
    if s.len() > 0 && s[0] != mark {
        lemma_first_of(s.drop_first(), mark);
        assert forall|k: int| 0 <= k < first_of(s, mark) implies s[k] != mark by {
            if k > 0 {
                assert(s[k] == s.drop_first()[k - 1]);
            }
        }
    }
}

/// The first position of a mark is the one that has the mark and no mark before it.
pub proof fn lemma_first_of_is(s: Seq<char>, mark: char, at: int)
    requires
        0 <= at <= s.len(),
        at < s.len() ==> s[at] == mark,
        forall|k: int| 0 <= k < at ==> s[k] != mark,
    ensures
        first_of(s, mark) == at,
{
    lemma_first_of(s, mark);
    let found = first_of(s, mark);
    if found < at {
        assert(s[found] != mark);
    }
    if at < found {
        assert(s[at] != mark);
    }
}

/// A line without the carriage return that ends it, if one does.
pub open spec fn without_return(line: Seq<char>) -> Seq<char> {
    if line.len() > 0 && line.last() == '\r' {
        line.drop_last()
    } else {
        line
    }
}

/// The lines of a text. A line ends at a line feed, or at a carriage return and a line feed;
/// the last line need not end so.
pub open spec fn lines_of(s: Seq<char>) -> Seq<Seq<char>>
    decreases s.len(),
{
    if s.len() == 0 {
        seq![]
    } else {
        let end = first_of(s, '\n');
        if 0 <= end < s.len() {
            seq![without_return(s.take(end))] + lines_of(s.skip(end + 1))
        } else {
            seq![s]
        }
    }
}

/// The lines of a text, as `lines_of` says.
pub fn split_lines(text: &str) -> (lines: Vec<String>)
    ensures
        views(lines@) == lines_of(text@),
{
    let chars: Vec<char> = chars_of(text);
    let mut lines: Vec<String> = Vec::new();
    let mut start: usize = 0;
    assert(text@.skip(0) =~= text@);
    while start < chars.len()
        invariant
            chars@ == text@,
            start <= chars@.len(),
            lines_of(text@) =~= views(lines@) + lines_of(text@.skip(start as int)),
        decreases chars@.len() - start,
    {
        let mut end: usize = start;
        while end < chars.len() && chars[end] != '\n'
            invariant
                start <= end <= chars@.len(),
                forall|k: int| start <= k < end ==> chars@[k] != '\n',
            decreases chars@.len() - end,
        {
            end = end + 1;
        }
        let ghost rest = text@.skip(start as int);
        let ghost before = lines@;
        proof {
            lemma_first_of_is(rest, '\n', end - start);
        }
        if end < chars.len() {
            let stop: usize = if end > start && chars[end - 1] == '\r' { end - 1 } else { end };
            let line: String = text_of(&chars, start, stop);
            assert(line@ =~= without_return(rest.take(end - start)));
            lines.push(line);
            assert(rest.skip(end - start + 1) =~= text@.skip(end + 1));
            start = end + 1;
        } else {
            let line: String = text_of(&chars, start, end);
            assert(line@ =~= rest);
            lines.push(line);
            start = end;
            assert(text@.skip(start as int).len() == 0);
        }
        proof {
            lemma_views_push(before, lines@.last());
        }
    }
    lines
}

/// The lines that a text is made of when a line feed stands between each two of them.
pub open spec fn joined(lines: Seq<Seq<char>>) -> Seq<char>
    decreases lines.len(),
{
    if lines.len() == 0 {
        seq![]
    } else if lines.len() == 1 {
        lines[0]
    } else {
        joined(lines.drop_last()).push('\n') + lines.last()
    }
}

/// The character of a decimal digit.
pub open spec fn digit_char(digit: nat) -> char {
    (('0' as u32) + digit) as char
}

/// A number in decimal, without leading zeros.
pub open spec fn decimal(n: nat) -> Seq<char>
    decreases n,
{
    if n < 10 {
        seq![digit_char(n)]
    } else {
        decimal(n / 10).push(digit_char(n % 10))
    }
}

/// Whether a character is a decimal digit.
pub open spec fn is_digit(c: char) -> bool {
    '0' <= c && c <= '9'
}

/// Whether a text is one or more decimal digits.
pub open spec fn is_number(s: Seq<char>) -> bool {
    s.len() > 0 && forall|i: int| 0 <= i < s.len() ==> is_digit(#[trigger] s[i])
}

/// The number that a text of decimal digits stands for.
pub open spec fn number_of(s: Seq<char>) -> nat
    decreases s.len(),
{
    if s.len() == 0 {
        0
    } else {
        (number_of(s.drop_last()) * 10 + (s.last() as u32 - '0' as u32)) as nat
    }
}

/// A number read back from its decimal text is the number.
pub proof fn number_of_decimal(n: nat)
    ensures
        is_number(decimal(n)),
        number_of(decimal(n)) == n,
    decreases n,
{
    let d: nat = n % 10;
    if n < 10 {
        assert(decimal(n).drop_last() =~= seq![]);
        assert(number_of(decimal(n).drop_last()) == 0);
    } else {
        number_of_decimal(n / 10);
        assert(decimal(n).drop_last() =~= decimal(n / 10));
    }
}

/// The character of a decimal digit.
fn digit(d: u32) -> (c: char)
    requires
        d < 10,
    ensures
        c == digit_char(d as nat),
{
    match d {
        0 => '0',
        1 => '1',
        2 => '2',
        3 => '3',
        4 => '4',
        5 => '5',
        6 => '6',
        7 => '7',
        8 => '8',
        _ => '9',
    }
}

/// A number in decimal.
pub fn decimal_text(n: u32) -> (text: String)
    ensures
        text@ == decimal(n as nat),
    decreases n,
{
    if n < 10 {
        let mut text = String::new();
        text.push(digit(n));
        assert(text@ =~= decimal(n as nat));
        text
    } else {
        let mut text = decimal_text(n / 10);
        text.push(digit(n % 10));
        text
    }
}

/// `lowercase` names what std's `str::to_lowercase` makes of a text.
pub uninterp spec fn lowercase(text: Seq<char>) -> Seq<char>;

/// `str::to_lowercase` of std. It is a function of the text alone; the name `lowercase`
/// stands for its result.
#[verifier::external_body]
pub(crate) fn to_lowercase(text: &str) -> (lower: String)
    ensures
        lower@ == lowercase(text@),
{
    text.to_lowercase()
}

/// The error of std for bytes that are not UTF-8.
#[verifier::external_type_specification]
#[verifier::external_body]
pub struct ExUtf8Error(std::str::Utf8Error);

/// `std::str::from_utf8`. As std documents, it gives the text that the bytes encode, and fails
/// where they are not UTF-8.
pub assume_specification[ std::str::from_utf8 ](bytes: &[u8]) -> (r: Result<
    &str,
    std::str::Utf8Error,
>)
    ensures
        r is Ok <==> valid_utf8(bytes@),
        r matches Ok(text) ==> text@ == decode_utf8(bytes@),
;

} // verus!
