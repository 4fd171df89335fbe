//! Digests of the changes that a hunk makes.

use crate::seqs::views;
use crate::text::{is_digit, joined, lines_of, split_lines};
use vstd::prelude::*;
use vstd::string::StringSliceAdditionalSpecFns;
use vstd::utf8::encode_utf8;

verus! {

/// `md5_hex` names the MD5 digest of some bytes, in lower case hexadecimal.
pub uninterp spec fn md5_hex(data: Seq<u8>) -> Seq<char>;

/// Whether a text is a digest in lower case hexadecimal: two digits for each of sixteen bytes.
pub open spec fn is_digest(text: Seq<char>) -> bool {
    text.len() == 32 && forall|i: int|
        0 <= i < text.len() ==> is_digit(#[trigger] text[i]) || ('a' <= text[i] && text[i] <= 'f')
}

/// `md5::compute`, its digest written out with `{:x}`. The result is a function of the bytes
/// alone; the name `md5_hex` stands for it. The digest has sixteen bytes, and each is written as
/// two digits in lower case.
#[verifier::external_body]
pub(crate) fn md5_lower_hex(data: &[u8]) -> (hex: String)
    ensures
        hex@ == md5_hex(data@),
        is_digest(hex@),
{
    format!("{:x}", md5::compute(data))
}

/// Whether a line of a diff adds or removes something: it begins with a plus or a minus.
pub open spec fn is_change(line: Seq<char>) -> bool {
    line.len() > 0 && (line[0] == '+' || line[0] == '-')
}

/// The lines of a diff that add or remove something. The first line, the header, is no such
/// line whatever it begins with.
pub open spec fn changed_lines(diff: Seq<char>) -> Seq<Seq<char>> {
    let lines = lines_of(diff);
    if lines.len() == 0 {
        lines
    } else {
        lines.drop_first().filter(|line: Seq<char>| is_change(line))
    }
}

/// The hash of a diff: the digest of its changed lines.
pub open spec fn diff_hash_of(diff: Seq<char>) -> Seq<char> {
    md5_hex(encode_utf8(joined(changed_lines(diff))))
}

proof fn lemma_joined_push(lines: Seq<Seq<char>>, line: Seq<char>)
    ensures
        joined(lines.push(line)) == (if lines.len() == 0 {
            line
        } else {
            joined(lines).push('\n') + line
        }),
{
    assert(lines.push(line).drop_last() =~= lines);
}

/// Whether a line adds or removes something.
fn line_is_change(line: &String) -> (r: bool)
    ensures
        r == is_change(line@),
{
    match line.as_str().chars().next() {
        Some(c) => c == '+' || c == '-',
        None => false,
    }
}

/// The hash of a diff, which its header and its context lines do not enter.
pub fn diff_hash(diff: &str) -> (hash: String)
    ensures
        hash@ == diff_hash_of(diff@),
{
    let lines: Vec<String> = split_lines(diff);
    let ghost all = views(lines@);
    let ghost change = |line: Seq<char>| is_change(line);
    let mut addition = String::new();
    let mut found: bool = false;
    let ghost mut kept: Seq<Seq<char>> = seq![];
    if lines.len() == 0 {
        assert(addition@ =~= joined(changed_lines(diff@)));
        return md5_lower_hex(addition.as_str().as_bytes());
    }
    let mut i: usize = 1;
    proof {
        reveal(Seq::filter);
        assert(all.subrange(1, 1) =~= seq![]);
        assert(addition@ =~= joined(kept));
    }
    while i < lines.len()
        invariant
            1 <= i <= lines@.len(),
            all == views(lines@),
            change == (|line: Seq<char>| is_change(line)),
            kept == all.subrange(1, i as int).filter(change),
            found == (kept.len() > 0),
            addition@ == joined(kept),
        decreases lines@.len() - i,
    {
        proof {
            reveal(Seq::filter);
            assert(all.subrange(1, i + 1).drop_last() =~= all.subrange(1, i as int));
            assert(all.subrange(1, i + 1).last() == lines@[i as int]@);
            lemma_joined_push(kept, lines@[i as int]@);
        }
        if line_is_change(&lines[i]) {
            if found {
                addition.push('\n');
            }
            addition.append(lines[i].as_str());
            found = true;
            proof {
                assert(addition@ =~= joined(kept.push(lines@[i as int]@)));
                kept = kept.push(lines@[i as int]@);
            }
        }
        i = i + 1;
    }
    assert(all.subrange(1, i as int) =~= all.drop_first());
    md5_lower_hex(addition.as_str().as_bytes())
}

/// Diffs that add and remove the same lines have the same hash, whatever their headers and
/// their context lines are.
pub proof fn diff_hash_sees_changed_lines_only(one: Seq<char>, other: Seq<char>)
    requires
        changed_lines(one) == changed_lines(other),
    ensures
        diff_hash_of(one) == diff_hash_of(other),
{
}

} // verus!
