//! Names of branches: unique names, slugs, and names of remote branches.

use crate::seqs::{view_opt, views};
use crate::text::{
    chars_of, decimal, decimal_text, first_of, has_at, is_digit, is_number, lemma_first_of_is,
    number_of, number_of_decimal, starts_with, text_of,
};
use vstd::prelude::*;

verus! {

/// The largest number behind a name that counts as a number of that name.
pub const LARGEST_NUMBER: u32 = 2147483647;

/// The number that `existing` has as a namesake of `name`: zero where it is the name itself,
/// the number behind the separator where it is the name, the separator and a number.
pub open spec fn number_behind(existing: Seq<char>, name: Seq<char>, separator: Seq<char>) -> Option<nat> {
    let stem = name + separator;
    if existing == name {
        Some(0)
    } else if starts_with(existing, stem) && is_number(existing.skip(stem.len() as int)) && number_of(
        existing.skip(stem.len() as int),
    ) <= LARGEST_NUMBER {
        Some(number_of(existing.skip(stem.len() as int)))
    } else {
        None
    }
}

/// The largest number that one of the existing names has as a namesake of `name`.
pub open spec fn largest_behind(
    existing: Seq<Seq<char>>,
    name: Seq<char>,
    separator: Seq<char>,
) -> Option<nat>
    decreases existing.len(),
{
    if existing.len() == 0 {
        None
    } else {
        match (
            largest_behind(existing.drop_last(), name, separator),
            number_behind(existing.last(), name, separator),
        ) {
            (Some(largest), Some(number)) => Some(
                if number > largest {
                    number
                } else {
                    largest
                },
            ),
            (Some(largest), None) => Some(largest),
            (None, number) => number,
        }
    }
}

/// A name made unique: the name itself where no existing name is a namesake, else the name
/// with the number after the largest.
pub open spec fn unique_name(
    existing: Seq<Seq<char>>,
    name: Seq<char>,
    separator: Seq<char>,
) -> Seq<char> {
    match largest_behind(existing, name, separator) {
        None => name,
        Some(largest) => name + separator + decimal(largest + 1),
    }
}

proof fn lemma_largest_behind(existing: Seq<Seq<char>>, name: Seq<char>, separator: Seq<char>, i: int)
    requires
        0 <= i < existing.len(),
        number_behind(existing[i], name, separator) is Some,
    ensures
        largest_behind(existing, name, separator) is Some,
        number_behind(existing[i], name, separator)->0 <= largest_behind(existing, name, separator)->0,
    decreases existing.len(),
{
    if i < existing.len() - 1 {
        assert(existing.drop_last()[i] == existing[i]);
        lemma_largest_behind(existing.drop_last(), name, separator, i);
    }
}

/// A name made unique is none of the existing names, as long as no existing name already
/// stands just past the largest number.
pub proof fn unique_name_is_new(existing: Seq<Seq<char>>, name: Seq<char>, separator: Seq<char>)
    requires
        !existing.contains(name + separator + decimal((LARGEST_NUMBER + 1) as nat)),
    ensures
        !existing.contains(unique_name(existing, name, separator)),
{
    let unique = unique_name(existing, name, separator);
    if existing.contains(unique) {
        let i = choose|i: int| 0 <= i < existing.len() && existing[i] == unique;
        match largest_behind(existing, name, separator) {
            None => {
                lemma_largest_behind(existing, name, separator, i);
            },
            Some(largest) => {
                let stem = name + separator;
                number_of_decimal(largest + 1);
                assert(unique.take(stem.len() as int) =~= stem);
                assert(unique.skip(stem.len() as int) =~= decimal(largest + 1));
                lemma_largest_bound(existing, name, separator);
                if unique == name {
                    assert(unique.len() > name.len());
                }
                lemma_largest_behind(existing, name, separator, i);
            },
        }
    }
}

proof fn lemma_largest_bound(existing: Seq<Seq<char>>, name: Seq<char>, separator: Seq<char>)
    ensures
        largest_behind(existing, name, separator) is Some ==> largest_behind(
            existing,
            name,
            separator,
        )->0 <= LARGEST_NUMBER,
    decreases existing.len(),
{
    if existing.len() > 0 {
        lemma_largest_bound(existing.drop_last(), name, separator);
    }
}

/// A name that no existing name is a namesake of stays as it is.
pub proof fn unused_name_is_kept(existing: Seq<Seq<char>>, name: Seq<char>, separator: Seq<char>)
    requires
        forall|i: int|
            0 <= i < existing.len() ==> number_behind(#[trigger] existing[i], name, separator) is None,
    ensures
        unique_name(existing, name, separator) == name,
    decreases existing.len(),
{
    if existing.len() > 0 {
        let shorter = existing.drop_last();
        assert forall|i: int| 0 <= i < shorter.len() implies number_behind(
            #[trigger] shorter[i],
            name,
            separator,
        ) is None by {
            assert(shorter[i] == existing[i]);
        }
        unused_name_is_kept(shorter, name, separator);
    }
}

/// The value of a decimal digit.
fn digit_value(c: char) -> (d: u32)
    requires
        is_digit(c),
    ensures
        d == c as u32 - '0' as u32,
        d < 10,
{
    c as u32 - '0' as u32
}

/// The number that the characters from `from` on stand for, where they are digits and the
/// number is not too large.
fn parse_number(chars: &Vec<char>, from: usize) -> (r: Option<u32>)
    requires
        from <= chars@.len(),
    ensures
        r matches Some(n) ==> is_number(chars@.skip(from as int)) && number_of(chars@.skip(from as int))
            == n && n <= LARGEST_NUMBER,
        r is None ==> !is_number(chars@.skip(from as int)) || number_of(chars@.skip(from as int))
            > LARGEST_NUMBER,
{
    let ghost digits = chars@.skip(from as int);
    if from == chars.len() {
        return None;
    }
    let mut n: u64 = 0;
    let mut over: bool = false;
    let mut i: usize = from;
    assert(digits.take(0) =~= seq![]);
    while i < chars.len()
        invariant
            from <= i <= chars@.len(),
            digits == chars@.skip(from as int),
            forall|k: int| 0 <= k < i - from ==> is_digit(#[trigger] digits[k]),
            !over ==> n <= LARGEST_NUMBER && number_of(digits.take(i - from)) == n,
            over ==> number_of(digits.take(i - from)) > LARGEST_NUMBER,
        decreases chars@.len() - i,
    {
        let c: char = chars[i];
        assert(digits[i - from] == c);
        if !('0' <= c && c <= '9') {
            return None;
        }
        assert(digits.take(i - from + 1).drop_last() =~= digits.take(i - from));
        if !over {
            n = n * 10 + digit_value(c) as u64;
            if n > LARGEST_NUMBER as u64 {
                over = true;
            }
        }
        i = i + 1;
    }
    assert(digits.take(i - from) =~= digits);
    if over {
        None
    } else {
        Some(n as u32)
    }
}

/// The number that an existing name has as a namesake, as `number_behind` says.
fn namesake_number(existing: &String, name: &str, separator: &str) -> (r: Option<u32>)
    ensures
        (match r {
            Some(n) => Some(n as nat),
            None => None,
        }) == number_behind(existing@, name@, separator@),
        r matches Some(n) ==> n <= LARGEST_NUMBER,
{
    let chars: Vec<char> = chars_of(existing.as_str());
    let name_chars: Vec<char> = chars_of(name);
    let stem: String = name.to_owned().concat(separator);
    let stem_chars: Vec<char> = chars_of(stem.as_str());
    if chars.len() == name_chars.len() && has_at(&chars, &name_chars, 0) {
        assert(existing@.subrange(0, name@.len() as int) =~= existing@);
        return Some(0);
    }
    assert(existing@.subrange(0, existing@.len() as int) =~= existing@);
    let whole = has_at(&chars, &stem_chars, 0);
    assert(stem@.len() <= existing@.len() ==> existing@.subrange(0, stem@.len() as int)
        =~= existing@.take(stem@.len() as int));
    if whole {
        parse_number(&chars, stem_chars.len())
    } else {
        None
    }
}

/// A name that is none of the existing ones: `name`, or `name`, the separator and a number.
pub fn dedup_fmt(existing: &Vec<String>, name: &str, separator: &str) -> (unique: String)
    ensures
        unique@ == unique_name(views(existing@), name@, separator@),
{
    let ghost names = views(existing@);
    let mut largest: Option<u32> = None;
    let mut i: usize = 0;
    assert(names.take(0) =~= seq![]);
    while i < existing.len()
        invariant
            i <= existing@.len(),
            names == views(existing@),
            largest matches Some(n) ==> n <= LARGEST_NUMBER,
            (match largest {
                Some(n) => Some(n as nat),
                None => None,
            }) == largest_behind(names.take(i as int), name@, separator@),
        decreases existing@.len() - i,
    {
        assert(names.take(i + 1).drop_last() =~= names.take(i as int));
        let number: Option<u32> = namesake_number(&existing[i], name, separator);
        largest = match (largest, number) {
            (Some(l), Some(n)) => Some(if n > l { n } else { l }),
            (Some(l), None) => Some(l),
            (None, n) => n,
        };
        i = i + 1;
    }
    assert(names.take(i as int) =~= names);
    match largest {
        None => name.to_owned(),
        Some(n) => name.to_owned().concat(separator).concat(decimal_text(n + 1).as_str()),
    }
}

/// A name that is none of the existing ones: `name`, or `name`, a space and a number.
pub fn dedup(existing: &Vec<String>, name: &str) -> (unique: String)
    ensures
        unique@ == unique_name(views(existing@), name@, seq![' ']),
{
    proof {
        reveal_strlit(" ");
        assert(" "@ =~= seq![' ']);
    }
    dedup_fmt(existing, name, " ")
}

/// `slug_of` names the slug that the slug crate makes of a text.
pub uninterp spec fn slug_of(text: Seq<char>) -> Seq<char>;

/// Whether a character may stand in a slug: a lower case letter, a digit or a dash.
pub open spec fn is_slug_char(c: char) -> bool {
    ('a' <= c && c <= 'z') || is_digit(c) || c == '-'
}

/// `slug::slugify`. The slug is a function of the text alone; the name `slug_of` stands for it.
/// As the crate documents, a slug holds lower case letters, digits and dashes only, no two
/// dashes in a row, and neither begins nor ends with a dash.
#[verifier::external_body]
pub(crate) fn slugify(text: &str) -> (slug: String)
    ensures
        slug@ == slug_of(text@),
        forall|i: int| 0 <= i < slug@.len() ==> is_slug_char(#[trigger] slug@[i]),
        forall|i: int| 0 < i < slug@.len() ==> !(slug@[i - 1] == '-' && #[trigger] slug@[i] == '-'),
        slug@.len() > 0 ==> slug@[0] != '-' && slug@.last() != '-',
{
    slug::slugify(text)
}

/// A branch of a remote.
#[derive(Debug)]
pub struct RemoteBranchName {
    pub remote: String,
    pub branch: String,
}

/// A branch of a remote.
pub struct RemoteBranchModel {
    pub remote: Seq<char>,
    pub branch: Seq<char>,
}

impl View for RemoteBranchName {
    type V = RemoteBranchModel;

    open spec fn view(&self) -> RemoteBranchModel {
        RemoteBranchModel { remote: self.remote@, branch: self.branch@ }
    }
}

impl Clone for RemoteBranchName {
    fn clone(&self) -> (copy: Self)
        ensures
            copy@ == self@,
    {
        RemoteBranchName { remote: self.remote.clone(), branch: self.branch.clone() }
    }
}

/// What the full name of a remote branch begins with.
pub open spec fn remote_prefix() -> Seq<char> {
    seq!['r', 'e', 'f', 's', '/', 'r', 'e', 'm', 'o', 't', 'e', 's', '/']
}

/// The remote branch that a full name is the name of: behind `refs/remotes/`, the remote goes
/// up to the first slash and the branch is the rest.
pub open spec fn remote_branch_of(refname: Seq<char>) -> Option<RemoteBranchModel> {
    let rest = refname.skip(remote_prefix().len() as int);
    let slash = first_of(rest, '/');
    if starts_with(refname, remote_prefix()) && slash < rest.len() {
        Some(RemoteBranchModel { remote: rest.take(slash), branch: rest.skip(slash + 1) })
    } else {
        None
    }
}

impl RemoteBranchModel {
    /// The full name: `refs/remotes/`, the remote, a slash and the branch.
    pub open spec fn refname(self) -> Seq<char> {
        remote_prefix() + self.remote + seq!['/'] + self.branch
    }
}

impl RemoteBranchName {
    /// The full name of the branch.
    pub fn refname(&self) -> (refname: String)
        ensures
            refname@ == self@.refname(),
    {
        proof {
            reveal_strlit("refs/remotes/");
            reveal_strlit("/");
            assert("refs/remotes/"@ =~= remote_prefix());
            assert("/"@ =~= seq!['/']);
        }
        "refs/remotes/".to_owned().concat(self.remote.as_str()).concat("/").concat(self.branch.as_str())
    }

    /// The remote branch of a full name.
    pub fn parse(refname: &str) -> (r: Option<RemoteBranchName>)
        ensures
            view_opt(r) == remote_branch_of(refname@),
    {
        let chars: Vec<char> = chars_of(refname);
        let prefix: Vec<char> = chars_of("refs/remotes/");
        proof {
            reveal_strlit("refs/remotes/");
            assert("refs/remotes/"@ =~= remote_prefix());
        }
        assert(prefix@.len() <= chars@.len() ==> chars@.subrange(0, prefix@.len() as int) =~= chars@.take(
            prefix@.len() as int,
        ));
        if !has_at(&chars, &prefix, 0) {
            return None;
        }
        let start: usize = prefix.len();
        let ghost rest = refname@.skip(start as int);
        let mut slash: usize = start;
        while slash < chars.len() && chars[slash] != '/'
            invariant
                start <= slash <= chars@.len(),
                rest == chars@.skip(start as int),
                forall|k: int| 0 <= k < slash - start ==> rest[k] != '/',
            decreases chars@.len() - slash,
        {
            assert(rest[slash - start] == chars@[slash as int]);
            slash = slash + 1;
        }
        proof {
            lemma_first_of_is(rest, '/', slash - start);
        }
        if slash == chars.len() {
            return None;
        }
        let remote: String = text_of(&chars, start, slash);
        let branch: String = text_of(&chars, slash + 1, chars.len());
        assert(remote@ =~= rest.take(slash - start));
        assert(branch@ =~= rest.skip(slash - start + 1));
        Some(RemoteBranchName { remote, branch })
    }
}

/// A remote branch read back from its full name is that branch, where the name of the remote
/// holds no slash.
pub proof fn parse_of_refname(name: RemoteBranchModel)
    requires
        !name.remote.contains('/'),
    ensures
        remote_branch_of(name.refname()) == Some(name),
{
    let refname = name.refname();
    let rest = refname.skip(remote_prefix().len() as int);
    assert(refname.take(remote_prefix().len() as int) =~= remote_prefix());
    assert(rest =~= name.remote + seq!['/'] + name.branch);
    assert forall|k: int| 0 <= k < name.remote.len() implies rest[k] != '/' by {
        assert(rest[k] == name.remote[k]);
    }
    lemma_first_of_is(rest, '/', name.remote.len() as int);
    assert(rest.take(name.remote.len() as int) =~= name.remote);
    assert(rest.skip(name.remote.len() as int + 1) =~= name.branch);
}

} // verus!
