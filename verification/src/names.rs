//! What names, references and authors are made of.

use crate::author::author_of;
use crate::branch::SignatureModel;
use crate::digest::md5_hex;
use crate::naming::{
    largest_behind, number_behind, parse_of_refname, remote_branch_of, remote_prefix, unique_name,
    RemoteBranchModel,
};
use crate::text::{decimal, first_of, is_number, lemma_first_of, lowercase, number_of};
use vstd::prelude::*;
use vstd::utf8::encode_utf8;

verus! {

/// Whether a name is a namesake of another with the given number: the name itself, with zero, or the
/// name, the separator and the number in digits, as long as it is no larger than a signed number of
/// thirty-two bits can be.
pub open spec fn is_namesake(
    existing: Seq<char>,
    name: Seq<char>,
    separator: Seq<char>,
    n: nat,
) -> bool {
    ||| existing == name && n == 0
    ||| n <= 0x7fff_ffff && exists|digits: Seq<char>| #[trigger]
        is_number(digits) && number_of(digits) == n && existing == name + separator + digits
}

/// Whether one of some names is a namesake of another with the given number.
pub open spec fn has_namesake(
    existing: Seq<Seq<char>>,
    name: Seq<char>,
    separator: Seq<char>,
    n: nat,
) -> bool {
    exists|i: int| 0 <= i < existing.len() && is_namesake(#[trigger] existing[i], name, separator, n)
}

proof fn lemma_number_behind(
    existing: Seq<char>,
    name: Seq<char>,
    separator: Seq<char>,
    n: nat,
)
    ensures
        number_behind(existing, name, separator) == Some(n) <==> is_namesake(
            existing,
            name,
            separator,
            n,
        ),
{
    let stem = name + separator;
    let digits = existing.skip(stem.len() as int);
    if number_behind(existing, name, separator) == Some(n) && existing != name {
        assert(existing =~= stem + digits);
        assert(is_number(digits));
    }
    if is_namesake(existing, name, separator, n) && !(existing == name && n == 0) {
        let found = choose|found: Seq<char>| #[trigger]
            is_number(found) && number_of(found) == n && existing == name + separator + found;
        assert(existing.len() > name.len());
        assert(existing.take(stem.len() as int) =~= stem);
        assert(digits =~= found);
    }
}

proof fn lemma_largest(existing: Seq<Seq<char>>, name: Seq<char>, separator: Seq<char>)
    ensures
        match largest_behind(existing, name, separator) {
            None => forall|n: nat| !#[trigger] has_namesake(existing, name, separator, n),
            Some(largest) => has_namesake(existing, name, separator, largest) && forall|n: nat|
                #[trigger] has_namesake(existing, name, separator, n) ==> n <= largest,
        },
    decreases existing.len(),
{
    if existing.len() > 0 {
        let before = existing.drop_last();
        let last = existing.last();
        let at = existing.len() - 1;
        lemma_largest(before, name, separator);
        assert forall|n: nat| #[trigger] has_namesake(existing, name, separator, n) == (
        has_namesake(before, name, separator, n) || number_behind(last, name, separator) == Some(n))
            by {
            lemma_number_behind(last, name, separator, n);
            if has_namesake(existing, name, separator, n) {
                let i = choose|i: int|
                    0 <= i < existing.len() && is_namesake(
                        #[trigger] existing[i],
                        name,
                        separator,
                        n,
                    );
                if i < at {
                    assert(is_namesake(before[i], name, separator, n));
                }
            }
            if has_namesake(before, name, separator, n) {
                let i = choose|i: int|
                    0 <= i < before.len() && is_namesake(#[trigger] before[i], name, separator, n);
                assert(is_namesake(existing[i], name, separator, n));
            }
            if number_behind(last, name, separator) == Some(n) {
                assert(is_namesake(existing[at], name, separator, n));
            }
        }
        if let Some(n) = number_behind(last, name, separator) {
            assert(has_namesake(existing, name, separator, n));
        }
        if let Some(n) = largest_behind(before, name, separator) {
            assert(has_namesake(existing, name, separator, n));
        }
    }
}

/// A name without a namesake stays as it is. Otherwise it gets the number after the largest that one
/// of its namesakes has, behind the separator.
pub proof fn a_name_gets_the_number_after_the_largest(
    existing: Seq<Seq<char>>,
    name: Seq<char>,
    separator: Seq<char>,
    n: nat,
)
    ensures
        (forall|n: nat| !#[trigger] has_namesake(existing, name, separator, n)) ==> unique_name(
            existing,
            name,
            separator,
        ) == name,
        has_namesake(existing, name, separator, n) && (forall|m: nat| #[trigger]
            has_namesake(existing, name, separator, m) ==> m <= n) ==> unique_name(
            existing,
            name,
            separator,
        ) == name + separator + decimal(n + 1),
{
    lemma_largest(existing, name, separator);
}

/// The full name of a remote branch is `refs/remotes/`, the remote, a slash and the branch.
pub proof fn a_full_name_holds_remote_and_branch(name: RemoteBranchModel)
    ensures
        name.refname() == "refs/remotes/"@ + name.remote + "/"@ + name.branch,
{
    reveal_strlit("refs/remotes/");
    reveal_strlit("/");
    assert("refs/remotes/"@ =~= remote_prefix());
    assert("/"@ =~= seq!['/']);
}

/// What is read of a full name gives that name back, and the remote holds no slash. Where nothing is
/// read, it is the full name of no branch of such a remote.
pub proof fn refname_of_parse(refname: Seq<char>, name: RemoteBranchModel)
    ensures
        remote_branch_of(refname) matches Some(read) ==> read.refname() == refname
            && !read.remote.contains('/'),
        remote_branch_of(refname) is None && !name.remote.contains('/') ==> name.refname()
            != refname,
{
    if let Some(read) = remote_branch_of(refname) {
        let rest = refname.skip(remote_prefix().len() as int);
        lemma_first_of(rest, '/');
        let slash = first_of(rest, '/');
        assert(rest =~= read.remote + seq!['/'] + read.branch);
        assert(refname =~= remote_prefix() + rest);
        assert(read.refname() =~= refname);
        if read.remote.contains('/') {
            let i = choose|i: int| 0 <= i < read.remote.len() && read.remote[i] == '/';
            assert(rest[i] == '/');
        }
    }
    if !name.remote.contains('/') {
        parse_of_refname(name);
    }
}

/// An author has the name and the e-mail address of the signature, or nothing where it has none, and
/// a picture that goes by the digest of the address in lower case.
pub proof fn an_author_is_the_one_who_signed(signature: SignatureModel)
    ensures
        ({
            let author = author_of(signature);
            &&& author.name == if signature.name is Some {
                signature.name->0
            } else {
                seq![]
            }
            &&& author.email == if signature.email is Some {
                signature.email->0
            } else {
                seq![]
            }
            &&& author.gravatar_url == "https://www.gravatar.com/avatar/"@ + md5_hex(
                encode_utf8(lowercase(author.email)),
            ) + "?s=100&r=g&d=retro"@
        }),
{
}

} // verus!
