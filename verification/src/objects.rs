//! Ids of git objects and of virtual branches.

use crate::text::is_digit;
use vstd::prelude::*;

verus! {

/// The id of a git object: 160 bits, the first 128 of them and the last 32.
#[derive(Clone, Copy, PartialEq, Eq, Structural, Debug)]
pub struct Oid {
    pub high: u128,
    pub low: u32,
}

impl View for Oid {
    type V = Oid;

    open spec fn view(&self) -> Oid {
        *self
    }
}

impl Oid {
    /// The id as a number.
    pub open spec fn number(self) -> nat {
        (self.high * 0x1_0000_0000 + self.low) as nat
    }
}

/// The id of a virtual branch.
#[derive(Clone, Copy, PartialEq, Eq, Structural, Debug)]
pub struct BranchId {
    pub value: u128,
}

impl View for BranchId {
    type V = BranchId;

    open spec fn view(&self) -> BranchId {
        *self
    }
}

/// Whether a character is a hexadecimal digit, in lower or upper case.
pub open spec fn is_hex_digit(c: char) -> bool {
    is_digit(c) || ('a' <= c && c <= 'f') || ('A' <= c && c <= 'F')
}

/// The value of a hexadecimal digit.
pub open spec fn hex_digit_value(c: char) -> nat {
    if is_digit(c) {
        (c as u32 - '0' as u32) as nat
    } else if c <= 'F' {
        (c as u32 - 'A' as u32 + 10) as nat
    } else {
        (c as u32 - 'a' as u32 + 10) as nat
    }
}

/// The number that a text of hexadecimal digits stands for.
pub open spec fn hex_number(s: Seq<char>) -> nat
    decreases s.len(),
{
    if s.len() == 0 {
        0
    } else {
        hex_number(s.drop_last()) * 16 + hex_digit_value(s.last())
    }
}

/// How many hexadecimal digits an object id has.
pub const OID_DIGITS: usize = 40;

/// Whether a text can be read as an object id: one to forty hexadecimal digits.
pub open spec fn is_oid_text(s: Seq<char>) -> bool {
    0 < s.len() <= OID_DIGITS && forall|i: int| 0 <= i < s.len() ==> is_hex_digit(#[trigger] s[i])
}

/// The number of the object id that a text stands for: digits that are missing at the end are
/// zeros.
pub open spec fn oid_text_number(s: Seq<char>) -> nat {
    hex_number(s + Seq::new((OID_DIGITS - s.len()) as nat, |i: int| '0'))
}

/// The error of libgit2, as the git2 crate hands it on.
#[verifier::external_type_specification]
#[verifier::external_body]
pub struct ExGitError(git2::Error);

/// `git2::Oid::from_str`. As the crate documents, it refuses an empty text, one of more than
/// forty digits and one with anything but hexadecimal digits; every other text it reads, and
/// takes digits that are missing at the end for zeros.
#[verifier::external_body]
fn oid_from_str(text: &str) -> (r: Result<Oid, git2::Error>)
    ensures
        r is Ok <==> is_oid_text(text@),
        r matches Ok(oid) ==> oid.number() == oid_text_number(text@),
{
    git2::Oid::from_str(text).map(|oid| {
        let mut high = [0u8; 16];
        let mut low = [0u8; 4];
        high.copy_from_slice(&oid.as_bytes()[..16]);
        low.copy_from_slice(&oid.as_bytes()[16..]);
        Oid { high: u128::from_be_bytes(high), low: u32::from_be_bytes(low) }
    })
}

/// The object id that a text stands for, where it stands for one.
pub open spec fn oid_of_text(s: Seq<char>) -> Option<Oid> {
    if is_oid_text(s) {
        let number = oid_text_number(s);
        Some(
            Oid {
                high: (number / 0x1_0000_0000) as u128,
                low: (number % 0x1_0000_0000) as u32,
            },
        )
    } else {
        None
    }
}

/// The object id that a text stands for, where it stands for one.
pub fn parse_oid(text: &str) -> (r: Option<Oid>)
    ensures
        r == oid_of_text(text@),
{
    match oid_from_str(text) {
        Ok(oid) => Some(oid),
        Err(_) => None,
    }
}

/// Ids with the same number are the same.
pub proof fn oid_is_its_number(one: Oid, other: Oid)
    requires
        one.number() == other.number(),
    ensures
        one == other,
{
}

} // verus!
