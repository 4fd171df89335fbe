//! Who made a commit, with a picture.

use crate::branch::{Signature, SignatureModel};
use crate::digest::{is_digest, md5_hex, md5_lower_hex};
use crate::seqs::view_opt;
use crate::text::{lowercase, to_lowercase};
use vstd::prelude::*;
use vstd::string::StringSliceAdditionalSpecFns;
use vstd::utf8::encode_utf8;

verus! {

/// Who made a commit.
#[derive(Debug)]
pub struct Author {
    pub name: String,
    pub email: String,
    /// the address of the picture
    pub gravatar_url: String,
}

/// Who made a commit.
pub struct AuthorModel {
    pub name: Seq<char>,
    pub email: Seq<char>,
    pub gravatar_url: Seq<char>,
}

impl View for Author {
    type V = AuthorModel;

    open spec fn view(&self) -> AuthorModel {
        AuthorModel { name: self.name@, email: self.email@, gravatar_url: self.gravatar_url@ }
    }
}

impl Clone for Author {
    fn clone(&self) -> (copy: Self)
        ensures
            copy@ == self@,
    {
        Author {
            name: self.name.clone(),
            email: self.email.clone(),
            gravatar_url: self.gravatar_url.clone(),
        }
    }
}

/// The error of the url crate.
#[verifier::external_type_specification]
#[verifier::external_body]
pub struct ExUrlError(url::ParseError);

/// The address of the picture that goes by a digest.
pub open spec fn picture_at(digest: Seq<char>) -> Seq<char> {
    "https://www.gravatar.com/avatar/"@ + digest + "?s=100&r=g&d=retro"@
}

/// Whether a text is the address of the picture that goes by some digest.
pub open spec fn is_picture_address(text: Seq<char>) -> bool {
    exists|digest: Seq<char>| is_digest(digest) && text == #[trigger] picture_at(digest)
}

/// `url::Url::parse`, the address turned into a text again. The address of a picture is an address
/// to the url crate, and one that it writes as it is: the scheme and the host are in lower case
/// already, no segment of the path is a dot or two dots, and no character of the path or of the
/// query is one that is written with a percent sign.
#[verifier::external_body]
fn parse_url(text: &str) -> (r: Result<String, url::ParseError>)
    requires
        is_picture_address(text@),
    ensures
        r is Ok,
        r->Ok_0@ == text@,
{
    url::Url::parse(text).map(String::from)
}

/// Where the picture for an e-mail address is found: the address goes by its digest, upper and
/// lower case alike.
pub open spec fn picture_address(email: Seq<char>) -> Seq<char> {
    picture_at(md5_hex(encode_utf8(lowercase(email))))
}

/// A text, or an empty one where there is none.
pub open spec fn or_empty(text: Option<Seq<char>>) -> Seq<char> {
    match text {
        Some(text) => text,
        None => seq![],
    }
}

/// A text, or an empty one where there is none.
fn text_or_empty(text: &Option<String>) -> (r: String)
    ensures
        r@ == or_empty(view_opt(*text)),
{
    match text {
        Some(text) => text.clone(),
        None => {
            let empty = String::new();
            assert(empty@ =~= seq![]);
            empty
        },
    }
}

/// The author that a signature stands for, with the address of a picture.
pub open spec fn author_with(signature: SignatureModel, picture: Seq<char>) -> AuthorModel {
    AuthorModel {
        name: or_empty(signature.name),
        email: or_empty(signature.email),
        gravatar_url: picture,
    }
}

/// The author that a signature stands for.
pub open spec fn author_of(signature: SignatureModel) -> AuthorModel {
    author_with(signature, picture_address(or_empty(signature.email)))
}

impl Author {
    /// The author that a signature stands for, with the address of a picture.
    pub fn with_picture(signature: &Signature, picture: String) -> (author: Author)
        ensures
            author@ == author_with(signature@, picture@),
    {
        Author {
            name: text_or_empty(&signature.name),
            email: text_or_empty(&signature.email),
            gravatar_url: picture,
        }
    }

    /// The author that a signature stands for.
    pub fn from(signature: &Signature) -> (author: Author)
        ensures
            author@ == author_of(signature@),
    {
        let email: String = text_or_empty(&signature.email);
        let lower: String = to_lowercase(email.as_str());
        let digest: String = md5_lower_hex(lower.as_str().as_bytes());
        let mut address: String = "https://www.gravatar.com/avatar/".to_owned();
        address.append(digest.as_str());
        address.append("?s=100&r=g&d=retro");
        assert(address@ == picture_at(digest@));
        Author::with_picture(signature, parse_url(address.as_str()).unwrap())
    }
}

} // verus!
