//! This file defines our authentication behavior for the admin editor.
use vstd::prelude::*;

use crate::ical::event::{chars_equal, chars_start_with};
use crate::ical::format::{copy_range, split_on, split_pattern, starts_with, texts_view};
use crate::text::{chars_of, opt_chars, string_of};
use vstd::utf8::{decode_utf8, valid_utf8};

verus! {

broadcast use vstd::string::group_string_axioms;

/// This struct is used as a request guard to require authentication.
pub struct Authenticated;

/// This struct defines an error type which returns the corresponding HTTP error code.
#[derive(Debug)]
pub struct WantsBasicAuth;

impl WantsBasicAuth {
    /// The body of the answer to a request that lacks authentication.
    pub fn message(&self) -> (r: String)
        ensures
            r@ == "Needs authorization"@,
    {
        "Needs authorization".to_string()
    }
}

/// The bytes that `base64::decode` (the standard alphabet, with padding) reads
/// from `text`, or `None` where it reports an error.
pub uninterp spec fn base64_decoded(text: Seq<char>) -> Option<Seq<u8>>;

/// `base64::decode`: the bytes that `base64_decoded` names for the text.
#[verifier::external_body]
fn decode_base64(text: &str) -> (r: Option<Vec<u8>>)
    ensures
        match base64_decoded(text@) {
            Some(b) => r matches Some(v) && v@ == b,
            None => r is None,
        },
{
    base64::decode(text).ok()
}

/// `String::from_utf8`: the text that the bytes encode, where they are UTF-8.
#[verifier::external_body]
fn utf8_text(bytes: Vec<u8>) -> (r: Option<String>)
    ensures
        r is Some <==> valid_utf8(bytes@),
        r matches Some(s) ==> s@ == decode_utf8(bytes@),
{
    String::from_utf8(bytes).ok()
}

/// The credentials of an `Authorization` header: what follows its first six
/// characters, read as base64 and then as UTF-8, or `ERROR` where either fails.
pub open spec fn credentials_text(header: Seq<char>) -> Seq<char> {
    let rest = if header.len() >= 6 { header.skip(6) } else { Seq::empty() };
    match base64_decoded(rest) {
        Some(b) => if valid_utf8(b) { decode_utf8(b) } else { "ERROR"@ },
        None => "ERROR"@,
    }
}

/// The header asks for basic authentication, its credentials hold a colon, and
/// the text before the first colon is `user` and the text after it, up to any
/// second colon, is `pass`.
pub open spec fn auth_granted(header: Option<Seq<char>>, user: Seq<char>, pass: Seq<char>) -> bool {
    match header {
        Some(h) => {
            &&& starts_with(h, "Basic"@)
            &&& split_on(credentials_text(h), ":"@).len() >= 2
            &&& split_on(credentials_text(h), ":"@)[0] == user
            &&& split_on(credentials_text(h), ":"@)[1] == pass
        },
        None => false,
    }
}

/// The credentials of a header that asks for basic authentication, split at
/// each colon.
fn credential_pieces(a: &str) -> (r: Vec<Vec<char>>)
    ensures
        texts_view(r@) == split_on(credentials_text(a@), ":"@),
{
    let cs = chars_of(a);
    let rest: Vec<char> = if cs.len() >= 6 {
        copy_range(&cs, 6, cs.len())
    } else {
        Vec::new()
    };
    assert(cs.len() >= 6 ==> rest@ =~= a@.skip(6));
    assert(cs.len() < 6 ==> rest@ =~= Seq::<char>::empty());
    let rest_text = string_of(rest.as_slice());
    let text: Vec<char> = match decode_base64(rest_text.as_str()) {
        Some(bytes) => match utf8_text(bytes) {
            Some(t) => chars_of(t.as_str()),
            None => chars_of("ERROR"),
        },
        None => chars_of("ERROR"),
    };
    let colon = chars_of(":");
    proof {
        reveal_strlit(":");
    }
    split_pattern(&text, &colon)
}

impl Authenticated {
    /// The request guard: a request is let through where its `Authorization`
    /// header asks for basic authentication with this user name and password;
    /// otherwise, credentials without a colon included, it is answered that it
    /// needs authorization.
    pub fn from_request(auth: Option<&str>, username: &str, password: &str) -> (r: Result<Authenticated, WantsBasicAuth>)
        ensures
            r is Ok <==> auth_granted(opt_chars(auth), username@, password@),
    {
        match auth {
            Some(a) => {
                let cs = chars_of(a);
                if chars_start_with(&cs, "Basic") {
                    let pieces = credential_pieces(a);
                    if pieces.len() < 2 {
                        return Err(WantsBasicAuth);
                    }
                    assert(texts_view(pieces@)[0] == pieces@[0]@);
                    assert(texts_view(pieces@)[1] == pieces@[1]@);
                    if chars_equal(&pieces[0], username) && chars_equal(&pieces[1], password) {
                        Ok(Authenticated)
                    } else {
                        Err(WantsBasicAuth)
                    }
                } else {
                    Err(WantsBasicAuth)
                }
            },
            None => Err(WantsBasicAuth),
        }
    }
}

} // verus!
