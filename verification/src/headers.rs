//! The header fields of a received response.
//!
//! The response and its header map belong to `reqwest`. Nothing here is
//! proved of them: this module says what is taken on trust, and hands the
//! field values to the rest of the library as plain texts.

use vstd::prelude::*;
use reqwest::Response;
use crate::text::texts_of;

verus! {

/// A response as `reqwest` received it. Its inside is not visible to proofs.
#[verifier::external_type_specification]
#[verifier::external_body]
pub struct ExResponse(reqwest::Response);

/// The values that the header map of `response` holds for the field with
/// the lower-case name `name`, each as its bytes, in the order in which
/// `HeaderMap::get_all` hands them out. A name that the map does not hold
/// has no values.
pub uninterp spec fn header_values(response: reqwest::Response, name: Seq<char>) -> Seq<Seq<u8>>;

/// `c` in lower case where it is an ASCII letter, else `c` itself.
pub open spec fn ascii_lower(c: char) -> char {
    if 0x41 <= c as u32 <= 0x5A {
        ((c as u8 + 0x20) as u8) as char
    } else {
        c
    }
}

/// The name under which a header map files a field: `name` with its ASCII
/// letters in lower case. Names that differ in case only are one name.
pub open spec fn field_name(name: Seq<char>) -> Seq<char> {
    name.map_values(|c: char| ascii_lower(c))
}

/// A byte that may stand in a field value that is text: a printable ASCII
/// character, a space or a tab.
pub open spec fn is_visible_ascii(byte: u8) -> bool {
    32 <= byte < 127 || byte == 9
}

/// A field value as text: its bytes as characters, where every byte is
/// visible ASCII; no text otherwise.
pub open spec fn visible_text(value: Seq<u8>) -> Option<Seq<char>> {
    if forall|i: int| 0 <= i < value.len() ==> is_visible_ascii(#[trigger] value[i]) {
        Some(Seq::new(value.len(), |i: int| value[i] as char))
    } else {
        None
    }
}

/// Field values as texts, one for one.
pub open spec fn visible_texts(values: Seq<Seq<u8>>) -> Seq<Option<Seq<char>>> {
    values.map_values(|value: Seq<u8>| visible_text(value))
}

/// Hands out the values of the field `name`, each as text.
///
/// Trusted. The body asks `Response::headers` for the header map and
/// `HeaderMap::get_all` for the values under `name`, walks them with
/// `GetAll::iter`, and turns each into text with `HeaderValue::to_str`. The
/// contract claims that the values come in the order that `header_values`
/// names, that the map finds a field by its name in lower case, and that
/// `to_str` gives a value's bytes as characters where all of them are
/// visible ASCII and fails otherwise.
#[verifier::external_body]
pub(crate) fn header_texts<'a>(response: &'a Response, name: &str) -> (texts: Vec<
    Option<&'a str>,
>)
    ensures
        texts_of(texts@) == visible_texts(header_values(*response, field_name(name@))),
{
    response.headers().get_all(name).iter().map(|value| value.to_str().ok()).collect()
}

} // verus!
