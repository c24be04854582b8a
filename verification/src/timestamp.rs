//! The value of the `Deprecation` header field: the flag `true`, or the date
//! from which the deprecation holds.

use vstd::prelude::*;
use time::format_description::well_known::Rfc2822;
use time::OffsetDateTime;
use crate::text::{chars_of, reads, text_of};

verus! {

/// A date and time with its offset from UTC, as `time` holds it. Its inside
/// is not visible to proofs.
#[verifier::external_type_specification]
#[verifier::external_body]
pub struct ExOffsetDateTime(time::OffsetDateTime);

/// The instant that `text` denotes as a date of RFC 2822, such as
/// `Thu, 01 Jan 1970 00:00:00 +0000`, as `OffsetDateTime::parse` reads it;
/// `None` where `text` is no such date.
pub uninterp spec fn rfc2822_instant(text: Seq<char>) -> Option<time::OffsetDateTime>;

/// Reads `text` as a date of RFC 2822.
///
/// Trusted. The body calls `OffsetDateTime::parse` with the format
/// description `Rfc2822` and drops the error. The contract claims only that
/// the outcome depends on `text` alone.
#[verifier::external_body]
pub(crate) fn parse_rfc2822(text: &str) -> (instant: Option<OffsetDateTime>)
    ensures
        instant == rfc2822_instant(text@),
{
    OffsetDateTime::parse(text, &Rfc2822).ok()
}

/// The value that flags a deprecation without a date.
pub open spec fn flag() -> Seq<char> {
    "true"@
}

/// The instant that a value of the field gives: none for the flag, which is
/// read before any date, and none for a value that is no text; else what the
/// value denotes as a date.
pub open spec fn timestamp_of(value: Option<Seq<char>>) -> Option<OffsetDateTime> {
    match value {
        Some(text) => if text == flag() {
            None
        } else {
            rfc2822_instant(text)
        },
        None => None,
    }
}

/// Returns the instant that a value of the `Deprecation` field gives. A
/// value that is `None` stands for a field value that is no text.
pub fn deprecation_timestamp(value: Option<&str>) -> (instant: Option<OffsetDateTime>)
    ensures
        instant == timestamp_of(text_of(value)),
{
    match value {
        None => None,
        Some(text) => {
            let chars = chars_of(text);
            assert(chars@.subrange(0, chars@.len() as int) =~= text@);
            if reads(chars.as_slice(), 0, chars.len(), "true") {
                None
            } else {
                parse_rfc2822(text)
            }
        },
    }
}

} // verus!
