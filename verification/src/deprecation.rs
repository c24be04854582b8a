//! The deprecation record of a response.

use vstd::prelude::*;
use reqwest::Response;
use time::OffsetDateTime;
use crate::headers::{field_name, header_texts, header_values, visible_texts};
use crate::link::{find_deprecation_link, first_target};
use crate::text::{string_of, texts_of};
use crate::timestamp::{deprecation_timestamp, timestamp_of};

verus! {

/// What a response says of the deprecation of its resource.
#[derive(Debug)]
pub struct Deprecation {
    /// The instant given in the `Deprecation` header field. `None` where the
    /// field holds the flag `true`, or a value that is no date.
    pub timestamp: Option<OffsetDateTime>,
    /// A link to information about the deprecation: the target of the first
    /// `Link` header field with the relation `deprecation`, if there is one.
    pub deprecation_link: Option<String>,
}

/// A `Deprecation` as proofs see it.
pub ghost struct DeprecationView {
    pub timestamp: Option<OffsetDateTime>,
    pub deprecation_link: Option<Seq<char>>,
}

impl View for Deprecation {
    type V = DeprecationView;

    open spec fn view(&self) -> DeprecationView {
        DeprecationView {
            timestamp: self.timestamp,
            deprecation_link: string_of(self.deprecation_link),
        }
    }
}

/// The view of a record that may be missing.
pub open spec fn view_of(deprecation: Option<Deprecation>) -> Option<DeprecationView> {
    match deprecation {
        Some(deprecation) => Some(deprecation@),
        None => None,
    }
}

/// The record that a set of header fields gives, from the values of its
/// `Deprecation` fields and of its `Link` fields, each in order and as text
/// where it is text.
///
/// There is a record exactly where there is a `Deprecation` field. Its first
/// value gives the timestamp, and the `Link` fields give the link.
pub open spec fn deprecation_of(
    deprecation: Seq<Option<Seq<char>>>,
    links: Seq<Option<Seq<char>>>,
) -> Option<DeprecationView> {
    if deprecation.len() == 0 {
        None
    } else {
        Some(
            DeprecationView {
                timestamp: timestamp_of(deprecation.first()),
                deprecation_link: first_target(links),
            },
        )
    }
}

impl Deprecation {
    /// Builds the record from the values of the `Deprecation` header fields
    /// and of the `Link` header fields of one response. A value that is
    /// `None` stands for a field value that is no text.
    pub fn from_header_texts(
        deprecation: &[Option<&str>],
        links: &[Option<&str>],
    ) -> (record: Option<Deprecation>)
        ensures
            record is Some <==> deprecation@.len() > 0,
            view_of(record) == deprecation_of(texts_of(deprecation@), texts_of(links@)),
    {
        if deprecation.len() == 0 {
            return None;
        }
        let deprecation_link = find_deprecation_link(links);
        let timestamp = deprecation_timestamp(deprecation[0]);
        Some(Deprecation { timestamp, deprecation_link })
    }
}

/// Deprecation metadata for a response that carries header fields.
pub trait ResponseExt {
    /// The values that the response holds for the header field `name`, in
    /// order, each as text where it is text.
    spec fn field_texts(&self, name: Seq<char>) -> Seq<Option<Seq<char>>>;

    /// The deprecation record of the response: the one that its
    /// `Deprecation` and `Link` header fields give.
    fn deprecation(&self) -> (record: Option<Deprecation>)
        ensures
            record is Some <==> self.field_texts("Deprecation"@).len() > 0,
            view_of(record) == deprecation_of(
                self.field_texts("Deprecation"@),
                self.field_texts("Link"@),
            ),
    ;
}

impl ResponseExt for Response {
    open spec fn field_texts(&self, name: Seq<char>) -> Seq<Option<Seq<char>>> {
        visible_texts(header_values(*self, field_name(name)))
    }

    fn deprecation(&self) -> (record: Option<Deprecation>) {
        let deprecation = header_texts(self, "Deprecation");
        let links = header_texts(self, "Link");
        Deprecation::from_header_texts(deprecation.as_slice(), links.as_slice())
    }
}

} // verus!
