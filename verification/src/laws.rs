//! What holds of the library as a whole, proved from the specifications that
//! the contracts of its functions are stated in.

use vstd::prelude::*;
use reqwest::Response;
use crate::deprecation::{deprecation_of, ResponseExt};
use crate::headers::field_name;
use crate::link::{
    bracket_content, first_target, is_bracketed, is_parameter, link_target, names_deprecation,
    names_deprecation_at, rel_deprecation, segments, value_target,
};
use crate::text::{
    first_index_of, join, lemma_first_index_of_unique, lemma_split_join,
    lemma_split_trailing_separator, lemma_split_unfold, lemma_strip_leading, lemma_strip_trailing,
    lemma_trim_identity, trim, trim_each, CharClass,
};
use crate::timestamp::{flag, rfc2822_instant};

verus! {

/// There is a record exactly where the response holds a `Deprecation`
/// field: without one there is none, whatever the `Link` fields hold, and
/// with one there is a record, whatever its value holds.
pub proof fn lemma_record_iff_deprecation_field(
    deprecation: Seq<Option<Seq<char>>>,
    links: Seq<Option<Seq<char>>>,
)
    ensures
        deprecation_of(deprecation, links) is Some <==> deprecation.len() > 0,
{
}

/// A response finds its header fields without regard to the case of their
/// names: for names that differ in the case of ASCII letters only it holds
/// the same values.
pub proof fn lemma_field_names_ignore_case(response: Response, name: Seq<char>, other: Seq<char>)
    requires
        field_name(name) == field_name(other),
    ensures
        response.field_texts(name) == response.field_texts(other),
{
}

/// The flag `true` gives a record without a timestamp.
pub proof fn lemma_flag_gives_no_timestamp(
    deprecation: Seq<Option<Seq<char>>>,
    links: Seq<Option<Seq<char>>>,
)
    requires
        deprecation.len() > 0,
        deprecation.first() == Some(flag()),
    ensures
        deprecation_of(deprecation, links) is Some,
        deprecation_of(deprecation, links)->0.timestamp is None,
{
}

/// A value that is a date of RFC 2822 gives a record whose timestamp is the
/// instant that the date denotes. The flag is read before any date, so the
/// value is taken to differ from it.
pub proof fn lemma_date_gives_its_instant(
    deprecation: Seq<Option<Seq<char>>>,
    links: Seq<Option<Seq<char>>>,
    date: Seq<char>,
)
    requires
        deprecation.len() > 0,
        deprecation.first() == Some(date),
        date != flag(),
        rfc2822_instant(date) is Some,
    ensures
        deprecation_of(deprecation, links) is Some,
        deprecation_of(deprecation, links)->0.timestamp == rfc2822_instant(date),
{
}

/// A value that is neither the flag nor a date of RFC 2822, or that is no
/// text at all, still gives a record; the record has no timestamp.
pub proof fn lemma_other_value_gives_no_timestamp(
    deprecation: Seq<Option<Seq<char>>>,
    links: Seq<Option<Seq<char>>>,
)
    requires
        deprecation.len() > 0,
        deprecation.first() matches Some(text) ==> text != flag() && rfc2822_instant(text) is None,
    ensures
        deprecation_of(deprecation, links) is Some,
        deprecation_of(deprecation, links)->0.timestamp is None,
{
}

/// The link of a record depends on the `Link` fields alone, not on the value
/// of the `Deprecation` field.
pub proof fn lemma_link_is_independent_of_value(
    deprecation: Seq<Option<Seq<char>>>,
    links: Seq<Option<Seq<char>>>,
)
    requires
        deprecation.len() > 0,
    ensures
        deprecation_of(deprecation, links)->0.deprecation_link == first_target(links),
{
}

/// There is no link exactly where no `Link` field gives a target: where
/// there is no such field, or none of them has the relation `deprecation`.
pub proof fn lemma_no_link_iff_no_target(links: Seq<Option<Seq<char>>>)
    ensures
        first_target(links) is None <==> forall|i: int|
            0 <= i < links.len() ==> value_target(#[trigger] links[i]) is None,
    decreases links.len(),
{
    if links.len() > 0 {
        let rest = links.drop_first();
        lemma_no_link_iff_no_target(rest);
        assert(links.first() == links[0]);
        if forall|i: int| 0 <= i < links.len() ==> value_target(#[trigger] links[i]) is None {
            assert forall|i: int| 0 <= i < rest.len() implies value_target(
                #[trigger] rest[i],
            ) is None by {
                assert(rest[i] == links[i + 1]);
            }
        } else {
            let i = choose|i: int|
                0 <= i < links.len() && value_target(#[trigger] links[i]) is Some;
            if i > 0 {
                assert(rest[i - 1] == links[i]);
            }
        }
    }
}

/// The link is the target of the first `Link` field that gives one: the
/// fields before it are passed over.
pub proof fn lemma_first_target_is_first(links: Seq<Option<Seq<char>>>, at: int)
    requires
        0 <= at < links.len(),
        value_target(links[at]) is Some,
        forall|j: int| 0 <= j < at ==> value_target(#[trigger] links[j]) is None,
    ensures
        first_target(links) == value_target(links[at]),
    decreases links.len(),
{
    assert(links.first() == links[0]);
    if at > 0 {
        let rest = links.drop_first();
        assert(value_target(links[0]) is None);
        assert forall|j: int| 0 <= j < at - 1 implies value_target(#[trigger] rest[j]) is None by {
            assert(rest[j] == links[j + 1]);
        }
        assert(rest[at - 1] == links[at]);
        lemma_first_target_is_first(rest, at - 1);
    }
}

/// Where one `Link` field alone has the relation `deprecation`, its target
/// is the link, wherever the field stands among the others.
pub proof fn lemma_only_target_is_found(links: Seq<Option<Seq<char>>>, at: int)
    requires
        0 <= at < links.len(),
        value_target(links[at]) is Some,
        forall|j: int|
            0 <= j < links.len() && j != at ==> value_target(#[trigger] links[j]) is None,
    ensures
        first_target(links) == value_target(links[at]),
{
    lemma_first_target_is_first(links, at);
}

/// The segment `rel="deprecation"` is itself a parameter, with the key `rel`
/// and the value `"deprecation"`.
pub proof fn lemma_rel_deprecation_is_parameter()
    ensures
        is_parameter(rel_deprecation()),
        first_index_of(rel_deprecation(), '=') == 3,
        rel_deprecation().take(3) == "rel"@,
        rel_deprecation().skip(4) == "\"deprecation\""@,
{
    reveal_strlit("rel=\"deprecation\"");
    reveal_strlit("rel");
    reveal_strlit("\"deprecation\"");
    let segment = rel_deprecation();
    lemma_first_index_of_unique(segment, '=', 3);
    assert(segment.take(3) =~= "rel"@);
    assert(segment.skip(4) =~= "\"deprecation\""@);
    if segment.skip(4).contains('=') {
        let j = choose|j: int| 0 <= j < segment.skip(4).len() && segment.skip(4)[j] == '=';
        assert("\"deprecation\""@[j] == '=');
    }
}

/// Among segments that are all parameters, the relation is named exactly
/// where one of them is `rel="deprecation"`.
pub proof fn lemma_names_deprecation_among_parameters(params: Seq<Seq<char>>)
    requires
        forall|i: int| 0 <= i < params.len() ==> is_parameter(#[trigger] params[i]),
    ensures
        names_deprecation(params) <==> params.contains(rel_deprecation()),
{
    if names_deprecation(params) {
        let k = choose|k: int| names_deprecation_at(params, k);
        assert(params[k] == rel_deprecation());
    }
    if params.contains(rel_deprecation()) {
        let k = choose|k: int| 0 <= k < params.len() && params[k] == rel_deprecation();
        assert(names_deprecation_at(params, k));
    }
}

/// The order of the parameters is insignificant: two lists of parameters
/// that hold the same parameters, each as often, name the relation or fail
/// to name it together.
pub proof fn lemma_parameter_order_is_insignificant(
    params: Seq<Seq<char>>,
    reordered: Seq<Seq<char>>,
)
    requires
        forall|i: int| 0 <= i < params.len() ==> is_parameter(#[trigger] params[i]),
        params.to_multiset() == reordered.to_multiset(),
    ensures
        names_deprecation(params) == names_deprecation(reordered),
{
    broadcast use vstd::seq_lib::group_to_multiset_ensures;

    assert forall|i: int| 0 <= i < reordered.len() implies is_parameter(
        #[trigger] reordered[i],
    ) by {
        assert(reordered.contains(reordered[i]));
        assert(params.to_multiset().count(reordered[i]) > 0);
        assert(params.contains(reordered[i]));
    }
    lemma_names_deprecation_among_parameters(params);
    lemma_names_deprecation_among_parameters(reordered);
    assert(params.contains(rel_deprecation()) <==> params.to_multiset().count(rel_deprecation())
        > 0);
    assert(reordered.contains(rel_deprecation()) <==> reordered.to_multiset().count(
        rel_deprecation(),
    ) > 0);
}

/// Once the relation is named, the segments after it are not read: they may
/// be replaced by any others.
pub proof fn lemma_segments_after_relation_are_not_read(
    params: Seq<Seq<char>>,
    k: int,
    others: Seq<Seq<char>>,
)
    requires
        names_deprecation_at(params, k),
    ensures
        names_deprecation(params.take(k + 1) + others),
{
    let replaced = params.take(k + 1) + others;
    assert(replaced[k] == params[k]);
    assert forall|j: int| 0 <= j < k implies is_parameter(#[trigger] replaced[j]) by {
        assert(replaced[j] == params[j]);
    }
    assert(names_deprecation_at(replaced, k));
}

/// A `;` at the end of a field value changes nothing: the empty segment that
/// it adds names no relation.
pub proof fn lemma_trailing_separator_changes_nothing(input: Seq<char>)
    ensures
        link_target(input + seq![';']) == link_target(input),
{
    let longer = input + seq![';'];
    lemma_split_trailing_separator(input, ';');
    lemma_split_unfold(input, ';');
    assert(segments(longer) =~= segments(input).push(trim(Seq::empty())));
    assert(segments(longer).first() == segments(input).first());
    let params = segments(input).skip(1);
    let more = segments(longer).skip(1);
    assert(more =~= params.push(trim(Seq::empty())));
    reveal_strlit("rel=\"deprecation\"");
    assert(trim(Seq::<char>::empty()).len() == 0);
    if names_deprecation(params) {
        let k = choose|k: int| names_deprecation_at(params, k);
        assert(more[k] == params[k]);
        assert forall|j: int| 0 <= j < k implies is_parameter(#[trigger] more[j]) by {
            assert(more[j] == params[j]);
        }
        assert(names_deprecation_at(more, k));
    }
    if names_deprecation(more) {
        let k = choose|k: int| names_deprecation_at(more, k);
        assert(k < params.len()) by {
            if k == params.len() {
                assert(more[k].len() == 0);
            }
        }
        assert(params[k] == more[k]);
        assert forall|j: int| 0 <= j < k implies is_parameter(#[trigger] params[j]) by {
            assert(more[j] == params[j]);
        }
        assert(names_deprecation_at(params, k));
    }
}

/// A target between angle brackets.
pub open spec fn bracketed(target: Seq<char>) -> Seq<char> {
    seq!['<'] + target + seq!['>']
}

/// The text of a `Link` field value: the target between angle brackets, then
/// the parameters, each after a `;`.
pub open spec fn link_text(target: Seq<char>, params: Seq<Seq<char>>) -> Seq<char> {
    join(seq![bracketed(target)] + params, ';')
}

/// A target that comes back out of angle brackets as it went in: it neither
/// starts with `<` nor ends with `>`, and holds no `;`.
pub open spec fn is_plain_target(target: Seq<char>) -> bool {
    &&& !target.contains(';')
    &&& target.len() > 0 ==> target.first() != '<' && target.last() != '>'
}

/// The segments of a link text are the bracketed target and the parameters
/// as they were written, each without the white space around it.
pub proof fn lemma_segments_of_link_text(target: Seq<char>, params: Seq<Seq<char>>)
    requires
        !target.contains(';'),
        forall|i: int| 0 <= i < params.len() ==> !(#[trigger] params[i]).contains(';'),
    ensures
        segments(link_text(target, params)).len() == params.len() + 1,
        segments(link_text(target, params)).first() == bracketed(target),
        segments(link_text(target, params)).skip(1) == trim_each(params),
{
    let head = bracketed(target);
    let pieces = seq![head] + params;
    assert forall|i: int| 0 <= i < pieces.len() implies !(#[trigger] pieces[i]).contains(';') by {
        if i == 0 {
            if head.contains(';') {
                let j = choose|j: int| 0 <= j < head.len() && head[j] == ';';
                assert(0 < j < head.len() - 1);
                assert(target[j - 1] == ';');
                assert(target.contains(';'));
            }
        } else {
            assert(pieces[i] == params[i - 1]);
        }
    }
    lemma_split_join(pieces, ';');
    lemma_trim_identity(head);
    assert(segments(link_text(target, params)).first() == trim(pieces[0]));
    assert(segments(link_text(target, params)).skip(1) =~= trim_each(params)) by {
        assert forall|i: int| 0 <= i < params.len() implies segments(
            link_text(target, params),
        ).skip(1)[i] == trim_each(params)[i] by {
            assert(pieces[i + 1] == params[i]);
        }
    }
}

/// What stands between the angle brackets of a bracketed plain target is the
/// target.
pub proof fn lemma_bracket_content(target: Seq<char>)
    requires
        target.len() > 0 ==> target.first() != '<' && target.last() != '>',
    ensures
        is_bracketed(bracketed(target)),
        bracket_content(bracketed(target)) == target,
{
    let head = bracketed(target);
    let open = CharClass::Only('<').members();
    let close = CharClass::Only('>').members();
    assert(head.first() == '<' && head.last() == '>');
    assert(target.len() > 0 ==> head[1] == target.first());
    lemma_strip_leading(head, open, 1);
    let tail = head.skip(1);
    assert(tail =~= target + seq!['>']);
    assert(target.len() > 0 ==> tail[tail.len() - 2] == target.last());
    lemma_strip_trailing(tail, close, tail.len() - 1);
    assert(tail.take(tail.len() - 1) =~= target);
}

/// Reading a link text gives back the target it was written with exactly
/// where its parameters name the relation `deprecation`.
pub proof fn lemma_link_target_of_link_text(target: Seq<char>, params: Seq<Seq<char>>)
    requires
        is_plain_target(target),
        forall|i: int| 0 <= i < params.len() ==> !(#[trigger] params[i]).contains(';'),
    ensures
        link_target(link_text(target, params)) == if names_deprecation(trim_each(params)) {
            Some(target)
        } else {
            None
        },
{
    lemma_segments_of_link_text(target, params);
    lemma_bracket_content(target);
}

/// Wherever `rel="deprecation"` stands among the parameters of a link text,
/// reading the text gives the target: a link text with the relation and one
/// with the same parameters in another order give the same target.
pub proof fn lemma_link_target_in_any_order(
    target: Seq<char>,
    params: Seq<Seq<char>>,
    reordered: Seq<Seq<char>>,
)
    requires
        is_plain_target(target),
        forall|i: int| 0 <= i < params.len() ==> !(#[trigger] params[i]).contains(';'),
        forall|i: int| 0 <= i < params.len() ==> is_parameter(#[trigger] trim_each(params)[i]),
        trim_each(params).contains(rel_deprecation()),
        params.to_multiset() == reordered.to_multiset(),
    ensures
        link_target(link_text(target, params)) == Some(target),
        link_target(link_text(target, reordered)) == Some(target),
{
    broadcast use vstd::seq_lib::group_to_multiset_ensures;

    assert forall|i: int| 0 <= i < reordered.len() implies !(#[trigger] reordered[i]).contains(
        ';',
    ) && is_parameter(trim_each(reordered)[i]) by {
        assert(reordered.contains(reordered[i]));
        assert(params.to_multiset().count(reordered[i]) > 0);
        assert(params.contains(reordered[i]));
        let k = choose|k: int| 0 <= k < params.len() && params[k] == reordered[i];
        assert(is_parameter(trim_each(params)[k]));
    }
    let k = choose|k: int|
        0 <= k < trim_each(params).len() && trim_each(params)[k] == rel_deprecation();
    assert(reordered.contains(params[k])) by {
        assert(params.contains(params[k]));
        assert(reordered.to_multiset().count(params[k]) > 0);
    }
    let r = choose|r: int| 0 <= r < reordered.len() && reordered[r] == params[k];
    assert(trim_each(reordered)[r] == rel_deprecation());
    assert(trim_each(reordered).contains(rel_deprecation()));
    lemma_names_deprecation_among_parameters(trim_each(params));
    lemma_names_deprecation_among_parameters(trim_each(reordered));
    lemma_link_target_of_link_text(target, params);
    lemma_link_target_of_link_text(target, reordered);
}

} // verus!
