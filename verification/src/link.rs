//! The `Link` header field: finding the target of the link whose relation is
//! `deprecation`.
//!
//! One field value holds one link: the target between angle brackets, then
//! parameters, each after a `;`:
//!
//! ```text
//! <https://example.com/deprecation>; rel="deprecation"; type="text/html"
//! ```

use vstd::prelude::*;
use crate::text::{
    chars_of, find_char, first_index_of, lemma_first_index_of, lemma_first_index_of_absent,
    lemma_split_unfold, reads, skip_leading, skip_trailing, split, strip_leading, strip_trailing,
    string_of, text_of, texts_of, trim, trim_bounds, trim_each, CharClass,
};

verus! {

/// The segments of a field value: its pieces between the `;`, each without
/// the white space around it.
pub open spec fn segments(input: Seq<char>) -> Seq<Seq<char>> {
    trim_each(split(input, ';'))
}

/// A segment that starts with `<` and ends with `>`.
pub open spec fn is_bracketed(segment: Seq<char>) -> bool {
    segment.len() >= 2 && segment.first() == '<' && segment.last() == '>'
}

/// What stands between the angle brackets of a segment: the segment without
/// every `<` that it starts with, and then without every `>` that it ends
/// with.
pub open spec fn bracket_content(segment: Seq<char>) -> Seq<char> {
    strip_trailing(
        strip_leading(segment, CharClass::Only('<').members()),
        CharClass::Only('>').members(),
    )
}

/// A segment of the form `key=value`: exactly one `=`, with something before
/// it and something after it.
pub open spec fn is_parameter(segment: Seq<char>) -> bool {
    let at = first_index_of(segment, '=');
    &&& 0 < at < segment.len() - 1
    &&& !segment.skip(at + 1).contains('=')
}

/// The parameter that gives a link the relation `deprecation`: the key
/// `rel` with the value `"deprecation"`, quotes included.
pub open spec fn rel_deprecation() -> Seq<char> {
    "rel=\"deprecation\""@
}

/// The parameter at position `k` names the relation `deprecation`, and all
/// before it are parameters.
pub open spec fn names_deprecation_at(params: Seq<Seq<char>>, k: int) -> bool {
    &&& 0 <= k < params.len()
    &&& params[k] == rel_deprecation()
    &&& forall|j: int| 0 <= j < k ==> is_parameter(#[trigger] params[j])
}

/// Reading the parameters in order finds the relation `deprecation` before
/// it meets a segment that is no parameter.
pub open spec fn names_deprecation(params: Seq<Seq<char>>) -> bool {
    exists|k: int| names_deprecation_at(params, k)
}

/// The target of the link, where the field value `input` holds a link with
/// the relation `deprecation`: its first segment is a target in angle
/// brackets and its other segments name the relation.
pub open spec fn link_target(input: Seq<char>) -> Option<Seq<char>> {
    let head = segments(input).first();
    if is_bracketed(head) && names_deprecation(segments(input).skip(1)) {
        Some(bracket_content(head))
    } else {
        None
    }
}

/// The target that a header value gives; a value that is no text gives none.
pub open spec fn value_target(value: Option<Seq<char>>) -> Option<Seq<char>> {
    match value {
        Some(text) => link_target(text),
        None => None,
    }
}

/// The target of the first of `values` that gives one.
pub open spec fn first_target(values: Seq<Option<Seq<char>>>) -> Option<Seq<char>>
    decreases values.len(),
{
    if values.len() == 0 {
        None
    } else if value_target(values.first()) is Some {
        value_target(values.first())
    } else {
        first_target(values.drop_first())
    }
}

/// The segments that follow the separator at position `sep` of `input`; none
/// where `sep` is the length of `input`, which stands for no separator.
pub open spec fn segments_after(input: Seq<char>, sep: int) -> Seq<Seq<char>> {
    if sep < input.len() {
        segments(input.skip(sep + 1))
    } else {
        Seq::empty()
    }
}

/// The first segment ends at the first `;`, and the other segments are those
/// that follow that `;`.
pub proof fn lemma_segments_unfold(input: Seq<char>)
    ensures
        segments(input).len() >= 1,
        segments(input).first() == trim(input.take(first_index_of(input, ';'))),
        segments(input).skip(1) == segments_after(input, first_index_of(input, ';')),
{
    lemma_split_unfold(input, ';');
    lemma_first_index_of(input, ';');
    let at = first_index_of(input, ';');
    let pieces = split(input, ';');
    assert(pieces.first() == pieces[0]);
    if at < input.len() {
        assert(segments(input).skip(1) =~= segments(input.skip(at + 1))) by {
            assert forall|i: int| 0 <= i < pieces.len() - 1 implies segments(input).skip(1)[i]
                == segments(input.skip(at + 1))[i] by {
                assert(pieces.skip(1)[i] == pieces[i + 1]);
            }
        }
    } else {
        assert(segments(input).skip(1) =~= Seq::<Seq<char>>::empty());
    }
}

/// The parameters name the relation exactly if the first of them does, or is
/// a parameter that is followed by others that name it.
pub proof fn lemma_names_deprecation_unfold(params: Seq<Seq<char>>)
    ensures
        names_deprecation(params) <==> params.len() > 0 && (params[0] == rel_deprecation() || (
            is_parameter(params[0]) && names_deprecation(params.skip(1)))),
{
    if names_deprecation(params) {
        let k = choose|k: int| names_deprecation_at(params, k);
        if k > 0 {
            assert(is_parameter(params[0]));
            assert forall|j: int| 0 <= j < k - 1 implies is_parameter(
                #[trigger] params.skip(1)[j],
            ) by {
                assert(is_parameter(params[j + 1]));
            }
            assert(names_deprecation_at(params.skip(1), k - 1));
        }
    }
    if params.len() > 0 {
        if params[0] == rel_deprecation() {
            assert(names_deprecation_at(params, 0));
        } else if is_parameter(params[0]) && names_deprecation(params.skip(1)) {
            let k = choose|k: int| names_deprecation_at(params.skip(1), k);
            assert forall|j: int| 0 <= j < k + 1 implies is_parameter(#[trigger] params[j]) by {
                if j > 0 {
                    assert(is_parameter(params.skip(1)[j - 1]));
                }
            }
            assert(names_deprecation_at(params, k + 1));
        }
    }
}

/// Tells whether `text[start..end]` is a parameter.
fn is_parameter_at(text: &[char], start: usize, end: usize) -> (b: bool)
    requires
        start <= end <= text@.len(),
    ensures
        b == is_parameter(text@.subrange(start as int, end as int)),
{
    let ghost segment = text@.subrange(start as int, end as int);
    let at = find_char(text, start, end, '=');
    if at == start || end - at < 2 {
        return false;
    }
    let next = find_char(text, at + 1, end, '=');
    proof {
        assert(segment.skip(at - start + 1) =~= text@.subrange(at + 1, end as int));
        lemma_first_index_of_absent(segment.skip(at - start + 1), '=');
    }
    next == end
}

/// Reads one `Link` field value and returns the target of the link, where
/// the link has the relation `deprecation`.
///
/// The target is returned where the first segment of `input` is wrapped in
/// angle brackets and a later segment is `rel="deprecation"`, with nothing
/// but `key=value` parameters between the two. What follows that segment is
/// not read.
pub fn parse_deprecation_link(input: &str) -> (target: Option<&str>)
    ensures
        text_of(target) == link_target(input@),
{
    let chars = chars_of(input);
    let text = chars.as_slice();
    let len = text.len();
    let head_end = find_char(text, 0, len, ';');
    let head = trim_bounds(text, 0, head_end);
    proof {
        assert(text@.subrange(0, len as int) =~= input@);
        assert(text@.subrange(0, head_end as int) =~= input@.take(head_end as int));
        lemma_segments_unfold(input@);
    }
    if head.1 - head.0 < 2 || text[head.0] != '<' || text[head.1 - 1] != '>' {
        return None;
    }
    let from = skip_leading(text, head.0, head.1, CharClass::Only('<'));
    let to = skip_trailing(text, from, head.1, CharClass::Only('>'));
    let ghost target = text@.subrange(from as int, to as int);
    let mut sep = head_end;
    while sep < len
        invariant
            text@ == input@,
            len == text@.len(),
            sep <= len,
            from <= to <= len,
            target == text@.subrange(from as int, to as int),
            link_target(input@) == if names_deprecation(segments_after(input@, sep as int)) {
                Some(target)
            } else {
                None
            },
        decreases len - sep,
    {
        let start = sep + 1;
        let end = find_char(text, start, len, ';');
        let param = trim_bounds(text, start, end);
        proof {
            let rest = input@.skip(start as int);
            assert(text@.subrange(start as int, len as int) =~= rest);
            assert(text@.subrange(start as int, end as int) =~= rest.take(end - start));
            lemma_segments_unfold(rest);
            if end < len {
                assert(rest.skip(end - start + 1) =~= input@.skip(end + 1));
            }
            assert(segments(rest).skip(1) == segments_after(input@, end as int));
            lemma_names_deprecation_unfold(segments(rest));
        }
        if reads(text, param.0, param.1, "rel=\"deprecation\"") {
            return Some(input.substring_char(from, to));
        }
        if !is_parameter_at(text, param.0, param.1) {
            return None;
        }
        sep = end;
    }
    proof {
        lemma_names_deprecation_unfold(segments_after(input@, sep as int));
    }
    None
}

/// Returns the target that the first of `values` with a link of the relation
/// `deprecation` gives. A value that is `None` stands for a field value that
/// is no text, and gives none.
pub fn find_deprecation_link(values: &[Option<&str>]) -> (target: Option<String>)
    ensures
        string_of(target) == first_target(texts_of(values@)),
{
    let ghost texts = texts_of(values@);
    let mut i: usize = 0;
    assert(texts.skip(0) =~= texts);
    while i < values.len()
        invariant
            texts == texts_of(values@),
            i <= values@.len(),
            first_target(texts) == first_target(texts.skip(i as int)),
        decreases values@.len() - i,
    {
        proof {
            assert(texts.skip(i as int).first() == text_of(values@[i as int]));
            assert(texts.skip(i as int).drop_first() =~= texts.skip(i + 1));
        }
        if let Some(text) = values[i] {
            if let Some(target) = parse_deprecation_link(text) {
                return Some(target.to_owned());
            }
        }
        i += 1;
    }
    None
}

} // verus!
