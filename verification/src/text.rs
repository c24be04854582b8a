//! Character sequences: classes of characters, stripping them from the ends
//! of a sequence, and splitting a sequence at a separator.
//!
//! The specifications speak of `Seq<char>`, the view of a `str`. The
//! executable functions work on the characters of a text held in a slice and
//! describe a piece of it by the positions where it starts and ends.

use vstd::prelude::*;

verus! {

/// The characters of a text that may be missing.
pub open spec fn text_of(text: Option<&str>) -> Option<Seq<char>> {
    match text {
        Some(text) => Some(text@),
        None => None,
    }
}

/// The characters of an owned text that may be missing.
pub open spec fn string_of(text: Option<String>) -> Option<Seq<char>> {
    match text {
        Some(text) => Some(text@),
        None => None,
    }
}

/// The characters of each text of a list, `None` where there is no text.
pub open spec fn texts_of(texts: Seq<Option<&str>>) -> Seq<Option<Seq<char>>> {
    texts.map_values(|text: Option<&str>| text_of(text))
}

/// The code points that carry the Unicode property `White_Space`.
pub open spec fn is_white_space(c: char) -> bool {
    let code = c as u32;
    ||| 0x09 <= code <= 0x0D
    ||| code == 0x20
    ||| code == 0x85
    ||| code == 0xA0
    ||| code == 0x1680
    ||| 0x2000 <= code <= 0x200A
    ||| code == 0x2028
    ||| code == 0x2029
    ||| code == 0x202F
    ||| code == 0x205F
    ||| code == 0x3000
}

/// Tells whether `c` is white space.
pub fn is_whitespace(c: char) -> (b: bool)
    ensures
        b == is_white_space(c),
{
    let code: u32 = c as u32;
    (0x09 <= code && code <= 0x0D) || code == 0x20 || code == 0x85 || code == 0xA0 || code
        == 0x1680 || (0x2000 <= code && code <= 0x200A) || code == 0x2028 || code == 0x2029
        || code == 0x202F || code == 0x205F || code == 0x3000
}

/// A set of characters that can be stripped from the ends of a text.
#[derive(Clone, Copy, Debug)]
pub enum CharClass {
    /// Every white space character.
    WhiteSpace,
    /// The one character given.
    Only(char),
}

impl CharClass {
    /// The characters of the class.
    pub open spec fn members(self) -> Set<char> {
        match self {
            CharClass::WhiteSpace => Set::new(|c: char| is_white_space(c)),
            CharClass::Only(only) => Set::new(|c: char| c == only),
        }
    }

    /// Tells whether `c` belongs to the class.
    pub fn contains(&self, c: char) -> (b: bool)
        ensures
            b == self.members().contains(c),
    {
        match self {
            CharClass::WhiteSpace => is_whitespace(c),
            CharClass::Only(only) => c == *only,
        }
    }
}

/// `s` without the characters of `class` that it starts with.
pub open spec fn strip_leading(s: Seq<char>, class: Set<char>) -> Seq<char>
    decreases s.len(),
{
    if s.len() > 0 && class.contains(s.first()) {
        strip_leading(s.drop_first(), class)
    } else {
        s
    }
}

/// `s` without the characters of `class` that it ends with.
pub open spec fn strip_trailing(s: Seq<char>, class: Set<char>) -> Seq<char>
    decreases s.len(),
{
    if s.len() > 0 && class.contains(s.last()) {
        strip_trailing(s.drop_last(), class)
    } else {
        s
    }
}

/// `s` without the white space at its two ends.
pub open spec fn trim(s: Seq<char>) -> Seq<char> {
    strip_trailing(
        strip_leading(s, CharClass::WhiteSpace.members()),
        CharClass::WhiteSpace.members(),
    )
}

/// The position of the first `c` in `s`, or `s.len()` where `s` holds none.
pub open spec fn first_index_of(s: Seq<char>, c: char) -> int
    decreases s.len(),
{
    if s.len() == 0 || s.first() == c {
        0
    } else {
        1 + first_index_of(s.drop_first(), c)
    }
}

/// The pieces of `s` between the occurrences of `sep`, in order. There is one
/// piece more than there are separators, so at least one; a piece is empty
/// where two separators meet and where `s` starts or ends with one.
pub open spec fn split(s: Seq<char>, sep: char) -> Seq<Seq<char>>
    decreases s.len(),
{
    let at = first_index_of(s, sep);
    if 0 <= at < s.len() {
        seq![s.take(at)] + split(s.skip(at + 1), sep)
    } else {
        seq![s]
    }
}

/// Each of `pieces` without the white space at its two ends.
pub open spec fn trim_each(pieces: Seq<Seq<char>>) -> Seq<Seq<char>> {
    pieces.map_values(|piece: Seq<char>| trim(piece))
}

/// The pieces in order, with `sep` between one and the next.
pub open spec fn join(pieces: Seq<Seq<char>>, sep: char) -> Seq<char>
    decreases pieces.len(),
{
    if pieces.len() == 0 {
        Seq::empty()
    } else if pieces.len() == 1 {
        pieces.first()
    } else {
        pieces.first() + seq![sep] + join(pieces.drop_first(), sep)
    }
}

/// `first_index_of` is a position of `s` or its length, nothing before it is
/// `c`, and where it is a position, `c` stands there.
pub proof fn lemma_first_index_of(s: Seq<char>, c: char)
    ensures
        0 <= first_index_of(s, c) <= s.len(),
        forall|j: int| 0 <= j < first_index_of(s, c) ==> s[j] != c,
        first_index_of(s, c) < s.len() ==> s[first_index_of(s, c)] == c,
    decreases s.len(),
{
    if s.len() == 0 || s.first() == c {
    } else {
        let rest = s.drop_first();
        lemma_first_index_of(rest, c);
        assert forall|j: int| 0 <= j < first_index_of(s, c) implies s[j] != c by {
            if j > 0 {
                assert(s[j] == rest[j - 1]);
            }
        }
        assert(first_index_of(s, c) < s.len() ==> s[first_index_of(s, c)] == rest[first_index_of(
            rest,
            c,
        )]);
    }
}

/// The position that `lemma_first_index_of` describes is the only one.
pub proof fn lemma_first_index_of_unique(s: Seq<char>, c: char, at: int)
    requires
        0 <= at <= s.len(),
        forall|j: int| 0 <= j < at ==> s[j] != c,
        at < s.len() ==> s[at] == c,
    ensures
        first_index_of(s, c) == at,
{
    lemma_first_index_of(s, c);
    let found = first_index_of(s, c);
    if found < at {
        assert(s[found] != c);
    } else if at < found {
        assert(s[at] != c);
    }
}

/// `first_index_of` is the length exactly where `s` holds no `c`.
pub proof fn lemma_first_index_of_absent(s: Seq<char>, c: char)
    ensures
        first_index_of(s, c) == s.len() <==> !s.contains(c),
{
    lemma_first_index_of(s, c);
    if first_index_of(s, c) < s.len() {
        assert(s.contains(s[first_index_of(s, c)]));
    }
}

/// Stripping at the front leaves what follows the first character outside
/// the class.
pub proof fn lemma_strip_leading(s: Seq<char>, class: Set<char>, kept: int)
    requires
        0 <= kept <= s.len(),
        forall|j: int| 0 <= j < kept ==> class.contains(#[trigger] s[j]),
        kept < s.len() ==> !class.contains(s[kept]),
    ensures
        strip_leading(s, class) == s.skip(kept),
    decreases s.len(),
{
    if kept == 0 {
        assert(s.skip(0) =~= s);
    } else {
        let rest = s.drop_first();
        assert(class.contains(s[0]));
        assert forall|j: int| 0 <= j < kept - 1 implies class.contains(#[trigger] rest[j]) by {
            assert(rest[j] == s[j + 1]);
        }
        lemma_strip_leading(rest, class, kept - 1);
        assert(rest.skip(kept - 1) =~= s.skip(kept));
    }
}

/// Stripping at the back leaves what precedes the last character outside the
/// class.
pub proof fn lemma_strip_trailing(s: Seq<char>, class: Set<char>, kept: int)
    requires
        0 <= kept <= s.len(),
        forall|j: int| kept <= j < s.len() ==> class.contains(#[trigger] s[j]),
        0 < kept ==> !class.contains(s[kept - 1]),
    ensures
        strip_trailing(s, class) == s.take(kept),
    decreases s.len(),
{
    if kept == s.len() {
        assert(s.take(kept) =~= s);
    } else {
        let rest = s.drop_last();
        assert(class.contains(s[s.len() - 1]));
        assert forall|j: int| kept <= j < rest.len() implies class.contains(#[trigger] rest[j]) by {
            assert(rest[j] == s[j]);
        }
        lemma_strip_trailing(rest, class, kept);
        assert(rest.take(kept) =~= s.take(kept));
    }
}

/// The first piece of a split ends at the first separator, and the pieces
/// after it are those of what follows that separator.
pub proof fn lemma_split_unfold(s: Seq<char>, sep: char)
    ensures
        split(s, sep).len() >= 1,
        split(s, sep).first() == s.take(first_index_of(s, sep)),
        split(s, sep).skip(1) == if first_index_of(s, sep) < s.len() {
            split(s.skip(first_index_of(s, sep) + 1), sep)
        } else {
            Seq::<Seq<char>>::empty()
        },
{
    lemma_first_index_of(s, sep);
    let at = first_index_of(s, sep);
    if at < s.len() {
        let rest = split(s.skip(at + 1), sep);
        assert((seq![s.take(at)] + rest).skip(1) =~= rest);
    } else {
        assert(s.take(at) =~= s);
        assert(seq![s].skip(1) =~= Seq::<Seq<char>>::empty());
    }
}

/// Splitting undoes joining: pieces that hold no separator come out of the
/// joined text as they went in.
pub proof fn lemma_split_join(pieces: Seq<Seq<char>>, sep: char)
    requires
        pieces.len() > 0,
        forall|i: int| 0 <= i < pieces.len() ==> !(#[trigger] pieces[i]).contains(sep),
    ensures
        split(join(pieces, sep), sep) == pieces,
    decreases pieces.len(),
{
    let first = pieces.first();
    assert(!pieces[0].contains(sep));
    if pieces.len() == 1 {
        lemma_first_index_of_absent(first, sep);
        assert(seq![first] =~= pieces);
    } else {
        let rest = pieces.drop_first();
        let text = join(pieces, sep);
        assert forall|i: int| 0 <= i < rest.len() implies !(#[trigger] rest[i]).contains(sep) by {
            assert(rest[i] == pieces[i + 1]);
        }
        lemma_split_join(rest, sep);
        assert forall|j: int| 0 <= j < first.len() implies text[j] != sep by {
            assert(first.contains(first[j]));
        }
        lemma_first_index_of_unique(text, sep, first.len() as int);
        assert(text.take(first.len() as int) =~= first);
        assert(text.skip(first.len() as int + 1) =~= join(rest, sep));
        assert(seq![first] + rest =~= pieces);
    }
}

/// A separator at the end of a text adds one empty piece after the others.
pub proof fn lemma_split_trailing_separator(s: Seq<char>, sep: char)
    ensures
        split(s + seq![sep], sep) == split(s, sep).push(Seq::empty()),
    decreases s.len(),
{
    let longer = s + seq![sep];
    let at = first_index_of(s, sep);
    lemma_first_index_of(s, sep);
    lemma_first_index_of_unique(longer, sep, at);
    assert(longer.take(at) =~= s.take(at));
    if at < s.len() {
        let rest = s.skip(at + 1);
        assert(longer.skip(at + 1) =~= rest + seq![sep]);
        lemma_split_trailing_separator(rest, sep);
        assert(seq![s.take(at)] + split(rest, sep).push(Seq::empty()) =~= (seq![s.take(at)]
            + split(rest, sep)).push(Seq::empty()));
    } else {
        assert(s.take(at) =~= s);
        assert(longer.skip(at + 1) =~= Seq::<char>::empty());
        assert(first_index_of(Seq::<char>::empty(), sep) == 0);
        assert(split(Seq::<char>::empty(), sep) =~= seq![Seq::<char>::empty()]);
        assert(seq![s] + seq![Seq::<char>::empty()] =~= seq![s].push(Seq::empty()));
    }
}

/// A text that neither starts nor ends with white space is its own trim.
pub proof fn lemma_trim_identity(s: Seq<char>)
    requires
        s.len() > 0 ==> !is_white_space(s.first()) && !is_white_space(s.last()),
    ensures
        trim(s) == s,
{
    lemma_strip_leading(s, CharClass::WhiteSpace.members(), 0);
    assert(s.skip(0) =~= s);
    lemma_strip_trailing(s, CharClass::WhiteSpace.members(), s.len() as int);
    assert(s.take(s.len() as int) =~= s);
}

/// The characters of `text`, in order.
pub fn chars_of(text: &str) -> (chars: Vec<char>)
    ensures
        chars@ == text@,
{
    broadcast use vstd::string::group_string_axioms;

    let mut chars: Vec<char> = Vec::new();
    for c in it: text.chars()
        invariant
            it.seq() == text@,
            chars@ == text@.take(it.index()),
    {
        chars.push(c);
    }
    chars
}

/// The position of the first `c` in `text[start..end]`, or `end` where it
/// holds none.
pub(crate) fn find_char(text: &[char], start: usize, end: usize, c: char) -> (at: usize)
    requires
        start <= end <= text@.len(),
    ensures
        start <= at <= end,
        at == start + first_index_of(text@.subrange(start as int, end as int), c),
{
    let mut at = start;
    while at < end && text[at] != c
        invariant
            start <= at <= end <= text@.len(),
            forall|j: int| start <= j < at ==> text@[j] != c,
        decreases end - at,
    {
        at += 1;
    }
    proof {
        lemma_first_index_of_unique(text@.subrange(start as int, end as int), c, at - start);
    }
    at
}

/// Where `text[start..end]` begins once the characters of `class` at its
/// front are stripped.
pub(crate) fn skip_leading(
    text: &[char],
    start: usize,
    end: usize,
    class: CharClass,
) -> (kept: usize)
    requires
        start <= end <= text@.len(),
    ensures
        start <= kept <= end,
        text@.subrange(kept as int, end as int) == strip_leading(
            text@.subrange(start as int, end as int),
            class.members(),
        ),
{
    let mut kept = start;
    while kept < end && class.contains(text[kept])
        invariant
            start <= kept <= end <= text@.len(),
            forall|j: int| start <= j < kept ==> class.members().contains(#[trigger] text@[j]),
        decreases end - kept,
    {
        kept += 1;
    }
    proof {
        let piece = text@.subrange(start as int, end as int);
        lemma_strip_leading(piece, class.members(), kept - start);
        assert(piece.skip(kept - start) =~= text@.subrange(kept as int, end as int));
    }
    kept
}

/// Where `text[start..end]` ends once the characters of `class` at its back
/// are stripped.
pub(crate) fn skip_trailing(
    text: &[char],
    start: usize,
    end: usize,
    class: CharClass,
) -> (kept: usize)
    requires
        start <= end <= text@.len(),
    ensures
        start <= kept <= end,
        text@.subrange(start as int, kept as int) == strip_trailing(
            text@.subrange(start as int, end as int),
            class.members(),
        ),
{
    let mut kept = end;
    while start < kept && class.contains(text[kept - 1])
        invariant
            start <= kept <= end <= text@.len(),
            forall|j: int| kept <= j < end ==> class.members().contains(#[trigger] text@[j]),
        decreases kept - start,
    {
        kept -= 1;
    }
    proof {
        let piece = text@.subrange(start as int, end as int);
        lemma_strip_trailing(piece, class.members(), kept - start);
        assert(piece.take(kept - start) =~= text@.subrange(start as int, kept as int));
    }
    kept
}

/// The bounds of `text[start..end]` without the white space at its two ends.
pub(crate) fn trim_bounds(text: &[char], start: usize, end: usize) -> (kept: (usize, usize))
    requires
        start <= end <= text@.len(),
    ensures
        start <= kept.0 <= kept.1 <= end,
        text@.subrange(kept.0 as int, kept.1 as int) == trim(
            text@.subrange(start as int, end as int),
        ),
{
    let from = skip_leading(text, start, end, CharClass::WhiteSpace);
    let to = skip_trailing(text, from, end, CharClass::WhiteSpace);
    (from, to)
}

/// Tells whether `text[start..end]` reads `literal`.
pub(crate) fn reads(text: &[char], start: usize, end: usize, literal: &str) -> (b: bool)
    requires
        start <= end <= text@.len(),
    ensures
        b == (text@.subrange(start as int, end as int) == literal@),
{
    let wanted = chars_of(literal);
    if wanted.len() != end - start {
        return false;
    }
    let mut i: usize = 0;
    while i < wanted.len()
        invariant
            start <= end <= text@.len(),
            wanted@.len() == end - start,
            wanted@ == literal@,
            0 <= i <= wanted@.len(),
            forall|j: int| 0 <= j < i ==> text@[start + j] == wanted@[j],
        decreases wanted@.len() - i,
    {
        if text[start + i] != wanted[i] {
            assert(text@.subrange(start as int, end as int)[i as int] != literal@[i as int]);
            return false;
        }
        i += 1;
    }
    assert(text@.subrange(start as int, end as int) =~= literal@);
    true
}

} // verus!
