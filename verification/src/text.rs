//! Text: decoding bytes, and searching, cutting and rewriting strings.

use vstd::prelude::*;
use vstd::string::*;
use vstd::utf8::{decode_utf8, valid_utf8};

verus! {

/// The text that `String::from_utf8_lossy` makes of `bytes`.
pub uninterp spec fn lossy_utf8(bytes: Seq<u8>) -> Seq<char>;

/// `String::from_utf8`: the bytes as text, if they are UTF-8. What is claimed:
/// there is a text exactly where the bytes are valid UTF-8, and it is the text
/// that they decode to.
#[verifier::external_body]
pub(crate) fn string_from_utf8(bytes: Vec<u8>) -> (text: Option<String>)
    ensures
        text is Some <==> valid_utf8(bytes@),
        text is Some ==> text->0@ == decode_utf8(bytes@),
{
    String::from_utf8(bytes).ok()
}

/// `String::from_utf8_lossy`: the bytes as text, with U+FFFD in place of what
/// is not UTF-8. What is claimed: the text depends on the bytes alone, and
/// where they are valid UTF-8 it is the text that they decode to. How many
/// replacement characters an invalid run becomes is left unsaid.
#[verifier::external_body]
pub(crate) fn lossy_text(bytes: &[u8]) -> (text: String)
    ensures
        text@ == lossy_utf8(bytes@),
        valid_utf8(bytes@) ==> text@ == decode_utf8(bytes@),
{
    String::from_utf8_lossy(bytes).into_owned()
}

/// The characters with the Unicode property White_Space.
pub open spec fn white_space(c: char) -> bool {
    ||| 0x09 <= c as u32 <= 0x0d
    ||| c as u32 == 0x20
    ||| c as u32 == 0x85
    ||| c as u32 == 0xa0
    ||| c as u32 == 0x1680
    ||| 0x2000 <= c as u32 <= 0x200a
    ||| c as u32 == 0x2028
    ||| c as u32 == 0x2029
    ||| c as u32 == 0x202f
    ||| c as u32 == 0x205f
    ||| c as u32 == 0x3000
}

/// `char::is_whitespace`: whether a character has the Unicode property
/// White_Space. What is claimed: the characters with the property are those of
/// [`white_space`].
#[verifier::external_body]
fn is_white_space(c: char) -> (yes: bool)
    ensures
        yes == white_space(c),
{
    c.is_whitespace()
}

/// The text that `{:?}` makes of `text`.
pub uninterp spec fn debug_text(text: Seq<char>) -> Seq<char>;

/// Formatting of a string with `{:?}`: the string in double quotes, with
/// escapes. What is claimed: what is written depends on the string alone. Which
/// characters are escaped is left unsaid.
#[verifier::external_body]
pub(crate) fn quoted(text: &str) -> (out: String)
    ensures
        out@ == debug_text(text@),
{
    format!("{text:?}")
}

/// The characters of `text`.
pub fn chars_of(text: &str) -> (chars: Vec<char>)
    ensures
        chars@ == text@,
{
    let mut chars: Vec<char> = Vec::new();
    for c in it: text.chars()
        invariant
            it.seq() == text@,
            chars@ == text@.take(it.index() as int),
    {
        chars.push(c);
        assert(text@.take(it.index() as int).push(c) =~= text@.take(it.index() + 1));
    }
    assert(text@.take(text@.len() as int) =~= text@);
    chars
}

/// `needle` stands in `text` at index `at`.
pub open spec fn occurs_at(text: Seq<char>, needle: Seq<char>, at: int) -> bool {
    0 <= at && at + needle.len() <= text.len() && text.subrange(at, at + needle.len()) == needle
}

/// `needle` stands somewhere in `text`.
pub open spec fn contains(text: Seq<char>, needle: Seq<char>) -> bool {
    exists|at: int| occurs_at(text, needle, at)
}

/// `at` is the first index at which `needle` stands in `text`.
pub open spec fn first_occurrence(text: Seq<char>, needle: Seq<char>, at: int) -> bool {
    &&& occurs_at(text, needle, at)
    &&& forall|earlier: int| occurs_at(text, needle, earlier) ==> at <= earlier
}

/// The first index at which `needle` stands in `text`, or the length of `text`
/// if it stands nowhere.
pub open spec fn index_of_text(text: Seq<char>, needle: Seq<char>) -> nat
    decreases text.len(),
{
    if text.len() == 0 || occurs_at(text, needle, 0) {
        0
    } else {
        1 + index_of_text(text.drop_first(), needle)
    }
}

/// The index of the first `c` in `text`, or the length of `text` if there is
/// none.
pub open spec fn index_of_char(text: Seq<char>, c: char) -> nat
    decreases text.len(),
{
    if text.len() == 0 || text[0] == c {
        0
    } else {
        1 + index_of_char(text.drop_first(), c)
    }
}

/// `text` with every `from` in it, read from the left, become `to`.
pub open spec fn replaced(text: Seq<char>, from: Seq<char>, to: Seq<char>) -> Seq<char>
    decreases text.len(),
{
    if text.len() == 0 || from.len() == 0 {
        text
    } else if occurs_at(text, from, 0) {
        to + replaced(text.skip(from.len() as int), from, to)
    } else {
        seq![text[0]] + replaced(text.drop_first(), from, to)
    }
}

/// The pieces between the `separator`s in `text`; one more than there are
/// separators.
pub open spec fn pieces(text: Seq<char>, separator: char) -> Seq<Seq<char>>
    decreases text.len(),
{
    let cut = index_of_char(text, separator) as int;
    if cut < text.len() {
        seq![text.take(cut)] + pieces(text.skip(cut + 1), separator)
    } else {
        seq![text]
    }
}

/// The first occurrence is the one that `index_of_text` gives.
pub proof fn lemma_first_occurrence(text: Seq<char>, needle: Seq<char>, at: int)
    requires
        first_occurrence(text, needle, at),
    ensures
        index_of_text(text, needle) == at,
    decreases text.len(),
{
    if at > 0 {
        let rest = text.drop_first();
        assert(!occurs_at(text, needle, 0));
        assert(rest.subrange(at - 1, at - 1 + needle.len()) =~= text.subrange(
            at,
            at + needle.len(),
        ));
        assert forall|earlier: int| occurs_at(rest, needle, earlier) implies at - 1
            <= earlier by {
            assert(text.subrange(earlier + 1, earlier + 1 + needle.len()) =~= rest.subrange(
                earlier,
                earlier + needle.len(),
            ));
            assert(occurs_at(text, needle, earlier + 1));
        }
        lemma_first_occurrence(rest, needle, at - 1);
    }
}

/// What `index_of_char` gives is in range, stops at a `c`, and passes over
/// none.
pub proof fn lemma_index_of_char(text: Seq<char>, c: char)
    ensures
        index_of_char(text, c) <= text.len(),
        index_of_char(text, c) < text.len() ==> text[index_of_char(text, c) as int] == c,
        forall|i: int| 0 <= i < index_of_char(text, c) ==> #[trigger] text[i] != c,
    decreases text.len(),
{
    if text.len() > 0 && text[0] != c {
        let rest = text.drop_first();
        lemma_index_of_char(rest, c);
        assert forall|i: int| 0 <= i < index_of_char(text, c) implies #[trigger] text[i] != c by {
            if i > 0 {
                assert(text[i] == rest[i - 1]);
            }
        }
    }
}

/// An index that stops at a `c` or at the end, and passes over none, is the
/// one that `index_of_char` gives.
pub proof fn lemma_index_of_char_unique(text: Seq<char>, c: char, at: int)
    requires
        0 <= at <= text.len(),
        at < text.len() ==> text[at] == c,
        forall|i: int| 0 <= i < at ==> #[trigger] text[i] != c,
    ensures
        index_of_char(text, c) == at,
{
    lemma_index_of_char(text, c);
    let found = index_of_char(text, c) as int;
    if found < at {
        assert(text[found] != c);
    }
}

/// Whether `needle` stands in `text` at `at`.
fn occurs_here(text: &Vec<char>, needle: &Vec<char>, at: usize) -> (yes: bool)
    requires
        at <= text@.len(),
    ensures
        yes == occurs_at(text@, needle@, at as int),
{
    if needle.len() > text.len() - at {
        return false;
    }
    let mut i: usize = 0;
    while i < needle.len()
        invariant
            i <= needle@.len(),
            at + needle.len() <= text.len(),
            forall|j: int| 0 <= j < i ==> text@[at + j] == #[trigger] needle@[j],
        decreases needle.len() - i,
    {
        if text[at + i] != needle[i] {
            assert(text@.subrange(at as int, at + needle@.len())[i as int] == text@[at + i]);
            return false;
        }
        i += 1;
    }
    assert(text@.subrange(at as int, at + needle@.len()) =~= needle@);
    true
}

/// The first index at which `needle` stands in `text`.
pub fn find(text: &Vec<char>, needle: &Vec<char>) -> (found: Option<usize>)
    ensures
        match found {
            Some(at) => first_occurrence(text@, needle@, at as int),
            None => !contains(text@, needle@),
        },
{
    let mut at: usize = 0;
    while at < text.len()
        invariant
            at <= text@.len(),
            forall|earlier: int| 0 <= earlier < at ==> !occurs_at(text@, needle@, earlier),
        decreases text.len() - at,
    {
        if occurs_here(text, needle, at) {
            return Some(at);
        }
        at += 1;
    }
    if occurs_here(text, needle, at) {
        Some(at)
    } else {
        None
    }
}

/// Whether `needle` stands somewhere in `text`.
pub fn text_contains(text: &str, needle: &str) -> (yes: bool)
    ensures
        yes == contains(text@, needle@),
{
    let text = chars_of(text);
    let needle = chars_of(needle);
    match find(&text, &needle) {
        Some(at) => {
            assert(occurs_at(text@, needle@, at as int));
            true
        },
        None => false,
    }
}

/// The index of the first `c` at or after `from`, or the length of `text`.
pub fn position(text: &Vec<char>, c: char, from: usize) -> (at: usize)
    requires
        from <= text@.len(),
    ensures
        from <= at <= text@.len(),
        at == from + index_of_char(text@.skip(from as int), c),
{
    let mut at: usize = from;
    while at < text.len() && text[at] != c
        invariant
            from <= at <= text@.len(),
            forall|i: int| from <= i < at ==> #[trigger] text@[i] != c,
        decreases text.len() - at,
    {
        at += 1;
    }
    proof {
        let rest = text@.skip(from as int);
        assert forall|i: int| 0 <= i < at - from implies #[trigger] rest[i] != c by {
            assert(rest[i] == text@[from + i]);
        }
        lemma_index_of_char_unique(rest, c, at - from);
    }
    at
}

/// `text` with every `from` in it, read from the left, become `to`.
pub fn replace(text: &str, from: &str, to: &str) -> (out: String)
    requires
        from@.len() > 0,
    ensures
        out@ == replaced(text@, from@, to@),
{
    let chars = chars_of(text);
    let pattern = chars_of(from);
    let mut out = String::new();
    // `kept..at` has been passed over and is still to be copied.
    let mut kept: usize = 0;
    let mut at: usize = 0;
    proof {
        assert(text@.skip(0) =~= text@);
        assert(out@ + text@.subrange(0, 0) + replaced(text@, from@, to@) =~= replaced(
            text@,
            from@,
            to@,
        ));
    }
    while at < chars.len()
        invariant
            chars@ == text@,
            pattern@ == from@,
            from@.len() > 0,
            kept <= at <= text@.len(),
            replaced(text@, from@, to@) == out@ + text@.subrange(kept as int, at as int) + replaced(
                text@.skip(at as int),
                from@,
                to@,
            ),
        decreases chars.len() - at,
    {
        let ghost rest = text@.skip(at as int);
        let ghost before = out@ + text@.subrange(kept as int, at as int);
        let here = occurs_here(&chars, &pattern, at);
        proof {
            assert(here == occurs_at(rest, from@, 0)) by {
                if at + from@.len() <= text@.len() {
                    assert(rest.subrange(0, from@.len() as int) =~= text@.subrange(
                        at as int,
                        at + from@.len(),
                    ));
                }
            }
        }
        if here {
            out.append(text.substring_char(kept, at));
            out.append(to);
            at += pattern.len();
            kept = at;
            proof {
                assert(rest.skip(from@.len() as int) =~= text@.skip(at as int));
                let after = replaced(text@.skip(at as int), from@, to@);
                assert(out@ + text@.subrange(kept as int, at as int) + after =~= before + (to@
                    + after));
            }
        } else {
            at += 1;
            proof {
                assert(rest.drop_first() =~= text@.skip(at as int));
                let after = replaced(text@.skip(at as int), from@, to@);
                assert(out@ + text@.subrange(kept as int, at as int) + after =~= before + (
                seq![rest[0]] + after));
            }
        }
    }
    out.append(text.substring_char(kept, at));
    proof {
        assert(text@.skip(at as int) =~= Seq::<char>::empty());
        assert(replaced(text@.skip(at as int), from@, to@) =~= Seq::<char>::empty());
        assert(out@ =~= replaced(text@, from@, to@));
    }
    out
}

/// ASCII bytes as characters.
pub open spec fn ascii_chars(bytes: Seq<u8>) -> Seq<char> {
    Seq::new(bytes.len(), |i: int| bytes[i] as char)
}

/// ASCII bytes are UTF-8, and decode to one character each.
pub proof fn lemma_ascii(bytes: Seq<u8>)
    requires
        forall|i: int| 0 <= i < bytes.len() ==> #[trigger] bytes[i] < 0x80,
    ensures
        valid_utf8(bytes),
        decode_utf8(bytes) == ascii_chars(bytes),
{
    let chars = ascii_chars(bytes);
    assert forall|i: int| 0 <= i < chars.len() implies #[trigger] chars[i] as u32 == bytes[i] by {
        assert(bytes[i] < 0x80);
    }
    vstd::utf8::is_ascii_chars_encode_utf8(chars);
    assert(vstd::utf8::encode_utf8(chars) =~= bytes);
    vstd::utf8::encode_utf8_valid_utf8(chars);
    vstd::utf8::encode_utf8_decode_utf8(chars);
}

/// Bytes that are UTF-8 lose nothing by being decoded with `from_utf8_lossy`.
pub open spec fn lossy_keeps(bytes: Seq<u8>) -> bool {
    valid_utf8(bytes) ==> lossy_utf8(bytes) == decode_utf8(bytes)
}

/// What an optional string holds, as a mathematical value.
pub open spec fn optional_text(text: Option<String>) -> Option<Seq<char>> {
    match text {
        Some(text) => Some(text@),
        None => None,
    }
}

/// What a list of strings holds, as a mathematical value.
pub open spec fn text_views(texts: Seq<String>) -> Seq<Seq<char>> {
    texts.map_values(|s: String| s@)
}

/// The pieces between the `separator`s in `text`.
pub fn split(text: &str, separator: char) -> (parts: Vec<String>)
    ensures
        text_views(parts@) == pieces(text@, separator),
{
    let chars = chars_of(text);
    let mut parts: Vec<String> = Vec::new();
    let mut start: usize = 0;
    let mut end: usize = position(&chars, separator, 0);
    proof {
        assert(text@.skip(0) =~= text@);
        assert(text_views(parts@) + pieces(text@, separator) =~= pieces(text@, separator));
    }
    while end < chars.len()
        invariant
            chars@ == text@,
            start <= end <= text@.len(),
            end == start + index_of_char(text@.skip(start as int), separator),
            pieces(text@, separator) == text_views(parts@) + pieces(
                text@.skip(start as int),
                separator,
            ),
        decreases chars.len() - end,
    {
        let ghost rest = text@.skip(start as int);
        let ghost before = text_views(parts@);
        let piece = text.substring_char(start, end).to_owned();
        parts.push(piece);
        proof {
            assert(piece@ =~= rest.take(end - start));
            assert(rest.skip(end - start + 1) =~= text@.skip(end + 1));
            assert(text_views(parts@) =~= before.push(piece@));
            let after = pieces(text@.skip(end + 1), separator);
            assert(before + (seq![piece@] + after) =~= before.push(piece@) + after);
        }
        start = end + 1;
        end = position(&chars, separator, start);
    }
    let ghost rest = text@.skip(start as int);
    let ghost before = text_views(parts@);
    let piece = text.substring_char(start, end).to_owned();
    parts.push(piece);
    proof {
        assert(piece@ =~= rest);
        assert(text_views(parts@) =~= before.push(piece@));
        assert(before + seq![piece@] =~= before.push(piece@));
    }
    parts
}

/// A text holds what was put into it, wherever that was, and what it holds can
/// be cut out of it.
pub proof fn law_contains(before: Seq<char>, needle: Seq<char>, after: Seq<char>, text: Seq<char>)
    ensures
        contains(before + needle + after, needle),
        contains(text, needle) ==> exists|at: int|
            0 <= at <= text.len() && text == #[trigger] text.take(at) + needle + text.skip(
                at + needle.len(),
            ),
        needle.len() > text.len() ==> !contains(text, needle),
{
    let whole = before + needle + after;
    let at = before.len() as int;
    assert(whole.subrange(at, at + needle.len()) =~= needle);
    assert(occurs_at(whole, needle, at));
    if contains(text, needle) {
        let at = choose|at: int| occurs_at(text, needle, at);
        assert(text =~= text.take(at) + needle + text.skip(at + needle.len()));
    }
}

/// Replacing rewrites the first occurrence, and goes on behind it.
pub proof fn law_replace_first(
    before: Seq<char>,
    from: Seq<char>,
    after: Seq<char>,
    to: Seq<char>,
)
    requires
        from.len() > 0,
        forall|k: int|
            0 <= k < before.len() ==> #[trigger] (before + from + after).subrange(
                k,
                k + from.len(),
            ) != from,
    ensures
        replaced(before + from + after, from, to) == before + to + replaced(after, from, to),
    decreases before.len(),
{
    let text = before + from + after;
    if before.len() == 0 {
        assert(text.subrange(0, from.len() as int) =~= from);
        assert(text.skip(from.len() as int) =~= after);
        assert(to + replaced(after, from, to) =~= before + to + replaced(after, from, to));
    } else {
        let rest = before.drop_first();
        assert(text.subrange(0, 0int + from.len()) != from);
        assert(!occurs_at(text, from, 0));
        assert(text.drop_first() =~= rest + from + after);
        assert forall|k: int| 0 <= k < rest.len() implies #[trigger] (rest + from
            + after).subrange(k, k + from.len()) != from by {
            assert((rest + from + after).subrange(k, k + from.len()) =~= text.subrange(
                k + 1,
                k + 1 + from.len(),
            ));
        }
        law_replace_first(rest, from, after, to);
        assert(seq![text[0]] + (rest + to + replaced(after, from, to)) =~= before + to + replaced(
            after,
            from,
            to,
        ));
    }
}

/// Texts with a separator between each two.
pub open spec fn with_separators(parts: Seq<Seq<char>>, separator: char) -> Seq<char>
    decreases parts.len(),
{
    if parts.len() == 0 {
        Seq::empty()
    } else if parts.len() == 1 {
        parts[0]
    } else {
        parts[0].push(separator) + with_separators(parts.drop_first(), separator)
    }
}

/// Splitting loses nothing: the pieces with the separators between them are the
/// text again, and no piece holds a separator.
pub proof fn law_split_and_joined(text: Seq<char>, separator: char)
    ensures
        pieces(text, separator).len() > 0,
        with_separators(pieces(text, separator), separator) == text,
        forall|k: int, i: int|
            0 <= k < pieces(text, separator).len() && 0 <= i < pieces(text, separator)[k].len()
                ==> #[trigger] pieces(text, separator)[k][i] != separator,
    decreases text.len(),
{
    lemma_index_of_char(text, separator);
    let cut = index_of_char(text, separator) as int;
    let all = pieces(text, separator);
    if cut < text.len() {
        let rest = text.skip(cut + 1);
        law_split_and_joined(rest, separator);
        assert(all.drop_first() =~= pieces(rest, separator));
        assert(text.take(cut).push(separator) + rest =~= text);
        assert forall|k: int, i: int|
            0 <= k < all.len() && 0 <= i < all[k].len() implies #[trigger] all[k][i]
            != separator by {
            if k > 0 {
                assert(all[k] == pieces(rest, separator)[k - 1]);
            }
        }
    }
}

/// White space is no visible ASCII character, and is what ends a line, moves the
/// carriage or leaves a space.
pub proof fn law_white_space(c: char)
    ensures
        0x21 <= c as u32 <= 0x7e ==> !white_space(c),
        c == ' ' || c == '\n' || c == '\t' || c == '\r' || c as u32 == 0x0b || c as u32 == 0x0c
            ==> white_space(c),
        (c as u32) < 0x80 && white_space(c) ==> c == ' ' || 0x09 <= c as u32 <= 0x0d,
        0x80 <= c as u32 && white_space(c) ==> c as u32 == 0x85 || c as u32 == 0xa0 || c as u32
            == 0x1680 || 0x2000 <= c as u32 <= 0x200a || c as u32 == 0x2028 || c as u32 == 0x2029
            || c as u32 == 0x202f || c as u32 == 0x205f || c as u32 == 0x3000,
{
}

/// A text is blank exactly if each part of it is; one visible ASCII character
/// makes it not blank.
pub proof fn law_blank(first: Seq<char>, second: Seq<char>, c: char)
    ensures
        blank(Seq::empty()),
        blank(first + second) <==> blank(first) && blank(second),
        0x21 <= c as u32 <= 0x7e ==> !blank(first.push(c) + second),
        c == ' ' || c == '\n' || c == '\t' || c == '\r' ==> (blank(first.push(c)) <==> blank(first)),
{
    let both = first + second;
    if blank(both) {
        assert forall|i: int| 0 <= i < first.len() implies white_space(#[trigger] first[i]) by {
            assert(both[i] == first[i]);
        }
        assert forall|i: int| 0 <= i < second.len() implies white_space(#[trigger] second[i]) by {
            assert(both[first.len() + i] == second[i]);
        }
    }
    let marked = first.push(c) + second;
    assert(marked[first.len() as int] == c);
    let one = first.push(c);
    if blank(one) {
        assert forall|i: int| 0 <= i < first.len() implies white_space(#[trigger] first[i]) by {
            assert(one[i] == first[i]);
        }
    }
}

/// A text in which `from` does not stand is not changed by replacing it.
pub proof fn law_replace_nothing(text: Seq<char>, from: Seq<char>, to: Seq<char>)
    requires
        !contains(text, from),
    ensures
        replaced(text, from, to) == text,
    decreases text.len(),
{
    if text.len() > 0 && from.len() > 0 {
        let rest = text.drop_first();
        assert(!occurs_at(text, from, 0));
        assert forall|at: int| !occurs_at(rest, from, at) by {
            if occurs_at(rest, from, at) {
                assert(text.subrange(at + 1, at + 1 + from.len()) =~= from);
                assert(occurs_at(text, from, at + 1));
            }
        }
        law_replace_nothing(rest, from, to);
        assert(seq![text[0]] + rest =~= text);
    }
}

/// There is nothing but white space in `text`.
pub open spec fn blank(text: Seq<char>) -> bool {
    forall|i: int| 0 <= i < text.len() ==> white_space(#[trigger] text[i])
}

/// Whether there is nothing but white space in `text`.
pub fn is_blank(text: &str) -> (yes: bool)
    ensures
        yes == blank(text@),
{
    let chars = chars_of(text);
    let mut i: usize = 0;
    while i < chars.len()
        invariant
            chars@ == text@,
            i <= text@.len(),
            forall|j: int| 0 <= j < i ==> white_space(#[trigger] text@[j]),
        decreases chars.len() - i,
    {
        if !is_white_space(chars[i]) {
            assert(!white_space(text@[i as int]));
            return false;
        }
        i += 1;
    }
    true
}

/// The name of the last component of a path with `/` separators, from its
/// components. Empty components and `.` do not count; `..` has no name.
pub open spec fn last_name(components: Seq<Seq<char>>) -> Option<Seq<char>>
    decreases components.len(),
{
    if components.len() == 0 {
        None
    } else if components.last() == ""@ || components.last() == "."@ {
        last_name(components.drop_last())
    } else if components.last() == ".."@ {
        None
    } else {
        Some(components.last())
    }
}

/// The file name in a path with `/` separators.
pub open spec fn file_name_in(path: Seq<char>) -> Option<Seq<char>> {
    last_name(pieces(path, '/'))
}

/// A path that is read alike on every host: nothing in it separates on one and
/// not on another, and nothing at its start names a drive or a share.
pub open spec fn plain_path(path: Seq<char>) -> bool {
    &&& forall|i: int| 0 <= i < path.len() ==> #[trigger] path[i] != '\\' && path[i] != ':'
    &&& !(path.len() >= 2 && path[0] == '/' && path[1] == '/')
}

/// `std::path::Path::file_name`: the last component of a path, if it is the name
/// of a file or directory. What is claimed: in a path that is read alike on
/// every host it is the last of the components between `/`, where empty ones
/// and `.` do not count, and `..` is no name. What it is in other paths rests on
/// the host, and is left unsaid.
#[verifier::external_body]
pub(crate) fn file_name(path: &str) -> (name: Option<String>)
    ensures
        plain_path(path@) ==> match file_name_in(path@) {
            Some(text) => name is Some && name->0@ == text,
            None => name is None,
        },
{
    let name = std::path::Path::new(path).file_name()?;
    Some(name.to_str()?.to_owned())
}

/// Pieces of a text that ends in a separator and a piece without one: that
/// piece comes last.
pub proof fn lemma_last_piece(head: Seq<char>, separator: char, tail: Seq<char>)
    requires
        forall|i: int| 0 <= i < tail.len() ==> #[trigger] tail[i] != separator,
    ensures
        pieces(head.push(separator) + tail, separator).len() > 0,
        pieces(head.push(separator) + tail, separator).last() == tail,
    decreases head.len(),
{
    let text = head.push(separator) + tail;
    lemma_index_of_char(text, separator);
    let cut = index_of_char(text, separator) as int;
    assert(text[head.len() as int] == separator);
    if cut == head.len() {
        assert(text.skip(cut + 1) =~= tail);
        lemma_index_of_char(tail, separator);
        assert(pieces(tail, separator) =~= seq![tail]);
        assert(pieces(text, separator) =~= seq![text.take(cut)] + seq![tail]);
    } else {
        let rest = head.skip(cut + 1);
        assert(text.skip(cut + 1) =~= rest.push(separator) + tail);
        lemma_last_piece(rest, separator, tail);
    }
}

/// A file is named as it was when its path was put together.
pub proof fn law_file_name_of_child(dir: Seq<char>, name: Seq<char>)
    requires
        forall|i: int| 0 <= i < name.len() ==> #[trigger] name[i] != '/',
        name != ""@ && name != "."@ && name != ".."@,
    ensures
        file_name_in(dir.push('/') + name) == Some(name),
{
    lemma_last_piece(dir, '/', name);
}

/// A `/` or a `/.` at the end of a path changes nothing about its file name, and
/// a `/..` leaves none.
pub proof fn law_file_name_at_the_end(path: Seq<char>)
    ensures
        file_name_in(path.push('/')) == file_name_in(path),
        file_name_in(path.push('/').push('.')) == file_name_in(path),
        file_name_in(path.push('/').push('.').push('.')) is None,
{
    reveal_strlit("");
    reveal_strlit(".");
    reveal_strlit("..");
    lemma_pieces_push(path, '/', Seq::empty());
    assert(path.push('/') + Seq::<char>::empty() =~= path.push('/'));
    assert(""@ =~= Seq::<char>::empty());
    lemma_pieces_push(path, '/', seq!['.']);
    assert(path.push('/') + seq!['.'] =~= path.push('/').push('.'));
    assert("."@ =~= seq!['.']);
    lemma_pieces_push(path, '/', seq!['.', '.']);
    assert(path.push('/') + seq!['.', '.'] =~= path.push('/').push('.').push('.'));
    assert(".."@ =~= seq!['.', '.']);
    let all = pieces(path, '/');
    assert(all.push(Seq::<char>::empty()).drop_last() =~= all);
    assert(all.push(seq!['.']).drop_last() =~= all);
    assert(".."@ != ""@ && ".."@ != "."@) by {
        assert(".."@.len() == 2);
    }
}

proof fn lemma_pieces_push(head: Seq<char>, separator: char, tail: Seq<char>)
    requires
        forall|i: int| 0 <= i < tail.len() ==> #[trigger] tail[i] != separator,
    ensures
        pieces(head.push(separator) + tail, separator) == pieces(head, separator).push(tail),
    decreases head.len(),
{
    let text = head.push(separator) + tail;
    lemma_index_of_char(head, separator);
    lemma_index_of_char(tail, separator);
    let cut = index_of_char(head, separator) as int;
    assert(forall|i: int| 0 <= i < head.len() ==> #[trigger] head[i] == text[i]);
    assert(text[head.len() as int] == separator);
    if cut < head.len() {
        assert forall|i: int| 0 <= i < cut implies #[trigger] text[i] != separator by {
            assert(text[i] == head[i]);
        }
        lemma_index_of_char_unique(text, separator, cut);
        let rest = head.skip(cut + 1);
        assert(text.skip(cut + 1) =~= rest.push(separator) + tail);
        assert(text.take(cut) =~= head.take(cut));
        lemma_pieces_push(rest, separator, tail);
        assert(seq![head.take(cut)] + pieces(rest, separator).push(tail) =~= pieces(
            head,
            separator,
        ).push(tail));
    } else {
        assert forall|i: int| 0 <= i < cut implies #[trigger] text[i] != separator by {
            assert(text[i] == head[i]);
        }
        lemma_index_of_char_unique(text, separator, cut);
        assert(text.skip(cut + 1) =~= tail);
        assert(text.take(cut) =~= head);
        assert(pieces(tail, separator) =~= seq![tail]);
        assert(pieces(head, separator) =~= seq![head]);
        assert(seq![head] + seq![tail] =~= seq![head].push(tail));
    }
}

} // verus!
