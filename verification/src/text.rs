//! Text primitives shared by the whole crate: equality of string slices,
//! joining with a separator, and trimming of surrounding white space.
//!
//! Everything is specified over `Seq<char>`, the view of `str` and `String`.

use vstd::prelude::*;
use vstd::string::*;
use vstd::utf8::*;

verus! {

/// `str`'s `PartialEq::eq` from the standard library: two slices compare equal
/// exactly when they hold the same characters. Assumed, not proved.
pub assume_specification[ <str as PartialEq>::eq ](a: &str, b: &str) -> (same: bool)
    ensures
        same == (a@ == b@),
;

/// The view of an optional string.
pub open spec fn option_text(text: Option<String>) -> Option<Seq<char>> {
    match text {
        Some(t) => Some(t@),
        None => None,
    }
}

/// The views of a sequence of strings.
pub open spec fn texts(strings: Seq<String>) -> Seq<Seq<char>> {
    strings.map_values(|s: String| s@)
}

/// `parts` written one after the other with `separator` between neighbours.
pub open spec fn joined(parts: Seq<Seq<char>>, separator: Seq<char>) -> Seq<char>
    decreases parts.len(),
{
    if parts.len() == 0 {
        Seq::empty()
    } else if parts.len() == 1 {
        parts[0]
    } else {
        joined(parts.drop_last(), separator) + separator + parts.last()
    }
}

/// The code points with the Unicode property `White_Space`.
pub open spec fn is_white_space(c: char) -> bool {
    let code = c as u32;
    ||| 0x09 <= code <= 0x0d
    ||| code == 0x20
    ||| code == 0x85
    ||| code == 0xa0
    ||| code == 0x1680
    ||| 0x2000 <= code <= 0x200a
    ||| code == 0x2028
    ||| code == 0x2029
    ||| code == 0x202f
    ||| code == 0x205f
    ||| code == 0x3000
}

/// How many white-space characters `text` starts with.
pub open spec fn leading_white_space(text: Seq<char>) -> nat
    decreases text.len(),
{
    if text.len() > 0 && is_white_space(text[0]) {
        1 + leading_white_space(text.skip(1))
    } else {
        0
    }
}

/// How many white-space characters `text` ends with.
pub open spec fn trailing_white_space(text: Seq<char>) -> nat
    decreases text.len(),
{
    if text.len() > 0 && is_white_space(text.last()) {
        1 + trailing_white_space(text.drop_last())
    } else {
        0
    }
}

/// `text` without the white space at its two ends.
pub open spec fn trimmed(text: Seq<char>) -> Seq<char> {
    if leading_white_space(text) >= text.len() {
        Seq::empty()
    } else {
        text.subrange(
            leading_white_space(text) as int,
            text.len() - trailing_white_space(text),
        )
    }
}

/// `str::trim` from the standard library, which removes leading and trailing
/// characters that have the Unicode property `White_Space`. Assumed, not
/// proved: the result holds exactly the characters of [`trimmed`].
#[verifier::external_body]
pub(crate) fn trim_text(text: &str) -> (inner: &str)
    ensures
        inner@ == trimmed(text@),
{
    text.trim()
}

/// Appends a copy of `piece` to `buffer`.
pub fn push_text(buffer: &mut String, piece: &str)
    ensures
        final(buffer)@ == old(buffer)@ + piece@,
{
    buffer.append(piece);
}

/// A copy of an optional string.
pub fn copy_option_text(text: &Option<String>) -> (copy: Option<String>)
    ensures
        option_text(copy) == option_text(*text),
{
    match text {
        Some(t) => Some(t.clone()),
        None => None,
    }
}

/// Pushing onto a sequence of strings pushes the view onto the views.
pub proof fn lemma_texts_push(strings: Seq<String>, last: String)
    ensures
        texts(strings.push(last)) == texts(strings).push(last@),
{
    assert(texts(strings.push(last)) =~= texts(strings).push(last@));
}

/// Joining the first `i + 1` parts appends the separator and part `i` to
/// the first `i` parts joined, unless part `i` is the first.
pub proof fn lemma_joined_take(parts: Seq<Seq<char>>, separator: Seq<char>, i: int)
    requires
        0 <= i < parts.len(),
    ensures
        joined(parts.take(i + 1), separator) == if i == 0 {
            parts[0]
        } else {
            joined(parts.take(i), separator) + separator + parts[i]
        },
{
    let upto = parts.take(i + 1);
    assert(upto.drop_last() =~= parts.take(i));
    assert(upto.last() == parts[i]);
    if i == 0 {
        assert(upto[0] == parts[0]);
    }
}

/// Writes `parts` one after the other with `separator` between neighbours.
pub fn join_texts(parts: &Vec<String>, separator: &str) -> (text: String)
    ensures
        text@ == joined(texts(parts@), separator@),
{
    let mut text = String::new();
    let ghost all = texts(parts@);
    let mut i: usize = 0;
    while i < parts.len()
        invariant
            i <= parts.len(),
            all == texts(parts@),
            text@ == joined(all.take(i as int), separator@),
        decreases parts.len() - i,
    {
        if i > 0 {
            push_text(&mut text, separator);
        }
        push_text(&mut text, parts[i].as_str());
        proof {
            lemma_joined_take(all, separator@, i as int);
            assert(all[i as int] == parts@[i as int]@);
            if i == 0 {
                assert(all.take(0).len() == 0);
                assert(text@ =~= all[0]);
            }
        }
        i += 1;
    }
    proof {
        assert(all.take(all.len() as int) =~= all);
    }
    text
}

/// The characters that the bytes `start..end` of the UTF-8 form of `source`
/// encode; nothing when the two offsets do not delimit whole characters of
/// the text.
pub open spec fn text_between(source: Seq<char>, start: int, end: int) -> Seq<char> {
    let bytes = encode_utf8(source);
    if start <= end && is_char_boundary(bytes, start) && is_char_boundary(bytes, end) {
        decode_utf8(bytes.subrange(start, end))
    } else {
        Seq::empty()
    }
}

/// The part of `source` between two byte offsets.
pub fn slice_text<'a>(source: &'a str, start: usize, end: usize) -> (piece: &'a str)
    ensures
        piece@ == text_between(source@, start as int, end as int),
{
    let ghost bytes = encode_utf8(source@);
    proof {
        reveal_strlit("");
        assert(""@ =~= Seq::<char>::empty());
        encode_utf8_valid_utf8(source@);
    }
    if start <= end && source.is_char_boundary(start) && source.is_char_boundary(end) {
        let (head, _) = source.split_at(end);
        proof {
            let front = bytes.subrange(0, end as int);
            assert(end <= bytes.len());
            assert(head.spec_bytes() == front);
            valid_utf8_split(bytes, end as int);
            if start < end {
                is_char_boundary_iff_not_is_continuation_byte(bytes, start as int);
                is_char_boundary_iff_not_is_continuation_byte(front, start as int);
            } else {
                is_char_boundary_start_end_of_seq(front);
            }
        }
        let (_, piece) = head.split_at(start);
        proof {
            let front = bytes.subrange(0, end as int);
            assert(piece.spec_bytes() =~= bytes.subrange(start as int, end as int));
            encode_utf8_decode_utf8(piece@);
        }
        piece
    } else {
        ""
    }
}

/// The position of the first element of `items` for which `wanted` holds, or
/// the number of elements when it holds for none.
pub open spec fn first_where<T>(items: Seq<T>, wanted: spec_fn(T) -> bool) -> int
    decreases items.len(),
{
    if items.len() == 0 {
        0
    } else if wanted(items[0]) {
        0
    } else {
        1 + first_where(items.skip(1), wanted)
    }
}

/// [`first_where`] is a position at or before the end; `wanted` holds there
/// and nowhere before.
pub proof fn lemma_first_where<T>(items: Seq<T>, wanted: spec_fn(T) -> bool)
    ensures
        0 <= first_where(items, wanted) <= items.len(),
        first_where(items, wanted) < items.len() ==> wanted(items[first_where(items, wanted)]),
        forall|i: int| 0 <= i < first_where(items, wanted) ==> !wanted(#[trigger] items[i]),
    decreases items.len(),
{
    if items.len() > 0 && !wanted(items[0]) {
        let rest = items.skip(1);
        lemma_first_where(rest, wanted);
        assert forall|i: int| 0 <= i < first_where(items, wanted) implies !wanted(
            #[trigger] items[i],
        ) by {
            if i > 0 {
                assert(items[i] == rest[i - 1]);
            }
        }
    }
}

/// A position where `wanted` holds and before which it never holds is the
/// first such position.
pub proof fn lemma_first_where_is<T>(items: Seq<T>, wanted: spec_fn(T) -> bool, at: int)
    requires
        0 <= at <= items.len(),
        at < items.len() ==> wanted(items[at]),
        forall|i: int| 0 <= i < at ==> !wanted(#[trigger] items[i]),
    ensures
        first_where(items, wanted) == at,
{
    lemma_first_where(items, wanted);
    let first = first_where(items, wanted);
    if first < at {
        assert(!wanted(items[first]));
    }
    if at < first {
        assert(!wanted(items[at]));
    }
}

} // verus!
