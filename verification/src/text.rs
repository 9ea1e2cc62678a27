//! Text of byte spans of a source.
//!
//! A syntax tree addresses its source by byte offsets, while strings are
//! modelled as sequences of characters. The functions here relate the two: a
//! span is usable when both of its ends fall between characters, and its text
//! is what the bytes in between decode to.

use vstd::prelude::*;
use vstd::string::StringSliceAdditionalSpecFns;
use vstd::utf8::*;

verus! {

/// Bytes `start..end` of the encoding of `code` make up whole characters.
pub open spec fn span_ok(code: Seq<char>, start: int, end: int) -> bool {
    let bytes = encode_utf8(code);
    &&& 0 <= start <= end <= bytes.len()
    &&& is_char_boundary(bytes, start)
    &&& is_char_boundary(bytes, end)
}

/// The characters that bytes `start..end` of the encoding of `code` decode to.
pub open spec fn span_text(code: Seq<char>, start: int, end: int) -> Seq<char> {
    decode_utf8(encode_utf8(code).subrange(start, end))
}

/// A character boundary of a byte sequence is one of each of its prefixes
/// that reaches as far.
pub proof fn lemma_boundary_in_prefix(bytes: Seq<u8>, start: int, end: int)
    requires
        valid_utf8(bytes),
        0 <= start <= end <= bytes.len(),
        is_char_boundary(bytes, end),
    ensures
        valid_utf8(bytes.subrange(0, end)),
        is_char_boundary(bytes.subrange(0, end), start) == is_char_boundary(bytes, start),
{
    let head = bytes.subrange(0, end);
    valid_utf8_split(bytes, end);
    if start == end {
        is_char_boundary_start_end_of_seq(head);
    } else {
        is_char_boundary_iff_not_is_continuation_byte(bytes, start);
        is_char_boundary_iff_not_is_continuation_byte(head, start);
    }
}

/// Whether `start..end` is a span of whole characters of `code`.
pub fn span_fits(code: &str, start: usize, end: usize) -> (ok: bool)
    ensures
        ok == span_ok(code@, start as int, end as int),
{
    proof {
        encode_utf8_valid_utf8(code@);
    }
    start <= end && code.is_char_boundary(start) && code.is_char_boundary(end)
}

/// The text of the span `start..end` of `code`.
pub fn slice_span<'a>(code: &'a str, start: usize, end: usize) -> (text: &'a str)
    requires
        span_ok(code@, start as int, end as int),
    ensures
        text@ == span_text(code@, start as int, end as int),
{
    let ghost bytes = code.spec_bytes();
    proof {
        encode_utf8_valid_utf8(code@);
        lemma_boundary_in_prefix(bytes, start as int, end as int);
    }
    let (head, _) = code.split_at(end);
    let (_, text) = head.split_at(start);
    proof {
        assert(text.spec_bytes() =~= bytes.subrange(start as int, end as int));
        encode_utf8_decode_utf8(text@);
    }
    text
}

/// Index of the first `stop` in `text`, or the length of `text` if there is
/// none.
pub open spec fn index_of(text: Seq<char>, stop: char) -> int
    decreases text.len(),
{
    if text.len() == 0 {
        0
    } else if text[0] == stop {
        0
    } else {
        1 + index_of(text.drop_first(), stop)
    }
}

/// The characters of `text` that stand before its first `stop`; all of
/// `text` if it holds none.
pub open spec fn before_first(text: Seq<char>, stop: char) -> Seq<char> {
    text.take(index_of(text, stop))
}

/// The index found lies within `text` or is its length.
pub proof fn lemma_index_of_bounds(text: Seq<char>, stop: char)
    ensures
        0 <= index_of(text, stop) <= text.len(),
    decreases text.len(),
{
    if text.len() > 0 {
        lemma_index_of_bounds(text.drop_first(), stop);
    }
}

proof fn lemma_wide_bytes(v: u32)
    by (bit_vector)
    ensures
        (0xC0u8 | ((v >> 6) & 0x1F) as u8) >= 0x80,
        (0xE0u8 | ((v >> 12) & 0x0F) as u8) >= 0x80,
        (0xF0u8 | ((v >> 18) & 0x7) as u8) >= 0x80,
        (0x80u8 | (v & 0x3F) as u8) >= 0x80,
        (0x80u8 | ((v >> 6) & 0x3F) as u8) >= 0x80,
        (0x80u8 | ((v >> 12) & 0x3F) as u8) >= 0x80,
{
}

proof fn lemma_narrow_byte(v: u32)
    by (bit_vector)
    requires
        v <= 0x7F,
    ensures
        ((v & 0x7F) as u8) as u32 == v,
{
}

/// An ASCII character is encoded as the byte of its code, and that byte
/// occurs in the encoding of no other character.
proof fn lemma_ascii_in_scalar(c: char, stop: char)
    requires
        (stop as u32) < 0x80,
    ensures
        1 <= encode_scalar(c as u32).len(),
        c == stop ==> encode_scalar(c as u32) == seq![stop as u8],
        c != stop ==> forall|j: int|
            0 <= j < encode_scalar(c as u32).len() ==> (#[trigger] encode_scalar(c as u32)[j])
                != stop as u8,
{
    let v = c as u32;
    lemma_wide_bytes(v);
    if v <= 0x7F {
        lemma_narrow_byte(v);
    }
}

/// The bytes that stand before the first byte `stop` of an encoding are the
/// encoding of the characters that stand before the first character `stop`.
proof fn lemma_prefix_before(text: Seq<char>, stop: char, end: int)
    requires
        (stop as u32) < 0x80,
        0 <= end <= encode_utf8(text).len(),
        forall|j: int| 0 <= j < end ==> (#[trigger] encode_utf8(text)[j]) != stop as u8,
        end < encode_utf8(text).len() ==> encode_utf8(text)[end] == stop as u8,
    ensures
        encode_utf8(text).subrange(0, end) == encode_utf8(before_first(text, stop)),
    decreases text.len(),
{
    let bytes = encode_utf8(text);
    if text.len() == 0 {
        assert(bytes.subrange(0, end) =~= encode_utf8(before_first(text, stop)));
    } else {
        let first = encode_scalar(text[0] as u32);
        let rest = text.drop_first();
        lemma_ascii_in_scalar(text[0], stop);
        assert(bytes == first + encode_utf8(rest));
        if text[0] == stop {
            assert(bytes[0] == stop as u8);
            assert(end == 0);
            assert(before_first(text, stop) =~= Seq::<char>::empty());
            assert(bytes.subrange(0, end) =~= encode_utf8(before_first(text, stop)));
        } else {
            assert forall|j: int| 0 <= j < first.len() implies bytes[j] != stop as u8 by {
                assert(bytes[j] == first[j]);
            }
            assert(end >= first.len());
            let tail = encode_utf8(rest);
            let end_in_tail = end - first.len();
            assert forall|j: int| 0 <= j < end_in_tail implies tail[j] != stop as u8 by {
                assert(tail[j] == bytes[j + first.len()]);
            }
            if end_in_tail < tail.len() {
                assert(tail[end_in_tail] == bytes[end]);
            }
            lemma_prefix_before(rest, stop, end_in_tail);
            lemma_index_of_bounds(rest, stop);
            let kept = before_first(text, stop);
            assert(kept.len() > 0);
            assert(kept[0] == text[0]);
            assert(kept.drop_first() =~= before_first(rest, stop));
            assert(encode_utf8(kept) == first + encode_utf8(before_first(rest, stop)));
            assert(bytes.subrange(0, end) =~= first + tail.subrange(0, end_in_tail));
        }
    }
}

/// The part of `text` that stands before its first `stop`, an ASCII
/// character; all of `text` if it holds none.
pub fn prefix_before<'a>(text: &'a str, stop: char) -> (prefix: &'a str)
    requires
        (stop as u32) < 0x80,
    ensures
        prefix@ == before_first(text@, stop),
{
    let bytes = text.as_bytes();
    let stop_byte = stop as u8;
    let mut end: usize = 0;
    while end < bytes.len() && bytes[end] != stop_byte
        invariant
            end <= bytes.len(),
            bytes@ == text.spec_bytes(),
            stop_byte == stop as u8,
            forall|j: int| 0 <= j < end ==> bytes@[j] != stop_byte,
        decreases bytes.len() - end,
    {
        end = end + 1;
    }
    proof {
        let encoded = text.spec_bytes();
        encode_utf8_valid_utf8(text@);
        lemma_prefix_before(text@, stop, end as int);
        if end < encoded.len() {
            is_char_boundary_iff_not_is_continuation_byte(encoded, end as int);
        } else {
            is_char_boundary_start_end_of_seq(encoded);
        }
    }
    let (prefix, _) = text.split_at(end);
    proof {
        encode_utf8_decode_utf8(prefix@);
        encode_utf8_decode_utf8(before_first(text@, stop));
    }
    prefix
}

/// Whether two strings hold the same characters.
pub fn same_text(a: &str, b: &str) -> (same: bool)
    ensures
        same == (a@ == b@),
{
    let left = a.as_bytes();
    let right = b.as_bytes();
    if left.len() != right.len() {
        return false;
    }
    let mut i: usize = 0;
    while i < left.len()
        invariant
            i <= left.len(),
            left.len() == right.len(),
            left@ == a.spec_bytes(),
            right@ == b.spec_bytes(),
            forall|j: int| 0 <= j < i ==> left@[j] == right@[j],
        decreases left.len() - i,
    {
        if left[i] != right[i] {
            return false;
        }
        i = i + 1;
    }
    proof {
        assert(left@ =~= right@);
        encode_utf8_decode_utf8(a@);
        encode_utf8_decode_utf8(b@);
    }
    true
}

/// Number of line feeds in `text`.
pub open spec fn newlines(text: Seq<char>) -> nat
    decreases text.len(),
{
    if text.len() == 0 {
        0
    } else if text.last() == '\n' {
        newlines(text.drop_last()) + 1
    } else {
        newlines(text.drop_last())
    }
}

/// Number of lines of `text`: one more than its line feeds.
pub open spec fn line_count(text: Seq<char>) -> nat {
    newlines(text) + 1
}

/// `count`, or the greatest machine number where `count` is beyond it.
pub open spec fn capped(count: nat) -> usize {
    if count <= usize::MAX {
        count as usize
    } else {
        usize::MAX
    }
}

/// The number of lines of `code`, as far as a machine number counts.
pub fn count_lines(code: &str) -> (lines: usize)
    ensures
        lines == capped(line_count(code@)),
{
    let mut lines: usize = 1;
    for c in iter: code.chars()
        invariant
            iter.seq() == code@,
            lines == capped(line_count(code@.take(iter.index()))),
    {
        proof {
            let at = iter.index();
            assert(code@.take(at + 1).drop_last() =~= code@.take(at));
            assert(code@.take(at + 1).last() == c);
        }
        if c == '\n' && lines < usize::MAX {
            lines = lines + 1;
        }
    }
    proof {
        assert(code@.take(code@.len() as int) =~= code@);
    }
    lines
}

/// `part` stands somewhere in `whole`.
pub open spec fn is_part_of(part: Seq<char>, whole: Seq<char>) -> bool {
    exists|at: int|
        0 <= at && at + part.len() <= whole.len() && #[trigger] whole.subrange(
            at,
            at + part.len(),
        ) == part
}

/// A character boundary of a byte sequence that lies in a span of whole
/// characters is a boundary of the span, and the other way round.
pub proof fn lemma_boundary_in_span(bytes: Seq<u8>, start: int, end: int, at: int)
    requires
        valid_utf8(bytes),
        0 <= start <= at <= end <= bytes.len(),
        is_char_boundary(bytes, start),
        is_char_boundary(bytes, end),
    ensures
        valid_utf8(bytes.subrange(start, end)),
        is_char_boundary(bytes.subrange(start, end), at - start) == is_char_boundary(bytes, at),
{
    let head = bytes.subrange(0, end);
    lemma_boundary_in_prefix(bytes, start, end);
    lemma_boundary_in_prefix(bytes, at, end);
    valid_utf8_split(head, start);
    let span = bytes.subrange(start, end);
    assert(head.subrange(start, head.len() as int) =~= span);
    if at == start {
        is_char_boundary_start_end_of_seq(span);
    } else if at == end {
        is_char_boundary_start_end_of_seq(span);
    } else {
        is_char_boundary_iff_not_is_continuation_byte(bytes, at);
        is_char_boundary_iff_not_is_continuation_byte(span, at - start);
    }
}

/// The text of a span that lies within another span stands in the text of
/// that span.
pub proof fn lemma_inner_span_text(
    code: Seq<char>,
    start: int,
    end: int,
    inner_start: int,
    inner_end: int,
)
    requires
        span_ok(code, start, end),
        span_ok(code, inner_start, inner_end),
        start <= inner_start,
        inner_end <= end,
    ensures
        is_part_of(span_text(code, inner_start, inner_end), span_text(code, start, end)),
{
    let bytes = encode_utf8(code);
    encode_utf8_valid_utf8(code);
    let span = bytes.subrange(start, end);
    let a = inner_start - start;
    let b = inner_end - start;
    lemma_boundary_in_span(bytes, start, end, inner_start);
    lemma_boundary_in_span(bytes, start, end, inner_end);
    decode_utf8_split(span, a);
    let tail = span.subrange(a, span.len() as int);
    is_char_boundary_start_end_of_seq(span);
    lemma_boundary_in_span(span, a, span.len() as int, b);
    decode_utf8_split(tail, b - a);
    let before = decode_utf8(span.subrange(0, a));
    let inner = decode_utf8(tail.subrange(0, b - a));
    let after = decode_utf8(tail.subrange(b - a, tail.len() as int));
    assert(tail.subrange(0, b - a) =~= bytes.subrange(inner_start, inner_end));
    let whole = decode_utf8(span);
    assert(whole =~= before + (inner + after));
    let at = before.len() as int;
    assert(whole.subrange(at, at + inner.len()) =~= inner);
}

/// The text of a span of a text stands in the text.
pub proof fn lemma_span_text_in_code(code: Seq<char>, start: int, end: int)
    requires
        span_ok(code, start, end),
    ensures
        is_part_of(span_text(code, start, end), code),
{
    let bytes = encode_utf8(code);
    encode_utf8_valid_utf8(code);
    is_char_boundary_start_end_of_seq(bytes);
    lemma_inner_span_text(code, 0, bytes.len() as int, start, end);
    assert(bytes.subrange(0, bytes.len() as int) =~= bytes);
    encode_utf8_decode_utf8(code);
}

} // verus!
