//! Per-character analysis of a line of text: bidi embedding levels and
//! script classification.

use vstd::prelude::*;
use vstd::utf8::{encode_scalar, encode_utf8};
use crate::text::chars_of;

verus! {

/// The embedding level that the Unicode bidirectional algorithm resolves
/// for each byte of the UTF-8 form of `text`, with the base direction of
/// every paragraph taken from the paragraph itself. All bytes of a
/// character have the level of the character. Even levels run left to
/// right, odd levels right to left.
pub uninterp spec fn bidi_byte_levels(text: Seq<char>) -> Seq<u8>;

/// The four-letter script tag of each character of `text`.
pub uninterp spec fn script_tags(text: Seq<char>) -> Seq<u32>;

/// The number of bytes of a character in UTF-8.
pub open spec fn utf8_width(c: char) -> nat {
    encode_scalar(c as u32).len()
}

/// The number of bytes that the first `count` characters of `text` take in
/// UTF-8: the place of the character behind them.
pub open spec fn byte_offset(text: Seq<char>, count: int) -> nat
    decreases count,
{
    if count <= 0 {
        0
    } else {
        byte_offset(text, count - 1) + utf8_width(text[count - 1])
    }
}

/// The embedding level of each character of `text`: the level at its first
/// byte.
pub open spec fn bidi_levels(text: Seq<char>) -> Seq<u8> {
    Seq::new(text.len(), |k: int| bidi_byte_levels(text)[byte_offset(text, k) as int])
}

/// `char::len_utf8` gives the number of bytes that the character takes in
/// UTF-8.
pub assume_specification[ char::len_utf8 ](c: char) -> (width: usize)
    ensures
        width == utf8_width(c),
;

/// Calls `unicode_bidi::BidiInfo::new` with no preset paragraph level and
/// hands out the number of every resolved level.
///
/// Trusted: the result is a function of the text alone and has one entry
/// per byte of the text.
#[verifier::external_body]
pub(crate) fn byte_levels(text: &str) -> (levels: Vec<u8>)
    ensures
        levels@ == bidi_byte_levels(text@),
        levels@.len() == encode_utf8(text@).len(),
{
    let info = unicode_bidi::BidiInfo::new(text, None);
    info.levels.iter().map(|level| level.number()).collect()
}

/// Calls `swash::text::analyze` on the characters of `text` and hands out
/// the OpenType tag of the script property of every character.
///
/// Trusted: the result is a function of the text alone and has one entry
/// per character.
#[verifier::external_body]
pub(crate) fn char_script_tags(text: &str) -> (tags: Vec<u32>)
    ensures
        tags@ == script_tags(text@),
        tags@.len() == text@.len(),
{
    let analysis = swash::text::analyze(text.chars());
    analysis.map(|(properties, _)| properties.script().to_opentype()).collect()
}

/// A character takes at least one byte.
pub proof fn lemma_utf8_width(c: char)
    ensures
        1 <= utf8_width(c) <= 4,
{
}

/// The characters behind the first take the bytes behind the bytes of the
/// first.
proof fn lemma_byte_offset_shift(text: Seq<char>, count: int)
    requires
        1 <= count <= text.len(),
    ensures
        byte_offset(text, count) == utf8_width(text[0]) + byte_offset(text.drop_first(), count - 1),
    decreases count,
{
    if count > 1 {
        lemma_byte_offset_shift(text, count - 1);
        assert(text.drop_first()[count - 2] == text[count - 1]);
    } else {
        assert(byte_offset(text, 0) == 0);
        assert(byte_offset(text.drop_first(), 0) == 0);
    }
}

/// All characters together take as many bytes as the text has in UTF-8.
pub proof fn lemma_byte_offset_total(text: Seq<char>)
    ensures
        byte_offset(text, text.len() as int) == encode_utf8(text).len(),
    decreases text.len(),
{
    if text.len() > 0 {
        lemma_byte_offset_total(text.drop_first());
        lemma_byte_offset_shift(text, text.len() as int);
    }
}

/// Later characters begin at later bytes.
pub proof fn lemma_byte_offset_grows(text: Seq<char>, i: int, j: int)
    requires
        0 <= i <= j <= text.len(),
    ensures
        byte_offset(text, i) <= byte_offset(text, j),
    decreases j - i,
{
    if i < j {
        lemma_byte_offset_grows(text, i, j - 1);
    }
}

/// The bidi embedding level of every character of `text`.
pub fn char_levels(text: &str) -> (levels: Vec<u8>)
    ensures
        levels@ == bidi_levels(text@),
{
    let chars = chars_of(text);
    let bytes = byte_levels(text);
    let mut levels: Vec<u8> = Vec::new();
    let mut offset: usize = 0;
    let mut k: usize = 0;
    proof {
        lemma_byte_offset_total(text@);
    }
    while k < chars.len()
        invariant
            0 <= k <= chars.len(),
            chars@ == text@,
            bytes@ == bidi_byte_levels(text@),
            bytes@.len() == byte_offset(text@, text@.len() as int),
            offset == byte_offset(text@, k as int),
            levels@.len() == k,
            forall|i: int| 0 <= i < k ==> #[trigger] levels@[i] == bytes@[byte_offset(text@, i) as int],
        decreases chars.len() - k,
    {
        proof {
            lemma_utf8_width(chars@[k as int]);
            lemma_byte_offset_grows(text@, k + 1, text@.len() as int);
            assert(byte_offset(text@, k + 1) == offset + utf8_width(chars@[k as int]));
            assert(byte_offset(text@, k + 1) <= bytes.len());
        }
        levels.push(bytes[offset]);
        offset = offset + chars[k].len_utf8();
        k += 1;
    }
    assert(levels@ =~= bidi_levels(text@));
    levels
}

} // verus!
