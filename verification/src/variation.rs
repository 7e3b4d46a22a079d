//! Font variation settings, written as `tag:value` pairs that semicolons
//! separate.

use vstd::prelude::*;
use vstd::string::StringExecFns;
use vstd::utf8::encode_utf8;
use crate::numeral::{is_number, writes_number};
use crate::text::{chars_of, string_of};

verus! {

/// One setting of a variation axis.
#[derive(Debug)]
pub struct Variation {
    /// The tag of the axis, its four bytes packed big-endian.
    pub tag: u32,
    /// The value as it was written: the text of a decimal number.
    pub value: String,
}

/// Why the settings could not be read.
#[derive(Debug)]
pub enum VariationError {
    /// The pair has no colon between tag and value.
    MissingSeparator { pair: String },
    /// The value of a pair writes no number.
    NotANumber { value: String },
}

/// The pieces of `s` between the separators `sep`. A text without a
/// separator is one piece; a separator at either end borders on an empty
/// piece.
pub open spec fn pieces(s: Seq<char>, sep: char) -> Seq<Seq<char>>
    decreases s.len(),
{
    if s.len() == 0 {
        seq![Seq::empty()]
    } else if s.last() == sep {
        pieces(s.drop_last(), sep).push(Seq::empty())
    } else {
        let before = pieces(s.drop_last(), sep);
        before.drop_last().push(before.last().push(s.last()))
    }
}

/// The parts in order, with `sep` between two of them.
pub open spec fn joined(parts: Seq<Seq<char>>, sep: char) -> Seq<char>
    decreases parts.len(),
{
    if parts.len() == 0 {
        Seq::empty()
    } else if parts.len() == 1 {
        parts[0]
    } else {
        joined(parts.drop_last(), sep).push(sep) + parts.last()
    }
}

/// The pieces of a text hold no separator, and joined by the separator
/// they give back the text.
pub proof fn lemma_pieces(s: Seq<char>, sep: char)
    ensures
        pieces(s, sep).len() >= 1,
        forall|i: int, j: int|
            0 <= i < pieces(s, sep).len() && 0 <= j < pieces(s, sep)[i].len() ==> #[trigger] pieces(
                s,
                sep,
            )[i][j] != sep,
        joined(pieces(s, sep), sep) == s,
    decreases s.len(),
{
    let parts = pieces(s, sep);
    if s.len() == 0 {
        assert(parts[0] =~= s);
    } else {
        let before = pieces(s.drop_last(), sep);
        lemma_pieces(s.drop_last(), sep);
        if s.last() == sep {
            assert(parts.drop_last() == before);
            assert(joined(parts, sep) =~= s.drop_last().push(sep));
            assert(s.drop_last().push(sep) =~= s);
            assert forall|i: int, j: int| 0 <= i < parts.len() && 0 <= j < parts[i].len() implies #[trigger] parts[i][j]
                != sep by {
                assert(parts[i] == before[i]);
            }
        } else {
            let grown = before.last().push(s.last());
            assert(parts.last() == grown);
            assert(parts.drop_last() == before.drop_last());
            if parts.len() == 1 {
                assert(before[0] == before.last());
                assert(joined(before, sep) == before[0]);
                assert(joined(parts, sep) =~= s.drop_last().push(s.last()));
            } else {
                assert(joined(parts, sep) =~= (joined(before.drop_last(), sep).push(sep)
                    + before.last()).push(s.last()));
            }
            assert(s.drop_last().push(s.last()) =~= s);
            assert forall|i: int, j: int| 0 <= i < parts.len() && 0 <= j < parts[i].len() implies #[trigger] parts[i][j]
                != sep by {
                if i < parts.len() - 1 {
                    assert(parts[i] == before[i]);
                } else if j < before.last().len() {
                    assert(parts[i][j] == before[before.len() - 1][j]);
                }
            }
        }
    }
}

/// The position of the first `c` in `s` at or after `from`, or the length
/// of `s` where there is none.
pub open spec fn find_from(s: Seq<char>, c: char, from: int) -> int
    decreases s.len() - from,
{
    if 0 <= from < s.len() && s[from] != c {
        find_from(s, c, from + 1)
    } else {
        from
    }
}

/// The byte at `i`, or a space behind the last byte.
pub open spec fn byte_or_space(bytes: Seq<u8>, i: int) -> u8 {
    if i < bytes.len() {
        bytes[i]
    } else {
        0x20
    }
}

/// The tag made of the first four bytes of `bytes`, the first byte
/// highest, with a space for every byte that is missing.
pub open spec fn tag_of_bytes(bytes: Seq<u8>) -> u32 {
    (byte_or_space(bytes, 0) * 0x100_0000 + byte_or_space(bytes, 1) * 0x1_0000 + byte_or_space(
        bytes,
        2,
    ) * 0x100 + byte_or_space(bytes, 3)) as u32
}

/// The pair has a colon.
pub open spec fn has_colon(pair: Seq<char>) -> bool {
    find_from(pair, ':', 0) < pair.len()
}

/// The text before the first colon of a pair.
pub open spec fn pair_tag(pair: Seq<char>) -> Seq<char> {
    pair.take(find_from(pair, ':', 0))
}

/// The text behind the first colon of a pair.
pub open spec fn pair_value(pair: Seq<char>) -> Seq<char> {
    pair.skip(find_from(pair, ':', 0) + 1)
}

/// The pair has a colon, and a number behind it.
pub open spec fn well_formed(pair: Seq<char>) -> bool {
    has_colon(pair) && is_number(pair_value(pair))
}

/// The position of the first pair at or after `from` that is not well
/// formed, or the number of pairs where all of them are.
pub open spec fn first_malformed(pairs: Seq<Seq<char>>, from: int) -> int
    decreases pairs.len() - from,
{
    if 0 <= from < pairs.len() && well_formed(pairs[from]) {
        first_malformed(pairs, from + 1)
    } else {
        from
    }
}

/// The pair is well formed, and the setting is what it writes.
pub open spec fn reads(setting: Variation, pair: Seq<char>) -> bool {
    &&& well_formed(pair)
    &&& setting.tag == tag_of_bytes(encode_utf8(pair_tag(pair)))
    &&& setting.value@ == pair_value(pair)
}

/// The settings are what the pairs write, one for one.
pub open spec fn read_all(settings: Seq<Variation>, pairs: Seq<Seq<char>>) -> bool {
    &&& settings.len() == pairs.len()
    &&& forall|i: int| 0 <= i < settings.len() ==> reads(#[trigger] settings[i], pairs[i])
}

/// What is wrong with a pair that is not well formed.
pub open spec fn fault_of(error: VariationError, pair: Seq<char>) -> bool {
    match error {
        VariationError::MissingSeparator { pair: text } => !has_colon(pair) && text@ == pair,
        VariationError::NotANumber { value } => has_colon(pair) && !is_number(pair_value(pair))
            && value@ == pair_value(pair),
    }
}

impl VariationError {
    /// The message of the error. A pair without a colon is named; a value
    /// that writes no number is told apart by whether it is empty.
    pub open spec fn text(self) -> Seq<char> {
        match self {
            VariationError::MissingSeparator { pair } => "invalid variation string: "@ + pair@,
            VariationError::NotANumber { value } => if value@.len() == 0 {
                "cannot parse float from empty string"@
            } else {
                "invalid float literal"@
            },
        }
    }

    pub fn message(&self) -> (s: String)
        ensures
            s@ == self.text(),
    {
        match self {
            VariationError::MissingSeparator { pair } => {
                let mut s = "invalid variation string: ".to_owned();
                s.append(pair.as_str());
                s
            },
            VariationError::NotANumber { value } => {
                if value.as_str().is_empty() {
                    "cannot parse float from empty string".to_owned()
                } else {
                    "invalid float literal".to_owned()
                }
            },
        }
    }
}

/// Calls `swash::tag_from_str_lossy`.
///
/// Trusted: the tag holds the first four bytes of the text, the first byte
/// in the highest place, and a space for every byte that the text lacks.
#[verifier::external_body]
pub(crate) fn axis_tag(name: &str) -> (tag: u32)
    ensures
        tag == tag_of_bytes(encode_utf8(name@)),
{
    swash::tag_from_str_lossy(name)
}

/// Splits `text` at every `sep`.
pub fn split_text(text: &str, sep: char) -> (out: Vec<String>)
    ensures
        out@.len() == pieces(text@, sep).len(),
        forall|i: int| 0 <= i < out@.len() ==> (#[trigger] out@[i])@ == pieces(text@, sep)[i],
{
    let chars = chars_of(text);
    let mut out: Vec<String> = Vec::new();
    let mut current = String::new();
    let mut i: usize = 0;
    assert(chars@.take(0) =~= Seq::<char>::empty());
    while i < chars.len()
        invariant
            0 <= i <= chars.len(),
            chars@ == text@,
            pieces(chars@.take(i as int), sep).len() == out@.len() + 1,
            pieces(chars@.take(i as int), sep).last() == current@,
            forall|k: int|
                0 <= k < out@.len() ==> (#[trigger] out@[k])@ == pieces(chars@.take(i as int), sep)[k],
        decreases chars.len() - i,
    {
        let ghost before = pieces(chars@.take(i as int), sep);
        let c = chars[i];
        proof {
            let now = chars@.take(i + 1);
            assert(now.drop_last() == chars@.take(i as int));
            assert(now.last() == c);
        }
        if c == sep {
            out.push(current);
            current = String::new();
        } else {
            current.push(c);
        }
        i += 1;
    }
    assert(chars@.take(chars.len() as int) == chars@);
    out.push(current);
    out
}

/// The position of the first `c` in `chars`.
fn find_char(chars: &Vec<char>, c: char) -> (at: usize)
    ensures
        at == find_from(chars@, c, 0),
        at <= chars.len(),
{
    let mut at: usize = 0;
    while at < chars.len() && chars[at] != c
        invariant
            0 <= at <= chars.len(),
            find_from(chars@, c, 0) == find_from(chars@, c, at as int),
        decreases chars.len() - at,
    {
        at += 1;
    }
    at
}

/// Reads the settings of variation axes from `tag:value` pairs that
/// semicolons separate. A pair is split at its first colon, and its value
/// has to write a number. The first pair that is not well formed is the
/// error.
pub fn parse_variations(text: &str) -> (out: Result<Vec<Variation>, VariationError>)
    ensures
        match out {
            Ok(settings) => {
                &&& first_malformed(pieces(text@, ';'), 0) == pieces(text@, ';').len()
                &&& read_all(settings@, pieces(text@, ';'))
            },
            Err(error) => {
                &&& first_malformed(pieces(text@, ';'), 0) < pieces(text@, ';').len()
                &&& fault_of(
                    error,
                    pieces(text@, ';')[first_malformed(pieces(text@, ';'), 0)],
                )
            },
        },
{
    let pairs = split_text(text, ';');
    let ghost model = pieces(text@, ';');
    let mut settings: Vec<Variation> = Vec::new();
    let mut i: usize = 0;
    while i < pairs.len()
        invariant
            0 <= i <= pairs.len(),
            model == pieces(text@, ';'),
            pairs@.len() == model.len(),
            forall|k: int| 0 <= k < pairs@.len() ==> (#[trigger] pairs@[k])@ == model[k],
            settings@.len() == i,
            forall|k: int| 0 <= k < i ==> reads(#[trigger] settings@[k], model[k]),
            first_malformed(model, 0) == first_malformed(model, i as int),
        decreases pairs.len() - i,
    {
        let chars = chars_of(pairs[i].as_str());
        assert(chars@ == model[i as int]);
        let colon = find_char(&chars, ':');
        if colon >= chars.len() {
            return Err(VariationError::MissingSeparator { pair: pairs[i].clone() });
        }
        let value = string_of(&chars, colon + 1, chars.len());
        if !writes_number(value.as_str()) {
            return Err(VariationError::NotANumber { value });
        }
        let name = string_of(&chars, 0, colon);
        let tag = axis_tag(name.as_str());
        let setting = Variation { tag, value };
        let ghost before = settings@;
        assert(reads(setting, model[i as int]));
        settings.push(setting);
        i += 1;
        assert forall|k: int| 0 <= k < i implies reads(#[trigger] settings@[k], model[k]) by {
            if k < before.len() {
                assert(settings@[k] == before[k]);
            }
        }
    }
    Ok(settings)
}

} // verus!
