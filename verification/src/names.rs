//! Names of glyphs and of the symbols that hold their outlines.

use vstd::prelude::*;
use vstd::string::StringExecFns;

verus! {

/// The name that the face with the index `face` of the font `font` gives
/// to the glyph `glyph` in its `post` or `CFF` table; `None` where the
/// face cannot be read or holds no name for the glyph.
pub uninterp spec fn font_glyph_name(font: Seq<u8>, face: u32, glyph: u16) -> Option<Seq<char>>;

/// The face of a font file that glyphs are named by: the first.
pub const NAMED_FACE: u32 = 0;

/// The characters of a string that may be missing.
pub open spec fn text_of(s: Option<String>) -> Option<Seq<char>> {
    match s {
        Some(s) => Some(s@),
        None => None,
    }
}

/// Parses one face of `font` with `ttf_parser::Face::parse` and asks it
/// for the name of the glyph with `ttf_parser::Face::glyph_name`.
///
/// Trusted: the result is a function of the font's bytes, the index of the
/// face and the glyph id alone. A face that does not parse has no names.
#[verifier::external_body]
pub(crate) fn lookup_glyph_name(font: &[u8], face: u32, glyph: u16) -> (name: Option<String>)
    ensures
        text_of(name) == font_glyph_name(font@, face, glyph),
{
    let parsed = ttf_parser::Face::parse(font, face).ok()?;
    parsed.glyph_name(ttf_parser::GlyphId(glyph)).map(String::from)
}

/// The character of a digit below ten.
pub open spec fn digit_char(d: nat) -> char {
    (('0' as u8) + d) as char
}

/// The number `n` in base ten, without leading zeros.
pub open spec fn decimal(n: nat) -> Seq<char>
    decreases n,
{
    if n < 10 {
        seq![digit_char(n)]
    } else {
        decimal(n / 10).push(digit_char(n % 10))
    }
}

/// The name of a glyph in a symbol: the name that the font gives it, or
/// `gid` and its number where the font gives none.
pub open spec fn glyph_label(name: Option<Seq<char>>, glyph: u16) -> Seq<char> {
    match name {
        Some(name) => name,
        None => seq!['g', 'i', 'd'] + decimal(glyph as nat),
    }
}

/// The id of the symbol of a glyph: the test case, a dot and the glyph's
/// label.
pub open spec fn symbol_id(testcase: Seq<char>, label: Seq<char>) -> Seq<char> {
    testcase + seq!['.'] + label
}

/// The reference to a symbol: `#` and its id.
pub open spec fn symbol_href(id: Seq<char>) -> Seq<char> {
    seq!['#'] + id
}

/// Appends `n` in base ten.
pub fn push_decimal(out: &mut String, n: u16)
    ensures
        final(out)@ == old(out)@ + decimal(n as nat),
    decreases n,
{
    let ghost before = out@;
    if n >= 10 {
        push_decimal(out, n / 10);
    }
    let d: u8 = (n % 10) as u8;
    out.push((('0' as u8) + d) as char);
    assert(out@ =~= before + decimal(n as nat));
}

/// The label of a glyph, from the name that was found for it.
pub fn label_glyph(name: Option<String>, glyph: u16) -> (label: String)
    ensures
        label@ == glyph_label(text_of(name), glyph),
{
    match name {
        Some(name) => name,
        None => {
            let mut label = String::new();
            label.push('g');
            label.push('i');
            label.push('d');
            push_decimal(&mut label, glyph);
            assert(label@ =~= seq!['g', 'i', 'd'] + decimal(glyph as nat));
            label
        },
    }
}

/// The id of the symbol that holds the glyph labelled `label` in the test
/// case `testcase`.
pub fn make_symbol_id(testcase: &str, label: &str) -> (id: String)
    ensures
        id@ == symbol_id(testcase@, label@),
{
    let mut id = String::new();
    id.append(testcase);
    id.push('.');
    id.append(label);
    assert(id@ =~= symbol_id(testcase@, label@));
    id
}

/// The reference to the symbol with the id `id`.
pub fn make_symbol_href(id: &str) -> (href: String)
    ensures
        href@ == symbol_href(id@),
{
    let mut href = String::new();
    href.push('#');
    href.append(id);
    assert(href@ =~= symbol_href(id@));
    href
}

} // verus!
