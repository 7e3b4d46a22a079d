//! The vector document of a sheet: a view box, one symbol element per
//! symbol and one reference element per placement.

use vstd::prelude::*;
use vstd::string::StringExecFns;
use crate::numeral::floor_numeral;
use crate::path::{coordinate_text, Point};
use crate::sheet::{Placement, Symbol};

verus! {

/// `std::io::Error`, the error of a writer of bytes. Nothing is known of
/// its values.
#[verifier::external_type_specification]
#[verifier::external_body]
pub struct ExIoError(std::io::Error);

/// Whether a tag opens an element, closes one, or is an element without
/// content.
#[derive(Clone, Copy, Debug, PartialEq, Eq, Structural)]
pub enum TagKind {
    Open,
    Empty,
    Close,
}

#[derive(Debug)]
pub struct Attribute {
    pub name: String,
    pub value: String,
}

/// One tag of the document.
#[derive(Debug)]
pub struct MarkupEvent {
    pub kind: TagKind,
    pub name: String,
    pub attributes: Vec<Attribute>,
}

/// A tag as plain values.
pub struct EventView {
    pub kind: TagKind,
    pub name: Seq<char>,
    pub attributes: Seq<(Seq<char>, Seq<char>)>,
}

/// The attributes as pairs of name and value.
pub open spec fn attribute_views(attributes: Seq<Attribute>) -> Seq<(Seq<char>, Seq<char>)> {
    Seq::new(attributes.len(), |i: int| (attributes[i].name@, attributes[i].value@))
}

impl View for MarkupEvent {
    type V = EventView;

    open spec fn view(&self) -> EventView {
        EventView {
            kind: self.kind,
            name: self.name@,
            attributes: attribute_views(self.attributes@),
        }
    }
}

/// The tags as plain values.
pub open spec fn event_views(events: Seq<MarkupEvent>) -> Seq<EventView> {
    Seq::new(events.len(), |i: int| events[i]@)
}

/// The numbers of a document that depend on the measures of the font and
/// of the shaped glyphs, each a decimal numeral.
#[derive(Debug)]
pub struct Geometry {
    /// The upper edge of the view box: the descent of the font, negated and
    /// multiplied by the scale of the metrics.
    pub min_y: String,
    /// Where the pen stands after the last glyph that is no mark.
    pub width: String,
    /// Ascent plus descent of the font, multiplied by the scale of the
    /// metrics.
    pub height: String,
    /// For every placement, in order: where the pen stands before its
    /// glyph plus the horizontal offset of the glyph, and the vertical
    /// offset of the glyph.
    pub positions: Vec<Point>,
}

/// Why a document could not be made.
#[derive(Clone, Copy, Debug, PartialEq, Eq, Structural)]
pub enum DocumentError {
    /// The geometry does not hold one position for every placement.
    PositionCount,
    /// The writer could not write the markup. A document is written to
    /// memory, which takes every byte, so that no document gives this error.
    Write,
}

/// The markup that `quick_xml` writes for a list of tags when every open
/// element indents its content by `indent_size` more bytes `indent`.
pub uninterp spec fn xml_bytes(events: Seq<EventView>, indent: u8, indent_size: usize) -> Seq<u8>;

/// The byte that the document is indented with: a space.
pub const INDENT: u8 = 0x20;

/// The number of indent bytes for every open element.
pub const INDENT_SIZE: usize = 4;

/// `0 min_y width height`
pub open spec fn view_box_text(
    min_y: Seq<char>,
    width: Seq<char>,
    height: Seq<char>,
    floor: bool,
) -> Seq<char> {
    seq!['0', ' '] + coordinate_text(min_y, floor) + seq![' '] + coordinate_text(width, floor)
        + seq![' '] + coordinate_text(height, floor)
}

/// The tag that opens the document.
pub open spec fn document_open(view_box: Seq<char>) -> EventView {
    EventView {
        kind: TagKind::Open,
        name: "svg"@,
        attributes: seq![
            ("version"@, "1.1"@),
            ("xmlns"@, "http://www.w3.org/2000/svg"@),
            ("xmlns:xlink"@, "http://www.w3.org/1999/xlink"@),
            ("viewBox"@, view_box),
        ],
    }
}

/// The tag that closes the document.
pub open spec fn document_close() -> EventView {
    EventView { kind: TagKind::Close, name: "svg"@, attributes: Seq::empty() }
}

/// The three tags of a symbol: the element with the id of the symbol, and
/// in it the path of the outline.
pub open spec fn symbol_events(symbol: Symbol) -> Seq<EventView> {
    seq![
        EventView {
            kind: TagKind::Open,
            name: "symbol"@,
            attributes: seq![("id"@, symbol.id@), ("overflow"@, "visible"@)],
        },
        EventView { kind: TagKind::Empty, name: "path"@, attributes: seq![("d"@, symbol.path@)] },
        EventView { kind: TagKind::Close, name: "symbol"@, attributes: Seq::empty() },
    ]
}

/// The tags of all symbols, in order.
pub open spec fn symbols_events(symbols: Seq<Symbol>) -> Seq<EventView>
    decreases symbols.len(),
{
    if symbols.len() == 0 {
        Seq::empty()
    } else {
        symbols_events(symbols.drop_last()) + symbol_events(symbols.last())
    }
}

/// The reference to the symbol of a placement at its position.
pub open spec fn use_event(placement: Placement, position: Point, floor: bool) -> EventView {
    EventView {
        kind: TagKind::Empty,
        name: "use"@,
        attributes: seq![
            ("xlink:href"@, placement.href@),
            ("x"@, coordinate_text(position.x@, floor)),
            ("y"@, coordinate_text(position.y@, floor)),
        ],
    }
}

/// The references of the first `count` placements, in order.
pub open spec fn uses_events(
    placements: Seq<Placement>,
    positions: Seq<Point>,
    floor: bool,
    count: int,
) -> Seq<EventView>
    decreases count,
{
    if count <= 0 {
        Seq::empty()
    } else {
        uses_events(placements, positions, floor, count - 1).push(
            use_event(placements[count - 1], positions[count - 1], floor),
        )
    }
}

/// The tags of the whole document: the opening tag with the view box, the
/// symbols, the references, the closing tag.
pub open spec fn document_model(
    symbols: Seq<Symbol>,
    placements: Seq<Placement>,
    geometry: Geometry,
    floor: bool,
) -> Seq<EventView> {
    seq![
        document_open(view_box_text(geometry.min_y@, geometry.width@, geometry.height@, floor)),
    ] + symbols_events(symbols) + uses_events(
        placements,
        geometry.positions@,
        floor,
        placements.len() as int,
    ) + seq![document_close()]
}

/// The factor that brings the ascent and the descent of a font into the
/// unit of the outlines: one where the outlines were scaled to a size in
/// pixels per em, the units per em of the font where they were left in
/// font units.
pub open spec fn scale_of(scaled: bool, units_per_em: u16) -> u16 {
    if scaled {
        1
    } else {
        units_per_em
    }
}

#[verifier::when_used_as_spec(scale_of)]
pub fn metrics_scale(scaled: bool, units_per_em: u16) -> (scale: u16)
    ensures
        scale == scale_of(scaled, units_per_em),
{
    if scaled {
        1
    } else {
        units_per_em
    }
}

fn attribute(name: &str, value: String) -> (a: Attribute)
    ensures
        a.name@ == name@,
        a.value@ == value@,
{
    Attribute { name: name.to_owned(), value }
}

fn coordinate(numeral: &String, floor_coords: bool) -> (text: String)
    ensures
        text@ == coordinate_text(numeral@, floor_coords),
{
    if floor_coords {
        floor_numeral(numeral.as_str())
    } else {
        numeral.clone()
    }
}

fn view_box(geometry: &Geometry, floor_coords: bool) -> (text: String)
    ensures
        text@ == view_box_text(
            geometry.min_y@,
            geometry.width@,
            geometry.height@,
            floor_coords,
        ),
{
    let mut text = String::new();
    text.push('0');
    text.push(' ');
    let min_y = coordinate(&geometry.min_y, floor_coords);
    text.append(min_y.as_str());
    text.push(' ');
    let width = coordinate(&geometry.width, floor_coords);
    text.append(width.as_str());
    text.push(' ');
    let height = coordinate(&geometry.height, floor_coords);
    text.append(height.as_str());
    assert(text@ =~= view_box_text(
        geometry.min_y@,
        geometry.width@,
        geometry.height@,
        floor_coords,
    ));
    text
}

fn open_document(view_box: String) -> (event: MarkupEvent)
    ensures
        event@ == document_open(view_box@),
{
    let mut attributes: Vec<Attribute> = Vec::new();
    attributes.push(attribute("version", "1.1".to_owned()));
    attributes.push(attribute("xmlns", "http://www.w3.org/2000/svg".to_owned()));
    attributes.push(attribute("xmlns:xlink", "http://www.w3.org/1999/xlink".to_owned()));
    attributes.push(attribute("viewBox", view_box));
    let event = MarkupEvent { kind: TagKind::Open, name: "svg".to_owned(), attributes };
    assert(event@.attributes =~= document_open(view_box@).attributes);
    event
}

fn close_tag(name: &str) -> (event: MarkupEvent)
    ensures
        event@ == (EventView { kind: TagKind::Close, name: name@, attributes: Seq::empty() }),
{
    let event = MarkupEvent { kind: TagKind::Close, name: name.to_owned(), attributes: Vec::new() };
    assert(event@.attributes =~= Seq::<(Seq<char>, Seq<char>)>::empty());
    event
}

fn push_symbol(events: &mut Vec<MarkupEvent>, symbol: &Symbol)
    ensures
        event_views(final(events)@) == event_views(old(events)@) + symbol_events(*symbol),
{
    let ghost before = event_views(events@);
    let mut attributes: Vec<Attribute> = Vec::new();
    attributes.push(attribute("id", symbol.id.clone()));
    attributes.push(attribute("overflow", "visible".to_owned()));
    let open = MarkupEvent { kind: TagKind::Open, name: "symbol".to_owned(), attributes };
    assert(open@.attributes =~= symbol_events(*symbol)[0].attributes);
    let mut attributes: Vec<Attribute> = Vec::new();
    attributes.push(attribute("d", symbol.path.clone()));
    let path = MarkupEvent { kind: TagKind::Empty, name: "path".to_owned(), attributes };
    assert(path@.attributes =~= symbol_events(*symbol)[1].attributes);
    let close = close_tag("symbol");
    events.push(open);
    events.push(path);
    events.push(close);
    assert(event_views(events@) =~= before + symbol_events(*symbol));
}

fn push_use(
    events: &mut Vec<MarkupEvent>,
    placement: &Placement,
    position: &Point,
    floor_coords: bool,
)
    ensures
        event_views(final(events)@) == event_views(old(events)@).push(
            use_event(*placement, *position, floor_coords),
        ),
{
    let ghost before = event_views(events@);
    let mut attributes: Vec<Attribute> = Vec::new();
    attributes.push(attribute("xlink:href", placement.href.clone()));
    attributes.push(attribute("x", coordinate(&position.x, floor_coords)));
    attributes.push(attribute("y", coordinate(&position.y, floor_coords)));
    let event = MarkupEvent { kind: TagKind::Empty, name: "use".to_owned(), attributes };
    assert(event@.attributes =~= use_event(*placement, *position, floor_coords).attributes);
    events.push(event);
    assert(event_views(events@) =~= before.push(use_event(*placement, *position, floor_coords)));
}

/// Lists the tags of the document of a sheet. The numerals of the
/// geometry are rounded down where `floor_coords` is set.
pub fn document_events(
    symbols: &Vec<Symbol>,
    placements: &Vec<Placement>,
    geometry: &Geometry,
    floor_coords: bool,
) -> (out: Result<Vec<MarkupEvent>, DocumentError>)
    ensures
        geometry.positions@.len() != placements@.len() ==> out == Err::<
            Vec<MarkupEvent>,
            DocumentError,
        >(DocumentError::PositionCount),
        geometry.positions@.len() == placements@.len() ==> out is Ok && event_views(out->Ok_0@)
            == document_model(symbols@, placements@, *geometry, floor_coords),
{
    if geometry.positions.len() != placements.len() {
        return Err(DocumentError::PositionCount);
    }
    let mut events: Vec<MarkupEvent> = Vec::new();
    events.push(open_document(view_box(geometry, floor_coords)));
    let ghost head = event_views(events@);
    assert(head =~= seq![
        document_open(
            view_box_text(geometry.min_y@, geometry.width@, geometry.height@, floor_coords),
        ),
    ]);
    let mut i: usize = 0;
    while i < symbols.len()
        invariant
            0 <= i <= symbols.len(),
            event_views(events@) == head + symbols_events(symbols@.take(i as int)),
        decreases symbols.len() - i,
    {
        push_symbol(&mut events, &symbols[i]);
        i += 1;
        proof {
            let now = symbols@.take(i as int);
            assert(now.drop_last() == symbols@.take(i - 1));
            assert(now.last() == symbols@[i - 1]);
            assert(head + symbols_events(now.drop_last()) + symbol_events(now.last()) =~= head
                + symbols_events(now));
        }
    }
    assert(symbols@.take(symbols.len() as int) == symbols@);
    let ghost front = event_views(events@);
    let mut j: usize = 0;
    assert(front + uses_events(placements@, geometry.positions@, floor_coords, 0) =~= front);
    while j < placements.len()
        invariant
            0 <= j <= placements.len(),
            geometry.positions@.len() == placements@.len(),
            event_views(events@) == front + uses_events(
                placements@,
                geometry.positions@,
                floor_coords,
                j as int,
            ),
        decreases placements.len() - j,
    {
        push_use(&mut events, &placements[j], &geometry.positions[j], floor_coords);
        j += 1;
        assert(front + uses_events(placements@, geometry.positions@, floor_coords, j as int)
            =~= (front + uses_events(placements@, geometry.positions@, floor_coords, j - 1)).push(
            use_event(placements@[j - 1], geometry.positions@[j - 1], floor_coords),
        ));
    }
    let ghost body = event_views(events@);
    events.push(close_tag("svg"));
    assert(event_views(events@) =~= body + seq![document_close()]);
    Ok(events)
}

/// Hands the tags to `quick_xml::Writer::write_event`, one after the
/// other, on a writer made by `quick_xml::Writer::new_with_indent`, and
/// takes the bytes written by `quick_xml::Writer::into_inner`.
///
/// Trusted: writing succeeds, and the bytes are a function of the tags and
/// of the indent alone. The writer fails only where its sink fails, and
/// the sink is a vector of bytes, which takes all that is written to it.
/// The writer keeps its indent as text and cuts it by bytes, so the indent
/// has to be a character of one byte; it adds the size of the indent for
/// every open element, so that a small size keeps the sum in range for
/// every list that fits into memory.
#[verifier::external_body]
pub(crate) fn write_events(events: &Vec<MarkupEvent>, indent: u8, indent_size: usize) -> (out:
    Result<Vec<u8>, std::io::Error>)
    requires
        indent < 0x80,
        indent_size <= 16,
    ensures
        out is Ok,
        out->Ok_0@ == xml_bytes(event_views(events@), indent, indent_size),
{
    let mut writer = quick_xml::Writer::new_with_indent(Vec::new(), indent, indent_size);
    for event in events {
        let pairs = event.attributes.iter().map(|a| (a.name.as_str(), a.value.as_str()));
        let tag = quick_xml::events::BytesStart::new(event.name.as_str()).with_attributes(pairs);
        writer.write_event(match event.kind {
            TagKind::Open => quick_xml::events::Event::Start(tag),
            TagKind::Empty => quick_xml::events::Event::Empty(tag),
            TagKind::Close => quick_xml::events::Event::End(tag.to_end()),
        })?;
    }
    Ok(writer.into_inner())
}

/// Writes the tags as markup, indented by four spaces for every open
/// element.
pub fn write_markup(events: &Vec<MarkupEvent>) -> (out: Result<Vec<u8>, DocumentError>)
    ensures
        out is Ok,
        out->Ok_0@ == xml_bytes(event_views(events@), INDENT, INDENT_SIZE),
{
    match write_events(events, INDENT, INDENT_SIZE) {
        Ok(bytes) => Ok(bytes),
        Err(_) => Err(DocumentError::Write),
    }
}

/// Writes the document of a sheet as markup. The document is written
/// exactly when the geometry holds one position for every placement.
pub fn render_document(
    symbols: &Vec<Symbol>,
    placements: &Vec<Placement>,
    geometry: &Geometry,
    floor_coords: bool,
) -> (out: Result<Vec<u8>, DocumentError>)
    ensures
        geometry.positions@.len() != placements@.len() ==> out == Err::<Vec<u8>, DocumentError>(
            DocumentError::PositionCount,
        ),
        geometry.positions@.len() == placements@.len() ==> out is Ok && out->Ok_0@ == xml_bytes(
            document_model(symbols@, placements@, *geometry, floor_coords),
            INDENT,
            INDENT_SIZE,
        ),
{
    match document_events(symbols, placements, geometry, floor_coords) {
        Ok(events) => write_markup(&events),
        Err(e) => Err(e),
    }
}

} // verus!
