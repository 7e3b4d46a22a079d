use fonttest_swash_harness::document::{
    document_events, metrics_scale, render_document, write_markup, Attribute, DocumentError, Geometry,
    MarkupEvent, TagKind,
};
use fonttest_swash_harness::path::{PathCommand, Point};
use fonttest_swash_harness::sheet::{Glyph, Sheet};

fn point(x: &str, y: &str) -> Point {
    Point { x: x.to_string(), y: y.to_string() }
}

fn sheet_of_aa() -> Sheet {
    let outline = vec![
        PathCommand::MoveTo(point("0.25", "0")),
        PathCommand::LineTo(point("10", "0")),
        PathCommand::LineTo(point("10", "-10.5")),
        PathCommand::Close,
    ];
    let mut sheet = Sheet::new("tc", true);
    sheet.place(Glyph { id: 5, is_mark: false }, Some(&outline), Some("A".to_string()));
    sheet.place(Glyph { id: 5, is_mark: false }, None, None);
    sheet
}

fn geometry_of_aa() -> Geometry {
    Geometry {
        min_y: "-200.5".to_string(),
        width: "1200.75".to_string(),
        height: "1000".to_string(),
        positions: vec![point("0", "0"), point("600.375", "-0.5")],
    }
}

fn plain(events: &[MarkupEvent]) -> Vec<(TagKind, String, Vec<(String, String)>)> {
    events
        .iter()
        .map(|e| {
            (
                e.kind,
                e.name.clone(),
                e.attributes.iter().map(|a| (a.name.clone(), a.value.clone())).collect(),
            )
        })
        .collect()
}

fn pair(name: &str, value: &str) -> (String, String) {
    (name.to_string(), value.to_string())
}

#[test]
fn document_lists_symbols_then_references() {
    let sheet = sheet_of_aa();
    let events =
        document_events(sheet.symbols(), sheet.placements(), &geometry_of_aa(), true).unwrap();
    assert_eq!(
        plain(&events),
        vec![
            (
                TagKind::Open,
                "svg".to_string(),
                vec![
                    pair("version", "1.1"),
                    pair("xmlns", "http://www.w3.org/2000/svg"),
                    pair("xmlns:xlink", "http://www.w3.org/1999/xlink"),
                    pair("viewBox", "0 -201 1200 1000"),
                ]
            ),
            (
                TagKind::Open,
                "symbol".to_string(),
                vec![pair("id", "tc.A"), pair("overflow", "visible")]
            ),
            (TagKind::Empty, "path".to_string(), vec![pair("d", "M0,0 L10,0 L10,-11 Z")]),
            (TagKind::Close, "symbol".to_string(), vec![]),
            (
                TagKind::Empty,
                "use".to_string(),
                vec![pair("xlink:href", "#tc.A"), pair("x", "0"), pair("y", "0")]
            ),
            (
                TagKind::Empty,
                "use".to_string(),
                vec![pair("xlink:href", "#tc.A"), pair("x", "600"), pair("y", "-1")]
            ),
            (TagKind::Close, "svg".to_string(), vec![]),
        ]
    );
}

#[test]
fn numerals_stay_as_they_are_without_flooring() {
    let sheet = sheet_of_aa();
    let events =
        document_events(sheet.symbols(), sheet.placements(), &geometry_of_aa(), false).unwrap();
    let plain = plain(&events);
    assert_eq!(plain[0].2[3], pair("viewBox", "0 -200.5 1200.75 1000"));
    assert_eq!(plain[5].2, vec![pair("xlink:href", "#tc.A"), pair("x", "600.375"), pair("y", "-0.5")]);
}

#[test]
fn empty_sheet_is_an_empty_document() {
    let sheet = Sheet::new("tc", true);
    let geometry = Geometry {
        min_y: "-200".to_string(),
        width: "0".to_string(),
        height: "1000".to_string(),
        positions: vec![],
    };
    let events = document_events(sheet.symbols(), sheet.placements(), &geometry, true).unwrap();
    assert_eq!(events.len(), 2);
    assert_eq!(events[0].kind, TagKind::Open);
    assert_eq!(events[1].kind, TagKind::Close);
    let bytes = render_document(sheet.symbols(), sheet.placements(), &geometry, true).unwrap();
    assert_eq!(
        String::from_utf8(bytes).unwrap(),
        "<svg version=\"1.1\" xmlns=\"http://www.w3.org/2000/svg\" xmlns:xlink=\"http://www.w3.org/1999/xlink\" viewBox=\"0 -200 0 1000\">\n</svg>"
    );
}

#[test]
fn positions_must_match_the_placements() {
    let sheet = sheet_of_aa();
    let mut geometry = geometry_of_aa();
    geometry.positions.pop();
    assert_eq!(
        document_events(sheet.symbols(), sheet.placements(), &geometry, true).err(),
        Some(DocumentError::PositionCount)
    );
    assert_eq!(
        render_document(sheet.symbols(), sheet.placements(), &geometry, true).err(),
        Some(DocumentError::PositionCount)
    );
    geometry.positions.push(point("1", "1"));
    geometry.positions.push(point("2", "2"));
    assert_eq!(
        render_document(sheet.symbols(), sheet.placements(), &geometry, true).err(),
        Some(DocumentError::PositionCount)
    );
}

#[test]
fn document_is_written_with_an_indent_of_four() {
    let sheet = sheet_of_aa();
    let bytes =
        render_document(sheet.symbols(), sheet.placements(), &geometry_of_aa(), true).unwrap();
    let expected = "<svg version=\"1.1\" xmlns=\"http://www.w3.org/2000/svg\" xmlns:xlink=\"http://www.w3.org/1999/xlink\" viewBox=\"0 -201 1200 1000\">\n    <symbol id=\"tc.A\" overflow=\"visible\">\n        <path d=\"M0,0 L10,0 L10,-11 Z\"/>\n    </symbol>\n    <use xlink:href=\"#tc.A\" x=\"0\" y=\"0\"/>\n    <use xlink:href=\"#tc.A\" x=\"600\" y=\"-1\"/>\n</svg>";
    assert_eq!(String::from_utf8(bytes).unwrap(), expected);
}

#[test]
fn attribute_values_are_escaped_by_the_writer() {
    let events = vec![MarkupEvent {
        kind: TagKind::Empty,
        name: "use".to_string(),
        attributes: vec![Attribute { name: "id".to_string(), value: "a<b&\"c\"".to_string() }],
    }];
    let bytes = write_markup(&events).unwrap();
    assert_eq!(String::from_utf8(bytes).unwrap(), "<use id=\"a&lt;b&amp;&quot;c&quot;\"/>");
}

#[test]
fn metrics_are_scaled_by_the_units_per_em_of_unscaled_outlines() {
    assert_eq!(metrics_scale(true, 2048), 1);
    assert_eq!(metrics_scale(false, 2048), 2048);
    assert_eq!(metrics_scale(false, 1000), 1000);
    assert_eq!(metrics_scale(true, 0), 1);
}

#[test]
fn writing_never_fails() {
    assert_eq!(write_markup(&vec![]).unwrap(), Vec::<u8>::new());
    let mut events = Vec::new();
    for _ in 0..40 {
        events.push(MarkupEvent { kind: TagKind::Open, name: "g".to_string(), attributes: vec![] });
    }
    for _ in 0..45 {
        events.push(MarkupEvent { kind: TagKind::Close, name: "g".to_string(), attributes: vec![] });
    }
    let text = String::from_utf8(write_markup(&events).unwrap()).unwrap();
    assert!(text.starts_with("<g>\n    <g>\n        <g>"));
    assert!(text.ends_with("\n</g>\n</g>"));
    let lines: Vec<&str> = text.lines().collect();
    assert_eq!(lines.len(), 85);
    assert_eq!(lines[39], format!("{}<g>", " ".repeat(156)));
}
