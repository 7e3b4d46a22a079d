use fonttest_swash_harness::path::{PathCommand, Point};
use fonttest_swash_harness::segment::segment;
use fonttest_swash_harness::script::Script;
use fonttest_swash_harness::sheet::{CacheEntry, Glyph, Sheet};
use fonttest_swash_harness::visual::visual_order;

fn point(x: &str, y: &str) -> Point {
    Point { x: x.to_string(), y: y.to_string() }
}

fn square(size: &str) -> Vec<PathCommand> {
    vec![
        PathCommand::MoveTo(point("0", "0")),
        PathCommand::LineTo(point(size, "0")),
        PathCommand::LineTo(point(size, size)),
        PathCommand::LineTo(point("0", size)),
        PathCommand::Close,
    ]
}

/// A shaped glyph as a shaper hands it out.
#[derive(Clone, Copy, Debug, PartialEq)]
struct Shaped {
    id: u16,
    x: f32,
    y: f32,
    advance: f32,
    is_mark: bool,
}

const A: Shaped = Shaped { id: 5, x: 0.0, y: 0.0, advance: 600.5, is_mark: false };
const B: Shaped = Shaped { id: 7, x: 0.0, y: 0.0, advance: 650.25, is_mark: false };
const SPACE: Shaped = Shaped { id: 3, x: 0.0, y: 0.0, advance: 250.0, is_mark: false };
const ACCENT: Shaped = Shaped { id: 9, x: -120.0, y: 40.0, advance: 0.0, is_mark: true };
const ALEF: Shaped = Shaped { id: 20, x: 0.0, y: 0.0, advance: 500.0, is_mark: false };
const BET: Shaped = Shaped { id: 21, x: 0.0, y: 0.0, advance: 520.0, is_mark: false };

/// The outlines of a font with the glyphs above; the space has none.
fn outline(id: u16) -> Option<Vec<PathCommand>> {
    match id {
        5 => Some(square("10")),
        7 => Some(square("20")),
        9 => Some(square("3")),
        20 => Some(square("30")),
        21 => Some(square("40")),
        _ => None,
    }
}

fn name(id: u16) -> Option<String> {
    match id {
        5 => Some("A".to_string()),
        7 => Some("B".to_string()),
        _ => None,
    }
}

/// Puts the glyphs on the sheet and counts how often the font is asked.
fn place_all(sheet: &mut Sheet, glyphs: &[Shaped]) -> usize {
    let mut asked = 0;
    for shaped in glyphs {
        let fresh = if sheet.needs_outline(shaped.id) {
            asked += 1;
            outline(shaped.id)
        } else {
            None
        };
        let label = if fresh.is_some() { name(shaped.id) } else { None };
        sheet.place(Glyph { id: shaped.id, is_mark: shaped.is_mark }, fresh.as_ref(), label);
    }
    asked
}

/// Where the pen stands after the first `count` glyphs.
fn pen(glyphs: &[Shaped], count: usize) -> f32 {
    let mut at = 0.0;
    for shaped in &glyphs[..count] {
        at += shaped.advance;
    }
    at
}

fn hrefs(sheet: &Sheet) -> Vec<&str> {
    sheet.placements().iter().map(|p| p.href.as_str()).collect()
}

fn symbol_ids(sheet: &Sheet) -> Vec<&str> {
    sheet.symbols().iter().map(|s| s.id.as_str()).collect()
}

#[test]
fn new_sheet_is_empty() {
    let sheet = Sheet::new("case", true);
    assert_eq!(sheet.testcase(), "case");
    assert!(sheet.floor_coords());
    assert!(sheet.stream().is_empty());
    assert!(sheet.symbols().is_empty());
    assert!(sheet.placements().is_empty());
    assert_eq!(sheet.entry(5), None);
    assert_eq!(sheet.width_glyphs(), 0);
    assert!(sheet.needs_outline(5));
}

#[test]
fn two_glyphs_make_two_symbols_and_two_placements() {
    let glyphs = [A, B];
    let mut sheet = Sheet::new("tc", true);
    assert_eq!(place_all(&mut sheet, &glyphs), 2);
    assert_eq!(symbol_ids(&sheet), vec!["tc.A", "tc.B"]);
    assert_eq!(hrefs(&sheet), vec!["#tc.A", "#tc.B"]);
    assert_eq!(sheet.symbols()[0].path, "M0,0 L10,0 L10,10 L0,10 Z");
    assert_eq!(sheet.symbols()[1].path, "M0,0 L20,0 L20,20 L0,20 Z");
    assert_eq!(sheet.placements()[0].glyph_index, 0);
    assert_eq!(sheet.placements()[1].glyph_index, 1);
    assert_eq!(sheet.placements()[0].symbol, 0);
    assert_eq!(sheet.placements()[1].symbol, 1);
    assert_eq!(sheet.stream().len(), 2);
    assert_eq!(pen(&glyphs, sheet.stream().len()), A.advance + B.advance);
    assert_eq!(sheet.width_glyphs(), 2);
}

#[test]
fn text_ab_is_one_run_with_two_placements() {
    let latin = Script { tag: u32::from_be_bytes(*b"latn") };
    let runs = segment("AB", &vec![0, 0], &vec![latin, latin]);
    assert_eq!(runs.len(), 1);
    let glyphs = visual_order(&vec![vec![A], vec![B]], runs[0].is_rtl());
    let mut sheet = Sheet::new("tc", true);
    place_all(&mut sheet, &glyphs);
    assert_eq!(sheet.symbols().len(), 2);
    assert_eq!(sheet.placements().len(), 2);
    assert!(sheet.placements()[0].symbol != sheet.placements()[1].symbol);
    assert_eq!(pen(&glyphs, 2), 1250.75);
}

#[test]
fn repeated_glyph_shares_one_symbol() {
    let glyphs = [A, A];
    let mut sheet = Sheet::new("tc", true);
    assert_eq!(place_all(&mut sheet, &glyphs), 1);
    assert_eq!(symbol_ids(&sheet), vec!["tc.A"]);
    assert_eq!(hrefs(&sheet), vec!["#tc.A", "#tc.A"]);
    assert_eq!(sheet.placements()[0].symbol, 0);
    assert_eq!(sheet.placements()[1].symbol, 0);
    let x0 = pen(&glyphs, sheet.placements()[0].glyph_index) + A.x;
    let x1 = pen(&glyphs, sheet.placements()[1].glyph_index) + A.x;
    assert_eq!(x0, 0.0);
    assert_eq!(x1, A.advance);
}

#[test]
fn glyph_without_outline_is_not_placed_but_moves_the_pen() {
    let glyphs = [A, SPACE, B, SPACE];
    let mut sheet = Sheet::new("tc", true);
    assert_eq!(place_all(&mut sheet, &glyphs), 3);
    assert_eq!(symbol_ids(&sheet), vec!["tc.A", "tc.B"]);
    assert_eq!(hrefs(&sheet), vec!["#tc.A", "#tc.B"]);
    assert_eq!(sheet.placements()[1].glyph_index, 2);
    assert_eq!(pen(&glyphs, sheet.placements()[1].glyph_index), A.advance + SPACE.advance);
    assert_eq!(sheet.stream().len(), 4);
    assert_eq!(sheet.width_glyphs(), 4);
    assert_eq!(sheet.entry(3), Some(CacheEntry::NoOutline));
    assert_eq!(sheet.entry(5), Some(CacheEntry::Symbol(0)));
    assert_eq!(sheet.entry(7), Some(CacheEntry::Symbol(1)));
    assert_eq!(sheet.entry(9), None);
}

#[test]
fn place_answers_with_the_reference() {
    let mut sheet = Sheet::new("tc", true);
    let a = Glyph { id: 5, is_mark: false };
    let space = Glyph { id: 3, is_mark: false };
    assert_eq!(sheet.place(a, Some(&square("10")), Some("A".to_string())), Some("#tc.A".to_string()));
    assert_eq!(sheet.place(space, None, None), None);
    assert_eq!(sheet.place(a, None, None), Some("#tc.A".to_string()));
    assert_eq!(sheet.place(space, Some(&square("1")), Some("late".to_string())), None);
    assert_eq!(sheet.place(a, Some(&square("99")), Some("other".to_string())), Some("#tc.A".to_string()));
    assert_eq!(sheet.symbols().len(), 1);
    assert_eq!(sheet.symbols()[0].path, "M0,0 L10,0 L10,10 L0,10 Z");
    assert_eq!(sheet.placements().len(), 3);
}

#[test]
fn unnamed_glyph_is_labelled_by_its_number() {
    let mut sheet = Sheet::new("case", false);
    sheet.place(Glyph { id: 9, is_mark: true }, Some(&square("3.5")), None);
    sheet.place(Glyph { id: 0, is_mark: false }, Some(&square("1")), None);
    sheet.place(Glyph { id: 65535, is_mark: false }, Some(&square("2")), None);
    sheet.place(Glyph { id: 1203, is_mark: false }, Some(&square("2")), None);
    assert_eq!(symbol_ids(&sheet), vec!["case.gid9", "case.gid0", "case.gid65535", "case.gid1203"]);
    assert_eq!(hrefs(&sheet), vec!["#case.gid9", "#case.gid0", "#case.gid65535", "#case.gid1203"]);
    assert_eq!(sheet.symbols()[0].path, "M0,0 L3.5,0 L3.5,3.5 L0,3.5 Z");
}

#[test]
fn trailing_marks_do_not_widen_the_line() {
    let glyphs = [A, ACCENT, B, ACCENT, ACCENT];
    let mut sheet = Sheet::new("tc", true);
    place_all(&mut sheet, &glyphs);
    assert_eq!(sheet.width_glyphs(), 3);
    assert_eq!(sheet.stream().len(), 5);
    assert_eq!(sheet.placements().len(), 5);
    assert_eq!(pen(&glyphs, sheet.width_glyphs()), A.advance + B.advance);
    assert!(pen(&glyphs, sheet.width_glyphs()) <= pen(&glyphs, sheet.stream().len()));
}

#[test]
fn line_of_marks_alone_has_no_width() {
    let glyphs = [ACCENT, ACCENT];
    let mut sheet = Sheet::new("tc", true);
    place_all(&mut sheet, &glyphs);
    assert_eq!(sheet.width_glyphs(), 0);
    assert_eq!(sheet.placements().len(), 2);
}

#[test]
fn symbols_stand_in_the_order_of_first_occurrence() {
    let glyphs = [B, SPACE, A, B, ACCENT, A, ALEF, ACCENT];
    let mut sheet = Sheet::new("tc", true);
    assert_eq!(place_all(&mut sheet, &glyphs), 5);
    let drawn: Vec<u16> = sheet.symbols().iter().map(|s| s.glyph).collect();
    assert_eq!(drawn, vec![7, 5, 9, 20]);
    let placed: Vec<usize> = sheet.placements().iter().map(|p| p.glyph_index).collect();
    assert_eq!(placed, vec![0, 2, 3, 4, 5, 6, 7]);
    let symbols: Vec<usize> = sheet.placements().iter().map(|p| p.symbol).collect();
    assert_eq!(symbols, vec![0, 1, 0, 2, 1, 3, 2]);
}

#[test]
fn pen_never_moves_back() {
    let glyphs = [B, SPACE, A, B, ACCENT, A, ALEF, ACCENT];
    let mut sheet = Sheet::new("tc", true);
    let mut last = 0.0;
    for (i, shaped) in glyphs.iter().enumerate() {
        let fresh = if sheet.needs_outline(shaped.id) { outline(shaped.id) } else { None };
        sheet.place(Glyph { id: shaped.id, is_mark: shaped.is_mark }, fresh.as_ref(), None);
        let now = pen(&glyphs, sheet.stream().len());
        assert!(last <= now);
        assert!(pen(&glyphs, sheet.width_glyphs()) <= now);
        assert_eq!(sheet.stream().len(), i + 1);
        last = now;
    }
}

#[test]
fn right_to_left_run_is_placed_backwards() {
    let latin = Script { tag: u32::from_be_bytes(*b"latn") };
    let hebrew = Script { tag: u32::from_be_bytes(*b"hebr") };
    let runs = segment("A\u{5d0}\u{5d1}A", &vec![0, 1, 1, 0], &vec![latin, hebrew, hebrew, latin]);
    assert_eq!(runs.len(), 3);
    let shaped = vec![vec![vec![A]], vec![vec![ALEF], vec![BET]], vec![vec![A]]];
    let mut line: Vec<Shaped> = Vec::new();
    for (run, clusters) in runs.iter().zip(shaped.iter()) {
        line.extend(visual_order(clusters, run.is_rtl()));
    }
    let ids: Vec<u16> = line.iter().map(|g| g.id).collect();
    assert_eq!(ids, vec![5, 21, 20, 5]);
    let mut sheet = Sheet::new("tc", true);
    place_all(&mut sheet, &line);
    assert_eq!(symbol_ids(&sheet), vec!["tc.A", "tc.gid21", "tc.gid20"]);
    assert_eq!(hrefs(&sheet), vec!["#tc.A", "#tc.gid21", "#tc.gid20", "#tc.A"]);
    assert_eq!(pen(&line, sheet.placements()[2].glyph_index), A.advance + BET.advance);
}
