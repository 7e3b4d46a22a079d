use fonttest_swash_harness::numeral::floor_numeral;
use fonttest_swash_harness::path::{outline_to_svg_path, PathCommand, Point};

fn point(x: &str, y: &str) -> Point {
    Point { x: x.to_string(), y: y.to_string() }
}

fn square() -> Vec<PathCommand> {
    vec![
        PathCommand::MoveTo(point("0", "0")),
        PathCommand::LineTo(point("10.5", "0")),
        PathCommand::LineTo(point("10.5", "-10.25")),
        PathCommand::LineTo(point("0", "-10.25")),
        PathCommand::Close,
    ]
}

#[test]
fn empty_outline_is_the_empty_path() {
    assert_eq!(outline_to_svg_path(&vec![], true), "");
    assert_eq!(outline_to_svg_path(&vec![], false), "");
}

#[test]
fn commands_are_separated_by_single_spaces() {
    assert_eq!(
        outline_to_svg_path(&square(), false),
        "M0,0 L10.5,0 L10.5,-10.25 L0,-10.25 Z"
    );
}

#[test]
fn flooring_rounds_every_coordinate_down() {
    assert_eq!(outline_to_svg_path(&square(), true), "M0,0 L10,0 L10,-11 L0,-11 Z");
}

#[test]
fn curves_list_their_points() {
    let commands = vec![
        PathCommand::MoveTo(point("1.5", "2.5")),
        PathCommand::CurveTo(point("1", "2"), point("3.9", "4"), point("-5.1", "6")),
        PathCommand::QuadTo(point("7", "8.75"), point("9", "-0.5")),
        PathCommand::Close,
    ];
    assert_eq!(
        outline_to_svg_path(&commands, false),
        "M1.5,2.5 C1,2 3.9,4 -5.1,6 Q7,8.75 9,-0.5 Z"
    );
    assert_eq!(outline_to_svg_path(&commands, true), "M1,2 C1,2 3,4 -6,6 Q7,8 9,-1 Z");
}

#[test]
fn single_command_has_no_space() {
    assert_eq!(outline_to_svg_path(&vec![PathCommand::Close], true), "Z");
    assert_eq!(
        outline_to_svg_path(&vec![PathCommand::MoveTo(point("3.5", "4"))], true),
        "M3,4"
    );
}

#[test]
fn path_has_no_space_at_its_ends() {
    let path = outline_to_svg_path(&square(), true);
    assert!(!path.starts_with(' '));
    assert!(!path.ends_with(' '));
}

#[test]
fn floor_of_numerals() {
    assert_eq!(floor_numeral("12.5"), "12");
    assert_eq!(floor_numeral("12"), "12");
    assert_eq!(floor_numeral("0.5"), "0");
    assert_eq!(floor_numeral("0"), "0");
    assert_eq!(floor_numeral("-0"), "-0");
    assert_eq!(floor_numeral("-0.5"), "-1");
    assert_eq!(floor_numeral("-3.25"), "-4");
    assert_eq!(floor_numeral("-3"), "-3");
    assert_eq!(floor_numeral("-2.0"), "-2");
    assert_eq!(floor_numeral("2.000"), "2");
    assert_eq!(floor_numeral("-9.5"), "-10");
    assert_eq!(floor_numeral("-99.999"), "-100");
    assert_eq!(floor_numeral("-199.5"), "-200");
    assert_eq!(floor_numeral("-1099.01"), "-1100");
    assert_eq!(floor_numeral("0.0000001"), "0");
    assert_eq!(floor_numeral("-0.0000001"), "-1");
    assert_eq!(floor_numeral("340282350000000000000000000000000000000"), "340282350000000000000000000000000000000");
}

#[test]
fn text_that_is_no_numeral_stays() {
    for text in ["", "-", ".", "NaN", "inf", "-inf", "1.", ".5", "1.5.2", "1e5", "+3.5", "1.5x", "12 "] {
        assert_eq!(floor_numeral(text), text);
    }
}

#[test]
fn flooring_twice_is_flooring_once() {
    for text in ["12.5", "-3.25", "-0.5", "-0", "7", "NaN", "-99.9", "x", "-9.0"] {
        let once = floor_numeral(text);
        assert_eq!(floor_numeral(&once), once);
    }
    let floored = outline_to_svg_path(&square(), true);
    let again = vec![
        PathCommand::MoveTo(point("0", "0")),
        PathCommand::LineTo(point("10", "0")),
        PathCommand::LineTo(point("10", "-11")),
        PathCommand::LineTo(point("0", "-11")),
        PathCommand::Close,
    ];
    assert_eq!(outline_to_svg_path(&again, true), floored);
    assert_eq!(outline_to_svg_path(&again, false), floored);
}

#[test]
fn floor_of_text_agrees_with_floor_of_the_number() {
    let values: [f32; 22] = [
        0.0, -0.0, 0.5, -0.5, 1.0, -1.0, 1.5, -1.5, 9.99, -9.99, 99.5, -99.5, 1000.25, -1000.25,
        0.000001, -0.000001, 16777216.0, -16777216.0, 8388607.5, -8388607.5, 3.0e20, -3.0e20,
    ];
    for v in values {
        assert_eq!(floor_numeral(&v.to_string()), v.floor().to_string());
    }
    for v in [f32::NAN, f32::INFINITY, f32::NEG_INFINITY, f32::MAX, f32::MIN, f32::MIN_POSITIVE] {
        assert_eq!(floor_numeral(&v.to_string()), v.floor().to_string());
    }
    let mut v: f32 = -2050.0;
    while v < 2050.0 {
        assert_eq!(floor_numeral(&v.to_string()), v.floor().to_string());
        v += 0.37;
    }
}
