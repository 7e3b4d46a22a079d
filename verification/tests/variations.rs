use fonttest_swash_harness::numeral::writes_number;
use fonttest_swash_harness::variation::{parse_variations, split_text, Variation, VariationError};

fn plain(settings: &[Variation]) -> Vec<(u32, &str)> {
    settings.iter().map(|v| (v.tag, v.value.as_str())).collect()
}

fn tag(name: &[u8; 4]) -> u32 {
    u32::from_be_bytes(*name)
}

#[test]
fn pairs_are_read_in_order() {
    let settings = parse_variations("wght:700;wdth:80").unwrap();
    assert_eq!(plain(&settings), vec![(tag(b"wght"), "700"), (tag(b"wdth"), "80")]);
    assert_eq!(settings[0].tag, 0x7767_6874);
}

#[test]
fn single_pair() {
    let settings = parse_variations("opsz:12.5").unwrap();
    assert_eq!(plain(&settings), vec![(tag(b"opsz"), "12.5")]);
}

#[test]
fn short_tags_are_padded_with_spaces() {
    let settings = parse_variations("wg:1;:2;a:-3").unwrap();
    assert_eq!(plain(&settings), vec![(tag(b"wg  "), "1"), (tag(b"    "), "2"), (tag(b"a   "), "-3")]);
}

#[test]
fn long_tags_are_cut_after_four_bytes() {
    let settings = parse_variations("weight:400").unwrap();
    assert_eq!(plain(&settings), vec![(tag(b"weig"), "400")]);
    let settings = parse_variations("a\u{e9}bc:1").unwrap();
    assert_eq!(plain(&settings), vec![(u32::from_be_bytes([b'a', 0xc3, 0xa9, b'b']), "1")]);
}

fn fault(text: &str) -> (Option<String>, Option<String>) {
    match parse_variations(text) {
        Ok(settings) => panic!("{:?}", settings),
        Err(VariationError::MissingSeparator { pair }) => (Some(pair), None),
        Err(VariationError::NotANumber { value }) => (None, Some(value)),
    }
}

#[test]
fn pair_is_split_at_its_first_colon() {
    assert_eq!(fault("wght:7:00"), (None, Some("7:00".to_string())));
    let settings = parse_variations("a:b:1").map(|s| s.len());
    assert_eq!(settings.ok(), None);
}

#[test]
fn values_are_kept_as_written() {
    let settings = parse_variations("wght:+7.50e1;wdth:.5;slnt:-12.;ital:1E2").unwrap();
    assert_eq!(
        plain(&settings),
        vec![(tag(b"wght"), "+7.50e1"), (tag(b"wdth"), ".5"), (tag(b"slnt"), "-12."), (tag(b"ital"), "1E2")]
    );
    for setting in &settings {
        assert!(setting.value.parse::<f32>().is_ok());
    }
}

#[test]
fn pair_without_colon_is_an_error() {
    assert_eq!(fault("wght:700;wdth80;slnt:1"), (Some("wdth80".to_string()), None));
    assert_eq!(fault("wght"), (Some("wght".to_string()), None));
}

#[test]
fn value_that_is_no_number_is_an_error() {
    assert_eq!(fault("wght:bold"), (None, Some("bold".to_string())));
    assert_eq!(fault("wght:"), (None, Some("".to_string())));
    assert_eq!(fault("wght: 700"), (None, Some(" 700".to_string())));
    assert_eq!(fault("wght:700;wdth:8o"), (None, Some("8o".to_string())));
}

#[test]
fn first_fault_is_reported() {
    assert_eq!(fault("wght:x;wdth80"), (None, Some("x".to_string())));
    assert_eq!(fault("wdth80;wght:x"), (Some("wdth80".to_string()), None));
    assert_eq!(fault("a:1;b:2;c;d:x"), (Some("c".to_string()), None));
}

#[test]
fn empty_text_is_one_pair_without_colon() {
    assert_eq!(fault(""), (Some("".to_string()), None));
}

#[test]
fn trailing_semicolon_leaves_an_empty_pair() {
    assert_eq!(fault("wght:700;"), (Some("".to_string()), None));
}

#[test]
fn words_are_no_numbers() {
    for word in [
        "nan", "NaN", "NAN", "-nan", "+nan", "inf", "Inf", "INF", "-inf", "+inf", "infinity",
        "Infinity", "-INFINITY", "+infinity",
    ] {
        assert!(!writes_number(word), "{:?}", word);
        assert_eq!(fault(&format!("wght:{word}")), (None, Some(word.to_string())));
        assert_eq!(fault(&format!("wght:1;wdth:{word};slnt:2")), (None, Some(word.to_string())));
    }
    assert_eq!(fault("wght:nan"), (None, Some("nan".to_string())));
}

#[test]
fn decimal_numbers_are_what_the_standard_library_reads_as_numbers() {
    let texts = [
        "", "0", "7", "700", "-700", "+700", "12.5", "12.", ".5", ".", "-.5", "+.5e3", "1e5",
        "1E5", "1e+5", "1e-5", "1e", "1e+", "e5", "1.5e10", "1.e2", ".e2", "1e5.5", "1.2.3",
        "--1", "+-1", "1-", "1+1", "infinit", "infinityy", "in", "nana", "na",
        " 1", "1 ", "1_000", "0x10", "1f", "1.0f32", "\u{661}", "1\u{e9}", "\u{130}nf",
        "007", "-0", "-0.0", "1e0007", "123456789012345678901234567890", "1e999", "-", "+",
        "e", "E", "+e1", "1ee1", "1e1e1", "NaN1", "inf.", ".inf", "i", "1,5",
    ];
    for text in texts {
        assert_eq!(writes_number(text), text.parse::<f32>().is_ok(), "{:?}", text);
    }
}

#[test]
fn messages_of_variation_errors() {
    let message = |text: &str| parse_variations(text).unwrap_err().message();
    assert_eq!(message("wght700"), "invalid variation string: wght700");
    assert_eq!(message("wght:700;wdth80;slnt:1"), "invalid variation string: wdth80");
    assert_eq!(message(""), "invalid variation string: ");
    assert_eq!(message("wght:bold"), "invalid float literal");
    assert_eq!(message("wght:nan"), "invalid float literal");
    assert_eq!(message("wght:"), "cannot parse float from empty string");
    let direct = VariationError::MissingSeparator { pair: "a;b".to_string() };
    assert_eq!(direct.message(), "invalid variation string: a;b");
}

#[test]
fn messages_are_those_of_the_number_parser_where_it_fails() {
    for value in ["", "bold", " 700", "8o", "1e", "7:00"] {
        let expected = value.parse::<f32>().unwrap_err().to_string();
        let error = VariationError::NotANumber { value: value.to_string() };
        assert_eq!(error.message(), expected);
    }
}

#[test]
fn text_is_split_like_the_standard_library_splits_it() {
    for text in ["", ";", "a", "a;b", ";a;;b;", "wght:700;wdth:80", ";;;", "\u{e9};\u{5d0}"] {
        let expected: Vec<String> = text.split(';').map(|s| s.to_string()).collect();
        assert_eq!(split_text(text, ';'), expected);
    }
    assert_eq!(split_text("a:b:c", ':'), vec!["a", "b", "c"]);
}
