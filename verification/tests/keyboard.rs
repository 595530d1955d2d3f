use oxeylyzer_core::keyboard::PARSE_ERROR;
use oxeylyzer_core::utility::base_effort;
use oxeylyzer_core::utility::describe_parse_error;
use oxeylyzer_core::utility::KeyboardType;

fn parse(text: &str) -> Result<KeyboardType, String> {
    KeyboardType::try_from(text.to_string())
}

fn refused(text: &str) -> Result<KeyboardType, String> {
    Err(format!("Couldn't parse keyboard type! \"{}\"", text))
}

#[test]
fn single_words_name_a_type() {
    assert_eq!(parse("ortho"), Ok(KeyboardType::Ortho));
    assert_eq!(parse("colstag"), Ok(KeyboardType::Colstag));
    assert_eq!(parse("rowstag"), Ok(KeyboardType::RowstagDefault));
    assert_eq!(parse("iso"), Ok(KeyboardType::RowstagDefault));
    assert_eq!(parse("ansi"), Ok(KeyboardType::RowstagDefault));
    assert_eq!(parse("jis"), Ok(KeyboardType::RowstagDefault));
}

#[test]
fn two_words_name_an_angle_mod() {
    assert_eq!(parse("ansi angle"), Ok(KeyboardType::AnsiAngle));
    assert_eq!(parse("iso angle"), Ok(KeyboardType::IsoAngle));
    assert_eq!(parse("ANSI Angle"), Ok(KeyboardType::AnsiAngle));
}

#[test]
fn case_and_whitespace_do_not_matter() {
    assert_eq!(parse("ORTHO"), Ok(KeyboardType::Ortho));
    assert_eq!(parse("  ColStag\n"), Ok(KeyboardType::Colstag));
    assert_eq!(parse("\tIso \t  ANGLE  "), Ok(KeyboardType::IsoAngle));
    assert_eq!(parse("ansi\u{3000}angle"), Ok(KeyboardType::AnsiAngle));
}

#[test]
fn other_text_is_a_parse_error_that_quotes_it() {
    assert_eq!(parse("qwerty"), Err("Couldn't parse keyboard type! \"qwerty\"".to_string()));
    assert_eq!(parse("qwerty").unwrap_err(), describe_parse_error("qwerty"));
    assert!(parse("qwerty").unwrap_err().starts_with(PARSE_ERROR));
    assert!(parse("qwerty").unwrap_err().contains("\"qwerty\""));
    for text in [
        "",
        "   ",
        "angle",
        "ortho angle",
        "angle ansi",
        "ansiangle",
        "iso angle mod",
        "jis angle",
        "orthoo",
        "  QWERTY\t",
        "ansi\u{200b}angle",
    ] {
        assert_eq!(parse(text), refused(text));
    }
}

#[test]
fn a_parse_error_is_described_with_the_text_in_quotes() {
    assert_eq!(describe_parse_error("qwerty"), "Couldn't parse keyboard type! \"qwerty\"");
    assert_eq!(describe_parse_error(""), "Couldn't parse keyboard type! \"\"");
    assert_eq!(describe_parse_error("ANSI  angel"), "Couldn't parse keyboard type! \"ANSI  angel\"");
}

#[test]
fn words_are_read_as_given() {
    assert_eq!(KeyboardType::from_words(&["ortho"]), Some(KeyboardType::Ortho));
    assert_eq!(KeyboardType::from_words(&["Ortho"]), None);
    assert_eq!(KeyboardType::from_words(&["iso", "angle"]), Some(KeyboardType::IsoAngle));
    assert_eq!(KeyboardType::from_words(&["iso angle"]), None);
    assert_eq!(KeyboardType::from_words(&[]), None);
    assert_eq!(KeyboardType::from_words(&["ansi", "angle", "angle"]), None);
}

#[test]
fn ortho_effort_starts_at_three() {
    let tenths = base_effort(KeyboardType::Ortho);
    assert_eq!(tenths.len(), 30);
    assert_eq!(tenths[0], 30);
    let first = (tenths[0] as f64 / 10.0 - 0.2) / 4.5;
    assert_eq!(first, (3.0 - 0.2) / 4.5);
    assert!((first - 0.6222222222222222).abs() < 1e-12);
}

#[test]
fn effort_tables_by_type() {
    assert_eq!(
        base_effort(KeyboardType::IsoAngle),
        [
            31, 26, 20, 22, 24, 33, 23, 20, 26, 31, 18, 13, 11, 10, 26, 26, 10, 11, 13, 18, 33,
            28, 24, 18, 22, 22, 18, 24, 28, 33
        ]
    );
    assert_eq!(
        base_effort(KeyboardType::AnsiAngle),
        [
            30, 26, 20, 22, 24, 33, 23, 20, 26, 30, 18, 13, 11, 10, 26, 26, 10, 11, 13, 18, 37,
            28, 24, 18, 22, 22, 18, 24, 28, 33
        ]
    );
    assert_eq!(
        base_effort(KeyboardType::RowstagDefault),
        [
            30, 26, 20, 22, 24, 33, 23, 20, 26, 30, 18, 13, 11, 10, 26, 26, 10, 11, 13, 18, 35,
            30, 27, 23, 37, 22, 18, 24, 28, 33
        ]
    );
    assert_eq!(
        base_effort(KeyboardType::Ortho),
        [
            30, 26, 20, 22, 31, 31, 22, 20, 26, 30, 17, 13, 11, 10, 26, 26, 10, 11, 13, 17, 32,
            28, 23, 16, 30, 30, 16, 23, 28, 32
        ]
    );
    assert_eq!(
        base_effort(KeyboardType::Colstag),
        [
            30, 26, 20, 22, 31, 31, 22, 20, 26, 30, 17, 13, 11, 10, 26, 26, 10, 11, 13, 17, 34,
            26, 22, 18, 32, 32, 18, 22, 26, 34
        ]
    );
}

#[test]
fn tenths_stand_for_the_written_efforts() {
    let written = [3.0, 2.6, 2.0, 2.2, 3.1, 3.1, 2.2, 2.0, 2.6, 3.0];
    let tenths = base_effort(KeyboardType::Colstag);
    for i in 0..10 {
        assert_eq!(tenths[i] as f64 / 10.0, written[i]);
    }
}

#[test]
fn effort_scales_with_the_weight() {
    for ktype in [KeyboardType::Ortho, KeyboardType::IsoAngle] {
        let tenths = base_effort(ktype);
        for weight in [0.0, 0.5, 1.0, 2.75] {
            for i in 0..30 {
                let unit = (tenths[i] as f64 / 10.0 - 0.2) / 4.5 * 1.0;
                let scaled = (tenths[i] as f64 / 10.0 - 0.2) / 4.5 * weight;
                assert_eq!(scaled, unit * weight);
            }
        }
    }
}
