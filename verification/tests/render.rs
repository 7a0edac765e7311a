use unicode_lookup::render::parse_code_point;
use unicode_lookup::render::render_line;

#[test]
fn renders_capital_a() {
    let line = render_line("0041", "LATIN CAPITAL LETTER A");
    assert_eq!(line, "A   | 0041 LATIN CAPITAL LETTER A");
}

#[test]
fn renders_noncharacter_glyph() {
    let line = render_line("FFFF", "<noncharacter-FFFF>");
    let first = line.chars().next().unwrap();
    assert_eq!(first, '\u{FFFF}');
    assert_ne!(first, '?');
}

#[test]
fn invalid_hex_renders_question_mark() {
    let line = render_line("XYZ", "NOT A CODE POINT");
    assert_eq!(line, "?   | XYZ NOT A CODE POINT");
}

#[test]
fn surrogate_renders_question_mark() {
    let line = render_line("D800", "SURROGATE");
    assert_eq!(line, "?   | D800 SURROGATE");
}

#[test]
fn beyond_unicode_renders_question_mark() {
    assert_eq!(render_line("110000", "TOO BIG"), "?   | 110000 TOO BIG");
    assert_eq!(
        render_line("FFFFFFFFF", "PAST THIRTY-TWO BITS"),
        "?   | FFFFFFFFF PAST THIRTY-TWO BITS"
    );
}

#[test]
fn empty_code_renders_question_mark() {
    assert_eq!(render_line("", ""), "?   |  ");
}

#[test]
fn null_scalar_renders_itself() {
    let line = render_line("0000", "NULL");
    assert_eq!(line.chars().next().unwrap(), '\u{0000}');
}

#[test]
fn parse_hex_values() {
    assert_eq!(parse_code_point("0041"), Some(0x41));
    assert_eq!(parse_code_point("ffff"), Some(0xFFFF));
    assert_eq!(parse_code_point("FFFF"), Some(0xFFFF));
    assert_eq!(parse_code_point("0"), Some(0));
    assert_eq!(parse_code_point("FFFFFFFF"), Some(u32::MAX));
}

#[test]
fn parse_hex_rejects() {
    assert_eq!(parse_code_point(""), None);
    assert_eq!(parse_code_point("12G4"), None);
    assert_eq!(parse_code_point("+41"), None);
    assert_eq!(parse_code_point("100000000"), None);
}
