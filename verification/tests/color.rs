use bsrc::color::{default_color, hex_digit, parse_hex_color};
use bsrc::error::RunError;

#[test]
fn default_color_is_white() {
    assert_eq!(default_color(), [255, 255, 255]);
}

#[test]
fn hex_digit_reads_both_cases() {
    assert_eq!(hex_digit('0'), Some(0));
    assert_eq!(hex_digit('9'), Some(9));
    assert_eq!(hex_digit('a'), Some(10));
    assert_eq!(hex_digit('F'), Some(15));
    assert_eq!(hex_digit('g'), None);
    assert_eq!(hex_digit('G'), None);
    assert_eq!(hex_digit('/'), None);
    assert_eq!(hex_digit(':'), None);
    assert_eq!(hex_digit('@'), None);
    assert_eq!(hex_digit('`'), None);
}

#[test]
fn parse_hex_color_reads_six_digits() {
    assert_eq!(parse_hex_color("#33AABB"), Ok([0x33, 0xAA, 0xBB]));
    assert_eq!(parse_hex_color("33aabb"), Ok([0x33, 0xAA, 0xBB]));
    assert_eq!(parse_hex_color("#000000"), Ok([0, 0, 0]));
    assert_eq!(parse_hex_color("#FFFFFF"), Ok([255, 255, 255]));
    assert_eq!(parse_hex_color("#0a1B2c"), Ok([0x0A, 0x1B, 0x2C]));
}

#[test]
fn parse_hex_color_rejects_anything_else() {
    let malformed = [
        "", "#", "#FFF", "#33AABBCC", "33AAB", "##33AABB", "#33AABG", "+A+B+C", "33AAB#",
        "#33 AABB", "ééé", " 33AABB",
    ];
    for text in malformed {
        assert_eq!(
            parse_hex_color(text),
            Err(RunError::ColorFormat { value: text.to_string() }),
            "{text:?}"
        );
    }
}
