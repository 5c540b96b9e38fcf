use bsrc::text::{chars_of, joined, decimal_string, str_eq, str_le, string_of, trim};

#[test]
fn trim_removes_surrounding_whitespace() {
    assert_eq!(trim("  Pokemon Snap \t\n"), "Pokemon Snap");
    assert_eq!(trim("\u{3000}a b\u{a0}"), "a b");
    assert_eq!(trim("   "), "");
    assert_eq!(trim(""), "");
    assert_eq!(trim("x"), "x");
}

#[test]
fn trim_agrees_with_std_on_every_whitespace_character() {
    for code in 0u32..0x11000 {
        if let Some(c) = char::from_u32(code) {
            let text = format!("{c}a{c}");
            assert_eq!(trim(&text), text.trim(), "code point {code:#x}");
        }
    }
}

#[test]
fn decimal_string_writes_numerals() {
    assert_eq!(decimal_string(0), "0");
    assert_eq!(decimal_string(7), "7");
    assert_eq!(decimal_string(10), "10");
    assert_eq!(decimal_string(109), "109");
    assert_eq!(decimal_string(1234567890), "1234567890");
    assert_eq!(decimal_string(u128::MAX), u128::MAX.to_string());
}

#[test]
fn str_le_is_the_order_of_strings() {
    let samples =
        ["", "a", "A", "ab", "abc", "b", "gba", "gbc", "snes", "Z", "z", "é", "日本", "\u{10000}"];
    for a in samples {
        for b in samples {
            assert_eq!(str_le(a, b), a <= b, "{a:?} <= {b:?}");
            assert_eq!(str_eq(a, b), a == b, "{a:?} == {b:?}");
        }
    }
}

#[test]
fn characters_round_trip() {
    let text = "Pokémon Snap (USA)";
    let chars = chars_of(text);
    assert_eq!(chars.len(), 18);
    assert_eq!(string_of(&chars), text);
    assert_eq!(joined("(?i)", "mario"), "(?i)mario");
    assert_eq!(joined("", ""), "");
}
