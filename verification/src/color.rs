//! Display colors: three bytes, written as six hex digits.

use vstd::prelude::*;
use crate::error::RunError;
use crate::text::chars_of;

verus! {

/// The color of a directory that names none: white.
pub fn default_color() -> (c: [u8; 3])
    ensures
        c@ == seq![255u8, 255u8, 255u8],
{
    [255, 255, 255]
}

/// The value of a hex digit, in either case.
pub open spec fn hex_value(c: char) -> Option<u8> {
    let u = c as u32;
    if 0x30 <= u <= 0x39 {
        Some((u - 0x30) as u8)
    } else if 0x41 <= u <= 0x46 {
        Some((u - 0x41 + 10) as u8)
    } else if 0x61 <= u <= 0x66 {
        Some((u - 0x61 + 10) as u8)
    } else {
        None
    }
}

/// `text` without one leading `#`, if it has one.
pub open spec fn without_hash(text: Seq<char>) -> Seq<char> {
    if text.len() > 0 && text[0] == '#' {
        text.drop_first()
    } else {
        text
    }
}

/// The byte that two hex digits stand for.
pub open spec fn hex_byte(high: char, low: char) -> u8
    recommends
        hex_value(high) is Some,
        hex_value(low) is Some,
{
    (hex_value(high).unwrap() * 16 + hex_value(low).unwrap()) as u8
}

/// The color that `text` stands for: exactly six hex digits, after one
/// optional leading `#`.
pub open spec fn hex_color(text: Seq<char>) -> Option<Seq<u8>> {
    let digits = without_hash(text);
    if digits.len() == 6 && (forall|i: int|
        0 <= i < 6 ==> hex_value(#[trigger] digits[i]) is Some) {
        Some(
            seq![
                hex_byte(digits[0], digits[1]),
                hex_byte(digits[2], digits[3]),
                hex_byte(digits[4], digits[5]),
            ],
        )
    } else {
        None
    }
}

/// The value of the hex digit `c`.
pub fn hex_digit(c: char) -> (r: Option<u8>)
    ensures
        r == hex_value(c),
{
    let u: u32 = c as u32;
    if 0x30 <= u && u <= 0x39 {
        Some((u - 0x30) as u8)
    } else if 0x41 <= u && u <= 0x46 {
        Some((u - 0x41 + 10) as u8)
    } else if 0x61 <= u && u <= 0x66 {
        Some((u - 0x61 + 10) as u8)
    } else {
        None
    }
}

/// Reads a color written as `RRGGBB` or `#RRGGBB`.
///
/// Anything else is a `ColorFormat` error that carries the text.
pub fn parse_hex_color(text: &str) -> (r: Result<[u8; 3], RunError>)
    ensures
        match hex_color(text@) {
            Some(rgb) => r is Ok && r->Ok_0@ == rgb,
            None => r is Err && r->Err_0 is ColorFormat && r->Err_0->value@ == text@,
        },
{
    let v = chars_of(text);
    let start: usize = if v.len() > 0 && v[0] == '#' {
        1
    } else {
        0
    };
    let ghost digits = without_hash(text@);
    assert(digits == v@.skip(start as int));
    if v.len() - start != 6 {
        return Err(RunError::ColorFormat { value: text.to_owned() });
    }
    let mut values: [u8; 6] = [0; 6];
    let mut i: usize = 0;
    while i < 6
        invariant
            i <= 6,
            v.len() == start + 6,
            digits == without_hash(text@),
            digits == v@.skip(start as int),
            forall|j: int| 0 <= j < i ==> hex_value(#[trigger] digits[j]) == Some(values@[j]),
        decreases 6 - i,
    {
        match hex_digit(v[start + i]) {
            Some(d) => {
                values[i] = d;
            },
            None => {
                assert(hex_value(digits[i as int]) is None);
                return Err(RunError::ColorFormat { value: text.to_owned() });
            },
        }
        i += 1;
    }
    assert(forall|j: int| 0 <= j < 6 ==> values@[j] < 16) by {
        assert forall|j: int| 0 <= j < 6 implies values@[j] < 16 by {
            assert(hex_value(digits[j]) == Some(values@[j]));
        }
    }
    let rgb: [u8; 3] = [
        values[0] * 16 + values[1],
        values[2] * 16 + values[3],
        values[4] * 16 + values[5],
    ];
    assert(rgb@ == hex_color(text@).unwrap());
    Ok(rgb)
}

} // verus!
