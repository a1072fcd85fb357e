//! Colors of node templates and their `#RRGGBB` / `#RRGGBBAA` text form.

use vstd::prelude::*;
use vstd::string::*;
use vstd::utf8::*;

verus! {

broadcast use {encode_utf8_valid_utf8, encode_utf8_decode_utf8};

/// An 8-bit-per-channel color with alpha.
#[derive(Debug, Clone, Copy, PartialEq, Eq, Structural)]
pub struct Color {
    pub r: u8,
    pub g: u8,
    pub b: u8,
    pub a: u8,
}

impl Color {
    /// An opaque color.
    pub fn rgb(r: u8, g: u8, b: u8) -> (c: Self)
        ensures
            c == (Color { r, g, b, a: 255 }),
    {
        Color { r, g, b, a: 255 }
    }

    /// A color with the given alpha.
    pub fn rgba(r: u8, g: u8, b: u8, a: u8) -> (c: Self)
        ensures
            c == (Color { r, g, b, a }),
    {
        Color { r, g, b, a }
    }
}

/// The value of one base-16 digit written as an ASCII byte (`0-9`, `a-f`, `A-F`).
pub open spec fn hex_digit_value(byte: u8) -> Option<u8> {
    if 0x30 <= byte <= 0x39 {
        Some((byte - 0x30) as u8)
    } else if 0x61 <= byte <= 0x66 {
        Some((byte - 0x61 + 10) as u8)
    } else if 0x41 <= byte <= 0x46 {
        Some((byte - 0x41 + 10) as u8)
    } else {
        None
    }
}

/// The byte that a two-byte text denotes when read as an unsigned base-16
/// number: two hex digits, or a `+` sign followed by one hex digit.
pub open spec fn hex_pair_value(high: u8, low: u8) -> Option<u8> {
    match (hex_digit_value(high), hex_digit_value(low)) {
        (Some(h), Some(l)) => Some((16 * h + l) as u8),
        (None, Some(l)) => if high == 0x2b {
            Some(l)
        } else {
            None
        },
        _ => None,
    }
}

/// The outcome of reading the two bytes of `hex` that start at `start` as one
/// color channel: the channel, or the message that names the offending text.
pub open spec fn hex_byte_result(hex: Seq<u8>, start: int) -> Result<u8, Seq<char>> {
    match hex_pair_value(hex[start], hex[start + 1]) {
        Some(v) => Ok(v),
        None => Err(
            "invalid hex color byte '"@ + decode_utf8(hex.subrange(start, start + 2)) + "'"@,
        ),
    }
}

/// The color channels denoted by the hex part of a color text, or the message
/// of the first channel that is not a base-16 byte.
pub open spec fn hex_channels_result(hex: Seq<u8>) -> Result<Color, Seq<char>>
    recommends
        hex.len() == 6 || hex.len() == 8,
{
    match hex_byte_result(hex, 0) {
        Err(e) => Err(e),
        Ok(r) => match hex_byte_result(hex, 2) {
            Err(e) => Err(e),
            Ok(g) => match hex_byte_result(hex, 4) {
                Err(e) => Err(e),
                Ok(b) => if hex.len() == 6 {
                    Ok(Color { r, g, b, a: 255 })
                } else {
                    match hex_byte_result(hex, 6) {
                        Err(e) => Err(e),
                        Ok(a) => Ok(Color { r, g, b, a }),
                    }
                },
            },
        },
    }
}

/// The outcome of reading a color text of the form `#RRGGBB` or `#RRGGBBAA`.
/// The length of the hex part is counted in UTF-8 bytes.
pub open spec fn hex_color_result(value: Seq<char>) -> Result<Color, Seq<char>> {
    if !(value.len() > 0 && value[0] == '#') {
        Err("color '"@ + value + "' must start with #"@)
    } else {
        let hex = encode_utf8(value.drop_first());
        if hex.len() == 6 || hex.len() == 8 {
            hex_channels_result(hex)
        } else {
            Err("color '"@ + value + "' must use #RRGGBB or #RRGGBBAA"@)
        }
    }
}

/// Whether the channel text that starts at byte `2 * pair` of `hex` begins and
/// ends between two characters.
pub open spec fn channel_on_char_boundaries(hex: Seq<u8>, pair: int) -> bool {
    is_char_boundary(hex, 2 * pair) && is_char_boundary(hex, 2 * pair + 2)
}

/// Whether the channel `pair` of `hex` reads as a base-16 byte.
pub open spec fn channel_ok(hex: Seq<u8>, pair: int) -> bool {
    hex_pair_value(hex[2 * pair], hex[2 * pair + 1]) is Some
}

/// Whether every channel text that reading `value` cuts out starts and ends
/// between two characters. The channels are read in order, and reading stops
/// at the first one that is not a base-16 byte, so later channels are not cut.
pub open spec fn hex_color_cuts_whole_chars(value: Seq<char>) -> bool {
    value.len() > 0 && value[0] == '#' ==> {
        let hex = encode_utf8(value.drop_first());
        (hex.len() == 6 || hex.len() == 8) ==> {
            &&& channel_on_char_boundaries(hex, 0)
            &&& channel_ok(hex, 0) ==> channel_on_char_boundaries(hex, 1)
            &&& channel_ok(hex, 0) && channel_ok(hex, 1) ==> channel_on_char_boundaries(hex, 2)
            &&& hex.len() == 8 && channel_ok(hex, 0) && channel_ok(hex, 1) && channel_ok(hex, 2)
                ==> channel_on_char_boundaries(hex, 3)
        }
    }
}

/// The upper-case ASCII hex digit of a value below 16.
pub open spec fn upper_hex_digit(d: int) -> u8 {
    if d < 10 {
        (0x30 + d) as u8
    } else {
        (0x41 + d - 10) as u8
    }
}

/// The lower-case ASCII hex digit of a value below 16.
pub open spec fn lower_hex_digit(d: int) -> u8 {
    if d < 10 {
        (0x30 + d) as u8
    } else {
        (0x61 + d - 10) as u8
    }
}

/// Every byte written as two hex digits, in upper or in lower case, reads
/// back as that byte: `0`-`9`, `a`-`f` and `A`-`F` stand for 0 to 15.
pub proof fn lemma_hex_pair_reads_every_byte(n: u8)
    ensures
        hex_pair_value(upper_hex_digit((n / 16) as int), upper_hex_digit((n % 16) as int)) == Some(n),
        hex_pair_value(lower_hex_digit((n / 16) as int), lower_hex_digit((n % 16) as int)) == Some(n),
        hex_pair_value(upper_hex_digit((n / 16) as int), lower_hex_digit((n % 16) as int)) == Some(n),
        hex_pair_value(lower_hex_digit((n / 16) as int), upper_hex_digit((n % 16) as int)) == Some(n),
{
    assert(16 * (n / 16) + n % 16 == n);
}

/// The ASCII hex digit of a value below 16, in upper or in lower case.
pub open spec fn hex_digit_char(d: int, upper: bool) -> char {
    if upper {
        upper_hex_digit(d) as char
    } else {
        lower_hex_digit(d) as char
    }
}

/// The text `#` followed by the hex digits of `digits`, each in the case that
/// `upper` gives for it.
pub open spec fn hex_text(digits: Seq<int>, upper: Seq<bool>) -> Seq<char> {
    seq!['#'] + Seq::new(digits.len(), |i: int| hex_digit_char(digits[i], upper[i]))
}

/// A `#` followed by six or eight hex digits, each of `0`-`9`, `a`-`f`, `A`-`F`
/// in any mix of cases, reads as the color whose channels are `16 * high + low`
/// of each digit pair; with six digits the color is opaque.
pub proof fn lemma_hex_text_reads_digits(digits: Seq<int>, upper: Seq<bool>)
    requires
        digits.len() == 6 || digits.len() == 8,
        upper.len() == digits.len(),
        forall|i: int| 0 <= i < digits.len() ==> 0 <= #[trigger] digits[i] < 16,
    ensures
        hex_color_result(hex_text(digits, upper)) == Ok::<Color, Seq<char>>(
            Color {
                r: (16 * digits[0] + digits[1]) as u8,
                g: (16 * digits[2] + digits[3]) as u8,
                b: (16 * digits[4] + digits[5]) as u8,
                a: if digits.len() == 8 {
                    (16 * digits[6] + digits[7]) as u8
                } else {
                    255u8
                },
            },
        ),
{
    let text = hex_text(digits, upper);
    let tail = text.drop_first();
    assert(tail =~= Seq::new(digits.len(), |i: int| hex_digit_char(digits[i], upper[i])));
    assert(is_ascii_chars(tail));
    is_ascii_chars_encode_utf8(tail);
    let hex = encode_utf8(tail);
    assert forall|i: int| 0 <= i < digits.len() implies hex_digit_value(#[trigger] hex[i]) == Some(
        digits[i] as u8,
    ) by {
        assert(hex[i] == tail[i] as u8);
    }
    assert(hex_digit_value(hex[0]) == Some(digits[0] as u8));
    assert(hex_digit_value(hex[1]) == Some(digits[1] as u8));
    assert(hex_digit_value(hex[2]) == Some(digits[2] as u8));
    assert(hex_digit_value(hex[3]) == Some(digits[3] as u8));
    assert(hex_digit_value(hex[4]) == Some(digits[4] as u8));
    assert(hex_digit_value(hex[5]) == Some(digits[5] as u8));
    if digits.len() == 8 {
        assert(hex_digit_value(hex[6]) == Some(digits[6] as u8));
        assert(hex_digit_value(hex[7]) == Some(digits[7] as u8));
    }
}

fn hex_digit(byte: u8) -> (d: Option<u8>)
    ensures
        d == hex_digit_value(byte),
{
    if 0x30 <= byte && byte <= 0x39 {
        Some(byte - 0x30)
    } else if 0x61 <= byte && byte <= 0x66 {
        Some(byte - 0x61 + 10)
    } else if 0x41 <= byte && byte <= 0x46 {
        Some(byte - 0x41 + 10)
    } else {
        None
    }
}

fn hex_pair(high: u8, low: u8) -> (v: Option<u8>)
    ensures
        v == hex_pair_value(high, low),
{
    match (hex_digit(high), hex_digit(low)) {
        (Some(h), Some(l)) => Some(16 * h + l),
        (None, Some(l)) => if high == 0x2b {
            Some(l)
        } else {
            None
        },
        _ => None,
    }
}

/// In a valid UTF-8 text, a position is a character boundary of the tail that
/// starts at an earlier boundary exactly when it is one of the whole text.
proof fn lemma_boundary_in_tail(bytes: Seq<u8>, from: int, index: int)
    requires
        valid_utf8(bytes),
        is_char_boundary(bytes, from),
        from <= index <= bytes.len(),
        is_char_boundary(bytes, index),
    ensures
        valid_utf8(bytes.subrange(from, bytes.len() as int)),
        is_char_boundary(bytes.subrange(from, bytes.len() as int), index - from),
{
    broadcast use valid_utf8_split, is_char_boundary_start_end_of_seq,
        is_char_boundary_iff_not_is_continuation_byte;

    let tail = bytes.subrange(from, bytes.len() as int);
    assert(valid_utf8(tail));
    if index < bytes.len() {
        assert(tail[index - from] == bytes[index]);
        assert(!is_continuation_byte(bytes[index]));
    } else {
        assert(tail.len() == index - from);
    }
}

/// The UTF-8 form of a text that starts with `#` is the byte `#` followed by
/// the form of the rest; a text whose form starts with that byte starts with `#`.
proof fn lemma_leading_hash(chars: Seq<char>)
    requires
        chars.len() > 0,
    ensures
        (encode_utf8(chars)[0] == 0x23u8) <==> (chars[0] == '#'),
        chars[0] == '#' ==> encode_utf8(chars) =~= seq![0x23u8] + encode_utf8(chars.drop_first()),
        chars[0] == '#' ==> is_char_boundary(encode_utf8(chars), 1),
{
    let c = chars[0] as u32;
    char_is_scalar(chars[0]);
    let first = encode_scalar(c);
    assert(encode_utf8(chars) == first + encode_utf8(chars.drop_first()));
    if has_width_1_encoding(c) {
        assert((c & 0x7F) as u8 == c as u8) by (bit_vector)
            requires
                c <= 0x7f,
        ;
        assert(first[0] == c as u8);
        if chars[0] == '#' {
            assert(c == 0x23);
        }
        if first[0] == 0x23u8 {
            assert(c == 0x23);
            char_u32_cast(chars[0], c);
        }
    } else if has_width_2_encoding(c) {
        assert((0xC0u8 | ((c >> 6) & 0x1F) as u8) >= 0xC0u8) by (bit_vector);
    } else if has_width_3_encoding(c) {
        assert((0xE0u8 | ((c >> 12) & 0x0F) as u8) >= 0xE0u8) by (bit_vector);
    } else {
        assert((0xF0u8 | ((c >> 18) & 0x7) as u8) >= 0xF0u8) by (bit_vector);
    }
    if chars[0] == '#' {
        let bytes = encode_utf8(chars);
        assert(first =~= seq![0x23u8]);
        assert(bytes[0] == 0x23u8);
        assert(length_of_first_scalar(bytes) == 1);
        reveal_with_fuel(is_char_boundary, 2);
    }
}

/// Reads the two bytes of `hex` that start at `start` as one base-16 color
/// channel.
pub fn parse_hex_byte(hex: &str, start: usize) -> (res: Result<u8, String>)
    requires
        start + 2 <= hex.spec_bytes().len(),
        is_char_boundary(hex.spec_bytes(), start as int),
        is_char_boundary(hex.spec_bytes(), start + 2),
    ensures
        match (res, hex_byte_result(hex.spec_bytes(), start as int)) {
            (Ok(v), Ok(w)) => v == w,
            (Err(m), Err(n)) => m@ == n,
            _ => false,
        },
{
    let bytes = hex.as_bytes();
    match hex_pair(bytes[start], bytes[start + 1]) {
        Some(v) => Ok(v),
        None => {
            let ghost all = hex.spec_bytes();
            proof {
                lemma_boundary_in_tail(all, start as int, start + 2);
            }
            let (_, rest) = hex.split_at(start);
            let (pair, _) = rest.split_at(2);
            proof {
                assert(pair.spec_bytes() =~= all.subrange(start as int, start + 2));
                assert(decode_utf8(encode_utf8(pair@)) == pair@);
            }
            let mut message = String::from_str("invalid hex color byte '");
            message.append(pair);
            message.append("'");
            Err(message)
        },
    }
}

/// Reads a color written as `#RRGGBB` (opaque) or `#RRGGBBAA`.
pub fn parse_hex_color(value: &str) -> (res: Result<Color, String>)
    requires
        hex_color_cuts_whole_chars(value@),
    ensures
        match (res, hex_color_result(value@)) {
            (Ok(c), Ok(d)) => c == d,
            (Err(m), Err(n)) => m@ == n,
            _ => false,
        },
{
    let bytes = value.as_bytes();
    proof {
        if value@.len() > 0 {
            lemma_leading_hash(value@);
        }
    }
    if bytes.len() == 0 || bytes[0] != 0x23 {
        let mut message = String::from_str("color '");
        message.append(value);
        message.append("' must start with #");
        return Err(message);
    }
    let (_, hex) = value.split_at(1);
    let ghost h = encode_utf8(value@.drop_first());
    assert(hex.spec_bytes() =~= h);
    let n = hex.len();
    if n != 6 && n != 8 {
        let mut message = String::from_str("color '");
        message.append(value);
        message.append("' must use #RRGGBB or #RRGGBBAA");
        return Err(message);
    }
    let r = match parse_hex_byte(hex, 0) {
        Ok(v) => v,
        Err(e) => return Err(e),
    };
    let g = match parse_hex_byte(hex, 2) {
        Ok(v) => v,
        Err(e) => return Err(e),
    };
    let b = match parse_hex_byte(hex, 4) {
        Ok(v) => v,
        Err(e) => return Err(e),
    };
    if n == 6 {
        Ok(Color::rgb(r, g, b))
    } else {
        let a = match parse_hex_byte(hex, 6) {
            Ok(v) => v,
            Err(e) => return Err(e),
        };
        Ok(Color::rgba(r, g, b, a))
    }
}

} // verus!
