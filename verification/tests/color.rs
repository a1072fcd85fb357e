use nodes::color::{parse_hex_byte, parse_hex_color, Color};

#[test]
fn parses_rgba_hex_color() {
    let color = parse_hex_color("#10203040").unwrap();
    assert_eq!(color, Color::rgba(16, 32, 48, 64));
}

#[test]
fn rgb_is_opaque() {
    assert_eq!(Color::rgb(1, 2, 3), Color { r: 1, g: 2, b: 3, a: 255 });
}

#[test]
fn parses_rgb_hex_color_as_opaque() {
    assert_eq!(parse_hex_color("#2A5C43").unwrap(), Color::rgb(42, 92, 67));
    assert_eq!(parse_hex_color("#2a5c43").unwrap(), Color::rgb(42, 92, 67));
}

#[test]
fn refuses_color_without_hash() {
    assert_eq!(parse_hex_color("102030").unwrap_err(), "color '102030' must start with #");
    assert_eq!(parse_hex_color("").unwrap_err(), "color '' must start with #");
}

#[test]
fn refuses_color_of_wrong_length() {
    assert_eq!(
        parse_hex_color("#1020304").unwrap_err(),
        "color '#1020304' must use #RRGGBB or #RRGGBBAA"
    );
    assert_eq!(parse_hex_color("#").unwrap_err(), "color '#' must use #RRGGBB or #RRGGBBAA");
}

#[test]
fn names_the_first_bad_channel() {
    assert_eq!(parse_hex_color("#10zz30").unwrap_err(), "invalid hex color byte 'zz'");
    assert_eq!(parse_hex_color("#1020304g").unwrap_err(), "invalid hex color byte '4g'");
    assert_eq!(parse_hex_color("#-12030").unwrap_err(), "invalid hex color byte '-1'");
}

#[test]
fn accepts_a_plus_sign_before_one_digit() {
    assert_eq!(parse_hex_color("#+f+f+f").unwrap(), Color::rgb(15, 15, 15));
    assert_eq!(parse_hex_color("#++0000").unwrap_err(), "invalid hex color byte '++'");
}

#[test]
fn counts_the_hex_part_in_bytes() {
    // Three two-byte characters make six bytes, each cut whole.
    assert_eq!(parse_hex_color("#\u{e9}\u{e9}\u{e9}").unwrap_err(), "invalid hex color byte '\u{e9}'");
}

#[test]
fn reads_one_channel() {
    assert_eq!(parse_hex_byte("ff00", 0).unwrap(), 255);
    assert_eq!(parse_hex_byte("ff00", 2).unwrap(), 0);
    assert_eq!(parse_hex_byte("x1", 0).unwrap_err(), "invalid hex color byte 'x1'");
}
