use bevy::prelude::Color;
use bezier_patch::util::{hex_char_val, parse_rgb, str_to_color};

#[test]
fn hex_to_int() {
    assert_eq!(bezier_patch::util::hex_to_int("FF").unwrap(), 255);
    assert_eq!(bezier_patch::util::hex_to_int("1000").unwrap(), 1 << 12);
    assert_eq!(bezier_patch::util::hex_to_int("0").unwrap(), 0);
    assert_eq!(
        bezier_patch::util::hex_to_int("00ab").unwrap(),
        bezier_patch::util::hex_to_int("AB").unwrap()
    );
}

#[test]
fn hex_to_color() {
    assert_eq!(str_to_color("ff00ff").unwrap(), Color::rgb(1., 0., 1.));
    assert_eq!(str_to_color("#0000ff").unwrap(), Color::rgb(0., 0., 1.));
}

#[test]
fn hex_digits_of_both_cases() {
    assert_eq!(hex_char_val('0'), Some(0));
    assert_eq!(hex_char_val('9'), Some(9));
    assert_eq!(hex_char_val('a'), Some(10));
    assert_eq!(hex_char_val('F'), Some(15));
    assert_eq!(hex_char_val('g'), None);
    assert_eq!(hex_char_val('#'), None);
}

#[test]
fn hex_number_with_a_foreign_character() {
    assert_eq!(bezier_patch::util::hex_to_int("12x4"), None);
    assert_eq!(bezier_patch::util::hex_to_int(""), Some(0));
    assert_eq!(bezier_patch::util::hex_to_int("ffffffff"), Some(u32::MAX));
}

#[test]
fn color_channels() {
    assert_eq!(parse_rgb("102030"), Ok((0x10, 0x20, 0x30)));
    assert_eq!(parse_rgb("#fFa001"), Ok((255, 160, 1)));
    assert_eq!(parse_rgb("ff00ffzz"), Ok((255, 0, 255)));
}

#[test]
fn color_parsing_errors() {
    assert_eq!(parse_rgb(""), Err("parsing error".to_string()));
    assert_eq!(parse_rgb("ff00"), Err("parsing error".to_string()));
    assert_eq!(parse_rgb("#ff00f"), Err("parsing error".to_string()));
    assert_eq!(parse_rgb("gg0000"), Err("parsing error".to_string()));
    assert_eq!(str_to_color("xyz"), Err("parsing error".to_string()));
}

#[test]
fn color_differs_with_channels() {
    assert_ne!(str_to_color("010000").unwrap(), str_to_color("000100").unwrap());
    assert_eq!(str_to_color("ff8000").unwrap(), Color::rgb_u8(255, 128, 0));
}
