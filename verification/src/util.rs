//! Small helpers for command-line values: hexadecimal numbers, colors
//! written as `rrggbb`, and a check that a path names an existing file.
use vstd::prelude::*;
use bevy::render::color::Color;

verus! {

/// The value of a hexadecimal digit, upper or lower case.
pub open spec fn hex_digit(c: char) -> Option<u8> {
    if '0' <= c <= '9' {
        Some((c as u32 - '0' as u32) as u8)
    } else if 'a' <= c <= 'f' {
        Some((c as u32 - 'a' as u32 + 10) as u8)
    } else if 'A' <= c <= 'F' {
        Some((c as u32 - 'A' as u32 + 10) as u8)
    } else {
        None
    }
}

/// The number that a string of hexadecimal digits writes, most significant
/// digit first; `None` where a character is no such digit.
pub open spec fn hex_value(s: Seq<char>) -> Option<nat>
    decreases s.len(),
{
    if s.len() == 0 {
        Some(0)
    } else {
        match (hex_value(s.drop_last()), hex_digit(s.last())) {
            (Some(high), Some(low)) => Some(16 * high + low as nat),
            _ => None,
        }
    }
}

/// Reading the string digit by digit never leaves 32 bits: wherever
/// another character follows a run of digits, the number read so far can
/// still be shifted by one digit.
pub open spec fn hex_in_range(s: Seq<char>) -> bool {
    forall|i: int|
        0 <= i < s.len() ==> match #[trigger] hex_value(s.take(i)) {
            Some(v) => v < 0x1000_0000,
            None => true,
        }
}

/// A run of `n` hexadecimal digits writes a number below `16^n`.
pub proof fn lemma_hex_value_bound(s: Seq<char>)
    ensures
        match hex_value(s) {
            Some(v) => v < vstd::arithmetic::power::pow(16, s.len()),
            None => true,
        },
    decreases s.len(),
{
    reveal(vstd::arithmetic::power::pow);
    if s.len() > 0 {
        lemma_hex_value_bound(s.drop_last());
    }
}

/// Strings of at most eight characters are always in range.
pub proof fn lemma_short_hex_in_range(s: Seq<char>)
    requires
        s.len() <= 8,
    ensures
        hex_in_range(s),
{
    assert forall|i: int| 0 <= i < s.len() implies match #[trigger] hex_value(s.take(i)) {
        Some(v) => v < 0x1000_0000,
        None => true,
    } by {
        lemma_hex_value_bound(s.take(i));
        vstd::arithmetic::power::lemma_pow_increases(16, i as nat, 7);
        assert(vstd::arithmetic::power::pow(16, 7) == 0x1000_0000) by {
            reveal_with_fuel(vstd::arithmetic::power::pow, 8);
        }
    }
}

/// The value of one hexadecimal digit.
pub fn hex_char_val(c: char) -> (r: Option<u8>)
    ensures
        r == hex_digit(c),
{
    match c {
        '0' => Some(0),
        '1' => Some(1),
        '2' => Some(2),
        '3' => Some(3),
        '4' => Some(4),
        '5' => Some(5),
        '6' => Some(6),
        '7' => Some(7),
        '8' => Some(8),
        '9' => Some(9),
        'a' | 'A' => Some(10),
        'b' | 'B' => Some(11),
        'c' | 'C' => Some(12),
        'd' | 'D' => Some(13),
        'e' | 'E' => Some(14),
        'f' | 'F' => Some(15),
        _ => None,
    }
}

/// Reads a hexadecimal number; `None` where a character is no hexadecimal
/// digit.
pub fn hex_to_int(hex: &str) -> (r: Option<u32>)
    requires
        hex_in_range(hex@),
    ensures
        match hex_value(hex@) {
            Some(v) => r == Some(v as u32) && v <= u32::MAX,
            None => r is None,
        },
{
    let mut sum: u32 = 0;
    let n = hex.unicode_len();
    let mut i: usize = 0;
    while i < n
        invariant
            i <= n,
            n == hex@.len(),
            hex_in_range(hex@),
            hex_value(hex@.take(i as int)) == Some(sum as nat),
        decreases n - i,
    {
        let c = hex.get_char(i);
        proof {
            assert(hex@.take(i + 1).drop_last() =~= hex@.take(i as int));
            assert(hex@.take(i + 1).last() == c);
        }
        sum *= 16;
        match hex_char_val(c) {
            Some(digit) => {
                sum += digit as u32;
            },
            None => {
                proof {
                    lemma_hex_value_none(hex@, i + 1);
                }
                return None;
            },
        }
        i += 1;
    }
    proof {
        assert(hex@.take(n as int) =~= hex@);
    }
    Some(sum)
}

/// Once a prefix holds a character that is no digit, the whole string
/// writes no number.
pub proof fn lemma_hex_value_none(s: Seq<char>, i: int)
    requires
        0 <= i <= s.len(),
        hex_value(s.take(i)) is None,
    ensures
        hex_value(s) is None,
    decreases s.len() - i,
{
    if i < s.len() {
        assert(s.take(i + 1).drop_last() =~= s.take(i));
        lemma_hex_value_none(s, i + 1);
    } else {
        assert(s.take(i) =~= s);
    }
}

/// Where the digits of a color start: behind a leading `#`, if there is one.
pub open spec fn color_offset(s: Seq<char>) -> int {
    if s.len() > 0 && s[0] == '#' {
        1
    } else {
        0
    }
}

/// Channel `k` of a color: the two hexadecimal digits at its place, or
/// `None` where the string is too short or they are no digits.
pub open spec fn color_channel(s: Seq<char>, k: int) -> Option<u8> {
    let from = color_offset(s) + 2 * k;
    if s.len() >= from + 2 {
        match hex_value(s.subrange(from, from + 2)) {
            Some(v) => Some(v as u8),
            None => None,
        }
    } else {
        None
    }
}

/// The red, green and blue channels that a string of the form `rrggbb` or
/// `#rrggbb` writes.  Characters behind the sixth digit are not looked at.
pub open spec fn rgb_channels(s: Seq<char>) -> Option<(u8, u8, u8)> {
    match (color_channel(s, 0), color_channel(s, 1), color_channel(s, 2)) {
        (Some(r), Some(g), Some(b)) => Some((r, g, b)),
        _ => None,
    }
}

/// Reads channel `k` of a color.
fn read_channel(color: &str, offset: usize, k: usize) -> (r: Option<u8>)
    requires
        offset == color_offset(color@),
        k < 3,
    ensures
        r == color_channel(color@, k as int),
{
    let from = offset + 2 * k;
    if color.unicode_len() < from + 2 {
        return None;
    }
    let digits = color.substring_char(from, from + 2);
    proof {
        lemma_short_hex_in_range(digits@);
        lemma_hex_value_bound(digits@);
        assert(vstd::arithmetic::power::pow(16, 2) == 256) by {
            reveal_with_fuel(vstd::arithmetic::power::pow, 3);
        }
    }
    match hex_to_int(digits) {
        Some(v) => Some(v as u8),
        None => None,
    }
}

/// Reads the three channels of a color written as `rrggbb` or `#rrggbb`.
/// Anything else is a parsing error.
pub fn parse_rgb(color: &str) -> (r: Result<(u8, u8, u8), String>)
    ensures
        match rgb_channels(color@) {
            Some(channels) => r == Ok::<(u8, u8, u8), String>(channels),
            None => r is Err && r->Err_0@ == "parsing error"@,
        },
{
    let mut offset: usize = 0;
    if color.unicode_len() > 0 && color.get_char(0) == '#' {
        offset = 1;
    }
    let red = match read_channel(color, offset, 0) {
        Some(v) => v,
        None => {
            return Err("parsing error".to_owned());
        },
    };
    let green = match read_channel(color, offset, 1) {
        Some(v) => v,
        None => {
            return Err("parsing error".to_owned());
        },
    };
    let blue = match read_channel(color, offset, 2) {
        Some(v) => v,
        None => {
            return Err("parsing error".to_owned());
        },
    };
    Ok((red, green, blue))
}

/// `Color` of bevy, which the verifier does not look into.
#[verifier::external_type_specification]
#[verifier::external_body]
pub struct ExColor(Color);

/// The color that `Color::rgb_u8` makes of three channels.
pub uninterp spec fn rgb_u8_color(r: u8, g: u8, b: u8) -> Color;

/// Calls `Color::rgb_u8` of bevy, which makes an opaque sRGB color of three
/// eight-bit channels.  The result depends on the channels alone.
#[verifier::external_body]
fn color_from_channels(r: u8, g: u8, b: u8) -> (c: Color)
    ensures
        c == rgb_u8_color(r, g, b),
{
    Color::rgb_u8(r, g, b)
}

/// Reads a color written as `rrggbb` or `#rrggbb` in hexadecimal.
pub fn str_to_color(color: &str) -> (r: Result<Color, String>)
    ensures
        match rgb_channels(color@) {
            Some((red, green, blue)) => r == Ok::<Color, String>(rgb_u8_color(red, green, blue)),
            None => r is Err && r->Err_0@ == "parsing error"@,
        },
{
    match parse_rgb(color) {
        Ok((red, green, blue)) => Ok(color_from_channels(red, green, blue)),
        Err(e) => Err(e),
    }
}

/// Asks the file system whether the path names something that exists, by
/// `Path::exists` of std.  Nothing is promised of the answer.
#[verifier::external_body]
fn path_exists(path: &str) -> bool {
    std::path::Path::new(path).exists()
}

/// The answer for a path, given whether it exists: the path itself, or the
/// error `File not found`.
pub fn found_or_error(path: &str, exists: bool) -> (r: Result<String, String>)
    ensures
        exists ==> r is Ok && r->Ok_0@ == path@,
        !exists ==> r is Err && r->Err_0@ == "File not found"@,
{
    if exists {
        Ok(path.to_owned())
    } else {
        Err("File not found".to_owned())
    }
}

/// Hands the path back if it names something that exists, and the error
/// `File not found` otherwise.
pub fn file_exists(path: &str) -> (r: Result<String, String>)
    ensures
        r is Ok ==> r->Ok_0@ == path@,
        r is Err ==> r->Err_0@ == "File not found"@,
{
    found_or_error(path, path_exists(path))
}

} // verus!
