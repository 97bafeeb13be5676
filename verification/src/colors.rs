//! Color parsing: hex colors of three, four, six or eight digits, and the
//! CSS named-color table.

use crate::property::PropertyTokenV;
use crate::text::str_eq;
use vstd::prelude::*;
use vstd::string::*;

verus! {

/// A color with 8-bit channels, as resolved from a stylesheet value.
#[derive(Debug, Clone, Copy, PartialEq, Eq, Structural)]
pub struct Color {
    pub red: u8,
    pub green: u8,
    pub blue: u8,
    pub alpha: u8,
}

/// The value of one hex digit.
pub open spec fn hex_val(c: char) -> Option<u8> {
    if 48 <= c as u32 <= 57 {
        Some((c as u32 - 48) as u8)
    } else if 97 <= c as u32 <= 102 {
        Some((c as u32 - 87) as u8)
    } else if 65 <= c as u32 <= 70 {
        Some((c as u32 - 55) as u8)
    } else {
        None
    }
}

/// Reads the value of one hex digit.
#[verifier::allow_in_spec]
pub fn hex_val_exec(c: char) -> Option<u8>
    returns
        hex_val(c),
{
    let u = c as u32;
    if 48 <= u && u <= 57 {
        Some((u - 48) as u8)
    } else if 97 <= u && u <= 102 {
        Some((u - 87) as u8)
    } else if 65 <= u && u <= 70 {
        Some((u - 55) as u8)
    } else {
        None
    }
}

/// The channel value of two hex digits at position `i`.
pub open spec fn hex2(s: Seq<char>, i: int) -> Option<u8> {
    match (hex_val(s[i]), hex_val(s[i + 1])) {
        (Some(a), Some(b)) => Some((16 * a + b) as u8),
        _ => None,
    }
}

/// The channel value of one hex digit at position `i`, duplicated as in the
/// short hex forms.
pub open spec fn hex1(s: Seq<char>, i: int) -> Option<u8> {
    match hex_val(s[i]) {
        Some(a) => Some((17 * a) as u8),
        _ => None,
    }
}

/// The color a hex literal denotes: `rrggbb`, `rrggbbaa`, `rgb` or `rgba`,
/// with the short forms duplicating each digit. Any other shape denotes no
/// color.
pub open spec fn spec_hex_color(s: Seq<char>) -> Option<Color> {
    if s.len() == 6 {
        match (hex2(s, 0), hex2(s, 2), hex2(s, 4)) {
            (Some(r), Some(g), Some(b)) => Some(Color { red: r, green: g, blue: b, alpha: 255 }),
            _ => None,
        }
    } else if s.len() == 8 {
        match (hex2(s, 0), hex2(s, 2), hex2(s, 4), hex2(s, 6)) {
            (Some(r), Some(g), Some(b), Some(a)) => Some(
                Color { red: r, green: g, blue: b, alpha: a },
            ),
            _ => None,
        }
    } else if s.len() == 3 {
        match (hex1(s, 0), hex1(s, 1), hex1(s, 2)) {
            (Some(r), Some(g), Some(b)) => Some(Color { red: r, green: g, blue: b, alpha: 255 }),
            _ => None,
        }
    } else if s.len() == 4 {
        match (hex1(s, 0), hex1(s, 1), hex1(s, 2), hex1(s, 3)) {
            (Some(r), Some(g), Some(b), Some(a)) => Some(
                Color { red: r, green: g, blue: b, alpha: a },
            ),
            _ => None,
        }
    } else {
        None
    }
}

/// Reads the channel value of two hex digits at position `i`.
fn hex2_exec(s: &str, i: usize) -> (r: Option<u8>)
    requires
        i + 1 < s@.len() <= usize::MAX,
    ensures
        r == hex2(s@, i as int),
{
    match (hex_val_exec(s.get_char(i)), hex_val_exec(s.get_char(i + 1))) {
        (Some(a), Some(b)) => Some(16 * a + b),
        _ => None,
    }
}

/// Reads the channel value of one duplicated hex digit at position `i`.
fn hex1_exec(s: &str, i: usize) -> (r: Option<u8>)
    requires
        i < s@.len(),
    ensures
        r == hex1(s@, i as int),
{
    match hex_val_exec(s.get_char(i)) {
        Some(a) => Some(17 * a),
        _ => None,
    }
}

/// Parses a hex color literal (without its leading `#`) into a color.
pub fn parse_hex_color(hex: &str) -> (r: Option<Color>)
    ensures
        r == spec_hex_color(hex@),
{
    let n = hex.unicode_len();
    if n == 6 {
        match (hex2_exec(hex, 0), hex2_exec(hex, 2), hex2_exec(hex, 4)) {
            (Some(r), Some(g), Some(b)) => Some(Color { red: r, green: g, blue: b, alpha: 255 }),
            _ => None,
        }
    } else if n == 8 {
        match (hex2_exec(hex, 0), hex2_exec(hex, 2), hex2_exec(hex, 4), hex2_exec(hex, 6)) {
            (Some(r), Some(g), Some(b), Some(a)) => Some(
                Color { red: r, green: g, blue: b, alpha: a },
            ),
            _ => None,
        }
    } else if n == 3 {
        match (hex1_exec(hex, 0), hex1_exec(hex, 1), hex1_exec(hex, 2)) {
            (Some(r), Some(g), Some(b)) => Some(Color { red: r, green: g, blue: b, alpha: 255 }),
            _ => None,
        }
    } else if n == 4 {
        match (hex1_exec(hex, 0), hex1_exec(hex, 1), hex1_exec(hex, 2), hex1_exec(hex, 3)) {
            (Some(r), Some(g), Some(b), Some(a)) => Some(
                Color { red: r, green: g, blue: b, alpha: a },
            ),
            _ => None,
        }
    } else {
        None
    }
}

/// The color a CSS color keyword denotes, `transparent` included.
pub open spec fn spec_named_color(s: Seq<char>) -> Option<Color> {
    if s == "transparent"@ {
        Some(Color { red: 0, green: 0, blue: 0, alpha: 0 })
    } else {
        spec_named_color_1(s)
    }
}

/// Parses a CSS color keyword into a color.
pub fn parse_named_color(name: &str) -> (r: Option<Color>)
    ensures
        r == spec_named_color(name@),
{
    if str_eq(name, "transparent") {
        Some(Color { red: 0, green: 0, blue: 0, alpha: 0 })
    } else {
        named_color_1(name)
    }
}

/// The color a token list denotes: a single hash token read as a hex color,
/// or a single identifier read as a named color.
pub open spec fn spec_color_of_tokens(s: Seq<PropertyTokenV>) -> Option<Color> {
    if s.len() == 1 {
        match s[0] {
            PropertyTokenV::Identifier(n) => spec_named_color(n),
            PropertyTokenV::Hash(h) => spec_hex_color(h),
            _ => None,
        }
    } else {
        None
    }
}

/// One part of the CSS named-color table.
pub open spec fn spec_named_color_1(s: Seq<char>) -> Option<Color> {
    if s == "aliceblue"@ {
        Some(Color { red: 240, green: 248, blue: 255, alpha: 255 })
    } else if s == "antiquewhite"@ {
        Some(Color { red: 250, green: 235, blue: 215, alpha: 255 })
    } else if s == "aqua"@ {
        Some(Color { red: 0, green: 255, blue: 255, alpha: 255 })
    } else if s == "aquamarine"@ {
        Some(Color { red: 127, green: 255, blue: 212, alpha: 255 })
    } else if s == "azure"@ {
        Some(Color { red: 240, green: 255, blue: 255, alpha: 255 })
    } else if s == "beige"@ {
        Some(Color { red: 245, green: 245, blue: 220, alpha: 255 })
    } else if s == "bisque"@ {
        Some(Color { red: 255, green: 228, blue: 196, alpha: 255 })
    } else if s == "black"@ {
        Some(Color { red: 0, green: 0, blue: 0, alpha: 255 })
    } else if s == "blanchedalmond"@ {
        Some(Color { red: 255, green: 235, blue: 205, alpha: 255 })
    } else if s == "blue"@ {
        Some(Color { red: 0, green: 0, blue: 255, alpha: 255 })
    } else if s == "blueviolet"@ {
        Some(Color { red: 138, green: 43, blue: 226, alpha: 255 })
    } else if s == "brown"@ {
        Some(Color { red: 165, green: 42, blue: 42, alpha: 255 })
    } else if s == "burlywood"@ {
        Some(Color { red: 222, green: 184, blue: 135, alpha: 255 })
    } else if s == "cadetblue"@ {
        Some(Color { red: 95, green: 158, blue: 160, alpha: 255 })
    } else if s == "chartreuse"@ {
        Some(Color { red: 127, green: 255, blue: 0, alpha: 255 })
    } else if s == "chocolate"@ {
        Some(Color { red: 210, green: 105, blue: 30, alpha: 255 })
    } else if s == "coral"@ {
        Some(Color { red: 255, green: 127, blue: 80, alpha: 255 })
    } else if s == "cornflowerblue"@ {
        Some(Color { red: 100, green: 149, blue: 237, alpha: 255 })
    } else if s == "cornsilk"@ {
        Some(Color { red: 255, green: 248, blue: 220, alpha: 255 })
    } else if s == "crimson"@ {
        Some(Color { red: 220, green: 20, blue: 60, alpha: 255 })
    } else if s == "cyan"@ {
        Some(Color { red: 0, green: 255, blue: 255, alpha: 255 })
    } else if s == "darkblue"@ {
        Some(Color { red: 0, green: 0, blue: 139, alpha: 255 })
    } else if s == "darkcyan"@ {
        Some(Color { red: 0, green: 139, blue: 139, alpha: 255 })
    } else if s == "darkgoldenrod"@ {
        Some(Color { red: 184, green: 134, blue: 11, alpha: 255 })
    } else if s == "darkgray"@ {
        Some(Color { red: 169, green: 169, blue: 169, alpha: 255 })
    } else if s == "darkgreen"@ {
        Some(Color { red: 0, green: 100, blue: 0, alpha: 255 })
    } else if s == "darkgrey"@ {
        Some(Color { red: 169, green: 169, blue: 169, alpha: 255 })
    } else if s == "darkkhaki"@ {
        Some(Color { red: 189, green: 183, blue: 107, alpha: 255 })
    } else if s == "darkmagenta"@ {
        Some(Color { red: 139, green: 0, blue: 139, alpha: 255 })
    } else if s == "darkolivegreen"@ {
        Some(Color { red: 85, green: 107, blue: 47, alpha: 255 })
    } else if s == "darkorange"@ {
        Some(Color { red: 255, green: 140, blue: 0, alpha: 255 })
    } else if s == "darkorchid"@ {
        Some(Color { red: 153, green: 50, blue: 204, alpha: 255 })
    } else if s == "darkred"@ {
        Some(Color { red: 139, green: 0, blue: 0, alpha: 255 })
    } else if s == "darksalmon"@ {
        Some(Color { red: 233, green: 150, blue: 122, alpha: 255 })
    } else if s == "darkseagreen"@ {
        Some(Color { red: 143, green: 188, blue: 143, alpha: 255 })
    } else if s == "darkslateblue"@ {
        Some(Color { red: 72, green: 61, blue: 139, alpha: 255 })
    } else if s == "darkslategray"@ {
        Some(Color { red: 47, green: 79, blue: 79, alpha: 255 })
    } else if s == "darkslategrey"@ {
        Some(Color { red: 47, green: 79, blue: 79, alpha: 255 })
    } else if s == "darkturquoise"@ {
        Some(Color { red: 0, green: 206, blue: 209, alpha: 255 })
    } else if s == "darkviolet"@ {
        Some(Color { red: 148, green: 0, blue: 211, alpha: 255 })
    } else {
        spec_named_color_2(s)
    }
}

/// Looks one part of the CSS named-color table up.
fn named_color_1(name: &str) -> (r: Option<Color>)
    ensures
        r == spec_named_color_1(name@),
{
    if str_eq(name, "aliceblue") {
        Some(Color { red: 240, green: 248, blue: 255, alpha: 255 })
    } else if str_eq(name, "antiquewhite") {
        Some(Color { red: 250, green: 235, blue: 215, alpha: 255 })
    } else if str_eq(name, "aqua") {
        Some(Color { red: 0, green: 255, blue: 255, alpha: 255 })
    } else if str_eq(name, "aquamarine") {
        Some(Color { red: 127, green: 255, blue: 212, alpha: 255 })
    } else if str_eq(name, "azure") {
        Some(Color { red: 240, green: 255, blue: 255, alpha: 255 })
    } else if str_eq(name, "beige") {
        Some(Color { red: 245, green: 245, blue: 220, alpha: 255 })
    } else if str_eq(name, "bisque") {
        Some(Color { red: 255, green: 228, blue: 196, alpha: 255 })
    } else if str_eq(name, "black") {
        Some(Color { red: 0, green: 0, blue: 0, alpha: 255 })
    } else if str_eq(name, "blanchedalmond") {
        Some(Color { red: 255, green: 235, blue: 205, alpha: 255 })
    } else if str_eq(name, "blue") {
        Some(Color { red: 0, green: 0, blue: 255, alpha: 255 })
    } else if str_eq(name, "blueviolet") {
        Some(Color { red: 138, green: 43, blue: 226, alpha: 255 })
    } else if str_eq(name, "brown") {
        Some(Color { red: 165, green: 42, blue: 42, alpha: 255 })
    } else if str_eq(name, "burlywood") {
        Some(Color { red: 222, green: 184, blue: 135, alpha: 255 })
    } else if str_eq(name, "cadetblue") {
        Some(Color { red: 95, green: 158, blue: 160, alpha: 255 })
    } else if str_eq(name, "chartreuse") {
        Some(Color { red: 127, green: 255, blue: 0, alpha: 255 })
    } else if str_eq(name, "chocolate") {
        Some(Color { red: 210, green: 105, blue: 30, alpha: 255 })
    } else if str_eq(name, "coral") {
        Some(Color { red: 255, green: 127, blue: 80, alpha: 255 })
    } else if str_eq(name, "cornflowerblue") {
        Some(Color { red: 100, green: 149, blue: 237, alpha: 255 })
    } else if str_eq(name, "cornsilk") {
        Some(Color { red: 255, green: 248, blue: 220, alpha: 255 })
    } else if str_eq(name, "crimson") {
        Some(Color { red: 220, green: 20, blue: 60, alpha: 255 })
    } else if str_eq(name, "cyan") {
        Some(Color { red: 0, green: 255, blue: 255, alpha: 255 })
    } else if str_eq(name, "darkblue") {
        Some(Color { red: 0, green: 0, blue: 139, alpha: 255 })
    } else if str_eq(name, "darkcyan") {
        Some(Color { red: 0, green: 139, blue: 139, alpha: 255 })
    } else if str_eq(name, "darkgoldenrod") {
        Some(Color { red: 184, green: 134, blue: 11, alpha: 255 })
    } else if str_eq(name, "darkgray") {
        Some(Color { red: 169, green: 169, blue: 169, alpha: 255 })
    } else if str_eq(name, "darkgreen") {
        Some(Color { red: 0, green: 100, blue: 0, alpha: 255 })
    } else if str_eq(name, "darkgrey") {
        Some(Color { red: 169, green: 169, blue: 169, alpha: 255 })
    } else if str_eq(name, "darkkhaki") {
        Some(Color { red: 189, green: 183, blue: 107, alpha: 255 })
    } else if str_eq(name, "darkmagenta") {
        Some(Color { red: 139, green: 0, blue: 139, alpha: 255 })
    } else if str_eq(name, "darkolivegreen") {
        Some(Color { red: 85, green: 107, blue: 47, alpha: 255 })
    } else if str_eq(name, "darkorange") {
        Some(Color { red: 255, green: 140, blue: 0, alpha: 255 })
    } else if str_eq(name, "darkorchid") {
        Some(Color { red: 153, green: 50, blue: 204, alpha: 255 })
    } else if str_eq(name, "darkred") {
        Some(Color { red: 139, green: 0, blue: 0, alpha: 255 })
    } else if str_eq(name, "darksalmon") {
        Some(Color { red: 233, green: 150, blue: 122, alpha: 255 })
    } else if str_eq(name, "darkseagreen") {
        Some(Color { red: 143, green: 188, blue: 143, alpha: 255 })
    } else if str_eq(name, "darkslateblue") {
        Some(Color { red: 72, green: 61, blue: 139, alpha: 255 })
    } else if str_eq(name, "darkslategray") {
        Some(Color { red: 47, green: 79, blue: 79, alpha: 255 })
    } else if str_eq(name, "darkslategrey") {
        Some(Color { red: 47, green: 79, blue: 79, alpha: 255 })
    } else if str_eq(name, "darkturquoise") {
        Some(Color { red: 0, green: 206, blue: 209, alpha: 255 })
    } else if str_eq(name, "darkviolet") {
        Some(Color { red: 148, green: 0, blue: 211, alpha: 255 })
    } else {
        named_color_2(name)
    }
}

/// One part of the CSS named-color table.
pub open spec fn spec_named_color_2(s: Seq<char>) -> Option<Color> {
    if s == "deeppink"@ {
        Some(Color { red: 255, green: 20, blue: 147, alpha: 255 })
    } else if s == "deepskyblue"@ {
        Some(Color { red: 0, green: 191, blue: 255, alpha: 255 })
    } else if s == "dimgray"@ {
        Some(Color { red: 105, green: 105, blue: 105, alpha: 255 })
    } else if s == "dimgrey"@ {
        Some(Color { red: 105, green: 105, blue: 105, alpha: 255 })
    } else if s == "dodgerblue"@ {
        Some(Color { red: 30, green: 144, blue: 255, alpha: 255 })
    } else if s == "firebrick"@ {
        Some(Color { red: 178, green: 34, blue: 34, alpha: 255 })
    } else if s == "floralwhite"@ {
        Some(Color { red: 255, green: 250, blue: 240, alpha: 255 })
    } else if s == "forestgreen"@ {
        Some(Color { red: 34, green: 139, blue: 34, alpha: 255 })
    } else if s == "fuchsia"@ {
        Some(Color { red: 255, green: 0, blue: 255, alpha: 255 })
    } else if s == "gainsboro"@ {
        Some(Color { red: 220, green: 220, blue: 220, alpha: 255 })
    } else if s == "ghostwhite"@ {
        Some(Color { red: 248, green: 248, blue: 255, alpha: 255 })
    } else if s == "gold"@ {
        Some(Color { red: 255, green: 215, blue: 0, alpha: 255 })
    } else if s == "goldenrod"@ {
        Some(Color { red: 218, green: 165, blue: 32, alpha: 255 })
    } else if s == "gray"@ {
        Some(Color { red: 128, green: 128, blue: 128, alpha: 255 })
    } else if s == "green"@ {
        Some(Color { red: 0, green: 128, blue: 0, alpha: 255 })
    } else if s == "greenyellow"@ {
        Some(Color { red: 173, green: 255, blue: 47, alpha: 255 })
    } else if s == "grey"@ {
        Some(Color { red: 128, green: 128, blue: 128, alpha: 255 })
    } else if s == "honeydew"@ {
        Some(Color { red: 240, green: 255, blue: 240, alpha: 255 })
    } else if s == "hotpink"@ {
        Some(Color { red: 255, green: 105, blue: 180, alpha: 255 })
    } else if s == "indianred"@ {
        Some(Color { red: 205, green: 92, blue: 92, alpha: 255 })
    } else if s == "indigo"@ {
        Some(Color { red: 75, green: 0, blue: 130, alpha: 255 })
    } else if s == "ivory"@ {
        Some(Color { red: 255, green: 255, blue: 240, alpha: 255 })
    } else if s == "khaki"@ {
        Some(Color { red: 240, green: 230, blue: 140, alpha: 255 })
    } else if s == "lavender"@ {
        Some(Color { red: 230, green: 230, blue: 250, alpha: 255 })
    } else if s == "lavenderblush"@ {
        Some(Color { red: 255, green: 240, blue: 245, alpha: 255 })
    } else if s == "lawngreen"@ {
        Some(Color { red: 124, green: 252, blue: 0, alpha: 255 })
    } else if s == "lemonchiffon"@ {
        Some(Color { red: 255, green: 250, blue: 205, alpha: 255 })
    } else if s == "lightblue"@ {
        Some(Color { red: 173, green: 216, blue: 230, alpha: 255 })
    } else if s == "lightcoral"@ {
        Some(Color { red: 240, green: 128, blue: 128, alpha: 255 })
    } else if s == "lightcyan"@ {
        Some(Color { red: 224, green: 255, blue: 255, alpha: 255 })
    } else if s == "lightgoldenrodyellow"@ {
        Some(Color { red: 250, green: 250, blue: 210, alpha: 255 })
    } else if s == "lightgray"@ {
        Some(Color { red: 211, green: 211, blue: 211, alpha: 255 })
    } else if s == "lightgreen"@ {
        Some(Color { red: 144, green: 238, blue: 144, alpha: 255 })
    } else if s == "lightgrey"@ {
        Some(Color { red: 211, green: 211, blue: 211, alpha: 255 })
    } else if s == "lightpink"@ {
        Some(Color { red: 255, green: 182, blue: 193, alpha: 255 })
    } else if s == "lightsalmon"@ {
        Some(Color { red: 255, green: 160, blue: 122, alpha: 255 })
    } else if s == "lightseagreen"@ {
        Some(Color { red: 32, green: 178, blue: 170, alpha: 255 })
    } else if s == "lightskyblue"@ {
        Some(Color { red: 135, green: 206, blue: 250, alpha: 255 })
    } else if s == "lightslategray"@ {
        Some(Color { red: 119, green: 136, blue: 153, alpha: 255 })
    } else if s == "lightslategrey"@ {
        Some(Color { red: 119, green: 136, blue: 153, alpha: 255 })
    } else {
        spec_named_color_3(s)
    }
}

/// Looks one part of the CSS named-color table up.
fn named_color_2(name: &str) -> (r: Option<Color>)
    ensures
        r == spec_named_color_2(name@),
{
    if str_eq(name, "deeppink") {
        Some(Color { red: 255, green: 20, blue: 147, alpha: 255 })
    } else if str_eq(name, "deepskyblue") {
        Some(Color { red: 0, green: 191, blue: 255, alpha: 255 })
    } else if str_eq(name, "dimgray") {
        Some(Color { red: 105, green: 105, blue: 105, alpha: 255 })
    } else if str_eq(name, "dimgrey") {
        Some(Color { red: 105, green: 105, blue: 105, alpha: 255 })
    } else if str_eq(name, "dodgerblue") {
        Some(Color { red: 30, green: 144, blue: 255, alpha: 255 })
    } else if str_eq(name, "firebrick") {
        Some(Color { red: 178, green: 34, blue: 34, alpha: 255 })
    } else if str_eq(name, "floralwhite") {
        Some(Color { red: 255, green: 250, blue: 240, alpha: 255 })
    } else if str_eq(name, "forestgreen") {
        Some(Color { red: 34, green: 139, blue: 34, alpha: 255 })
    } else if str_eq(name, "fuchsia") {
        Some(Color { red: 255, green: 0, blue: 255, alpha: 255 })
    } else if str_eq(name, "gainsboro") {
        Some(Color { red: 220, green: 220, blue: 220, alpha: 255 })
    } else if str_eq(name, "ghostwhite") {
        Some(Color { red: 248, green: 248, blue: 255, alpha: 255 })
    } else if str_eq(name, "gold") {
        Some(Color { red: 255, green: 215, blue: 0, alpha: 255 })
    } else if str_eq(name, "goldenrod") {
        Some(Color { red: 218, green: 165, blue: 32, alpha: 255 })
    } else if str_eq(name, "gray") {
        Some(Color { red: 128, green: 128, blue: 128, alpha: 255 })
    } else if str_eq(name, "green") {
        Some(Color { red: 0, green: 128, blue: 0, alpha: 255 })
    } else if str_eq(name, "greenyellow") {
        Some(Color { red: 173, green: 255, blue: 47, alpha: 255 })
    } else if str_eq(name, "grey") {
        Some(Color { red: 128, green: 128, blue: 128, alpha: 255 })
    } else if str_eq(name, "honeydew") {
        Some(Color { red: 240, green: 255, blue: 240, alpha: 255 })
    } else if str_eq(name, "hotpink") {
        Some(Color { red: 255, green: 105, blue: 180, alpha: 255 })
    } else if str_eq(name, "indianred") {
        Some(Color { red: 205, green: 92, blue: 92, alpha: 255 })
    } else if str_eq(name, "indigo") {
        Some(Color { red: 75, green: 0, blue: 130, alpha: 255 })
    } else if str_eq(name, "ivory") {
        Some(Color { red: 255, green: 255, blue: 240, alpha: 255 })
    } else if str_eq(name, "khaki") {
        Some(Color { red: 240, green: 230, blue: 140, alpha: 255 })
    } else if str_eq(name, "lavender") {
        Some(Color { red: 230, green: 230, blue: 250, alpha: 255 })
    } else if str_eq(name, "lavenderblush") {
        Some(Color { red: 255, green: 240, blue: 245, alpha: 255 })
    } else if str_eq(name, "lawngreen") {
        Some(Color { red: 124, green: 252, blue: 0, alpha: 255 })
    } else if str_eq(name, "lemonchiffon") {
        Some(Color { red: 255, green: 250, blue: 205, alpha: 255 })
    } else if str_eq(name, "lightblue") {
        Some(Color { red: 173, green: 216, blue: 230, alpha: 255 })
    } else if str_eq(name, "lightcoral") {
        Some(Color { red: 240, green: 128, blue: 128, alpha: 255 })
    } else if str_eq(name, "lightcyan") {
        Some(Color { red: 224, green: 255, blue: 255, alpha: 255 })
    } else if str_eq(name, "lightgoldenrodyellow") {
        Some(Color { red: 250, green: 250, blue: 210, alpha: 255 })
    } else if str_eq(name, "lightgray") {
        Some(Color { red: 211, green: 211, blue: 211, alpha: 255 })
    } else if str_eq(name, "lightgreen") {
        Some(Color { red: 144, green: 238, blue: 144, alpha: 255 })
    } else if str_eq(name, "lightgrey") {
        Some(Color { red: 211, green: 211, blue: 211, alpha: 255 })
    } else if str_eq(name, "lightpink") {
        Some(Color { red: 255, green: 182, blue: 193, alpha: 255 })
    } else if str_eq(name, "lightsalmon") {
        Some(Color { red: 255, green: 160, blue: 122, alpha: 255 })
    } else if str_eq(name, "lightseagreen") {
        Some(Color { red: 32, green: 178, blue: 170, alpha: 255 })
    } else if str_eq(name, "lightskyblue") {
        Some(Color { red: 135, green: 206, blue: 250, alpha: 255 })
    } else if str_eq(name, "lightslategray") {
        Some(Color { red: 119, green: 136, blue: 153, alpha: 255 })
    } else if str_eq(name, "lightslategrey") {
        Some(Color { red: 119, green: 136, blue: 153, alpha: 255 })
    } else {
        named_color_3(name)
    }
}

/// One part of the CSS named-color table.
pub open spec fn spec_named_color_3(s: Seq<char>) -> Option<Color> {
    if s == "lightsteelblue"@ {
        Some(Color { red: 176, green: 196, blue: 222, alpha: 255 })
    } else if s == "lightyellow"@ {
        Some(Color { red: 255, green: 255, blue: 224, alpha: 255 })
    } else if s == "lime"@ {
        Some(Color { red: 0, green: 255, blue: 0, alpha: 255 })
    } else if s == "limegreen"@ {
        Some(Color { red: 50, green: 205, blue: 50, alpha: 255 })
    } else if s == "linen"@ {
        Some(Color { red: 250, green: 240, blue: 230, alpha: 255 })
    } else if s == "magenta"@ {
        Some(Color { red: 255, green: 0, blue: 255, alpha: 255 })
    } else if s == "maroon"@ {
        Some(Color { red: 128, green: 0, blue: 0, alpha: 255 })
    } else if s == "mediumaquamarine"@ {
        Some(Color { red: 102, green: 205, blue: 170, alpha: 255 })
    } else if s == "mediumblue"@ {
        Some(Color { red: 0, green: 0, blue: 205, alpha: 255 })
    } else if s == "mediumorchid"@ {
        Some(Color { red: 186, green: 85, blue: 211, alpha: 255 })
    } else if s == "mediumpurple"@ {
        Some(Color { red: 147, green: 112, blue: 219, alpha: 255 })
    } else if s == "mediumseagreen"@ {
        Some(Color { red: 60, green: 179, blue: 113, alpha: 255 })
    } else if s == "mediumslateblue"@ {
        Some(Color { red: 123, green: 104, blue: 238, alpha: 255 })
    } else if s == "mediumspringgreen"@ {
        Some(Color { red: 0, green: 250, blue: 154, alpha: 255 })
    } else if s == "mediumturquoise"@ {
        Some(Color { red: 72, green: 209, blue: 204, alpha: 255 })
    } else if s == "mediumvioletred"@ {
        Some(Color { red: 199, green: 21, blue: 133, alpha: 255 })
    } else if s == "midnightblue"@ {
        Some(Color { red: 25, green: 25, blue: 112, alpha: 255 })
    } else if s == "mintcream"@ {
        Some(Color { red: 245, green: 255, blue: 250, alpha: 255 })
    } else if s == "mistyrose"@ {
        Some(Color { red: 255, green: 228, blue: 225, alpha: 255 })
    } else if s == "moccasin"@ {
        Some(Color { red: 255, green: 228, blue: 181, alpha: 255 })
    } else if s == "navajowhite"@ {
        Some(Color { red: 255, green: 222, blue: 173, alpha: 255 })
    } else if s == "navy"@ {
        Some(Color { red: 0, green: 0, blue: 128, alpha: 255 })
    } else if s == "oldlace"@ {
        Some(Color { red: 253, green: 245, blue: 230, alpha: 255 })
    } else if s == "olive"@ {
        Some(Color { red: 128, green: 128, blue: 0, alpha: 255 })
    } else if s == "olivedrab"@ {
        Some(Color { red: 107, green: 142, blue: 35, alpha: 255 })
    } else if s == "orange"@ {
        Some(Color { red: 255, green: 165, blue: 0, alpha: 255 })
    } else if s == "orangered"@ {
        Some(Color { red: 255, green: 69, blue: 0, alpha: 255 })
    } else if s == "orchid"@ {
        Some(Color { red: 218, green: 112, blue: 214, alpha: 255 })
    } else if s == "palegoldenrod"@ {
        Some(Color { red: 238, green: 232, blue: 170, alpha: 255 })
    } else if s == "palegreen"@ {
        Some(Color { red: 152, green: 251, blue: 152, alpha: 255 })
    } else if s == "paleturquoise"@ {
        Some(Color { red: 175, green: 238, blue: 238, alpha: 255 })
    } else if s == "palevioletred"@ {
        Some(Color { red: 219, green: 112, blue: 147, alpha: 255 })
    } else if s == "papayawhip"@ {
        Some(Color { red: 255, green: 239, blue: 213, alpha: 255 })
    } else if s == "peachpuff"@ {
        Some(Color { red: 255, green: 218, blue: 185, alpha: 255 })
    } else if s == "peru"@ {
        Some(Color { red: 205, green: 133, blue: 63, alpha: 255 })
    } else if s == "pink"@ {
        Some(Color { red: 255, green: 192, blue: 203, alpha: 255 })
    } else if s == "plum"@ {
        Some(Color { red: 221, green: 160, blue: 221, alpha: 255 })
    } else if s == "powderblue"@ {
        Some(Color { red: 176, green: 224, blue: 230, alpha: 255 })
    } else if s == "purple"@ {
        Some(Color { red: 128, green: 0, blue: 128, alpha: 255 })
    } else if s == "rebeccapurple"@ {
        Some(Color { red: 102, green: 51, blue: 153, alpha: 255 })
    } else {
        spec_named_color_4(s)
    }
}

/// Looks one part of the CSS named-color table up.
fn named_color_3(name: &str) -> (r: Option<Color>)
    ensures
        r == spec_named_color_3(name@),
{
    if str_eq(name, "lightsteelblue") {
        Some(Color { red: 176, green: 196, blue: 222, alpha: 255 })
    } else if str_eq(name, "lightyellow") {
        Some(Color { red: 255, green: 255, blue: 224, alpha: 255 })
    } else if str_eq(name, "lime") {
        Some(Color { red: 0, green: 255, blue: 0, alpha: 255 })
    } else if str_eq(name, "limegreen") {
        Some(Color { red: 50, green: 205, blue: 50, alpha: 255 })
    } else if str_eq(name, "linen") {
        Some(Color { red: 250, green: 240, blue: 230, alpha: 255 })
    } else if str_eq(name, "magenta") {
        Some(Color { red: 255, green: 0, blue: 255, alpha: 255 })
    } else if str_eq(name, "maroon") {
        Some(Color { red: 128, green: 0, blue: 0, alpha: 255 })
    } else if str_eq(name, "mediumaquamarine") {
        Some(Color { red: 102, green: 205, blue: 170, alpha: 255 })
    } else if str_eq(name, "mediumblue") {
        Some(Color { red: 0, green: 0, blue: 205, alpha: 255 })
    } else if str_eq(name, "mediumorchid") {
        Some(Color { red: 186, green: 85, blue: 211, alpha: 255 })
    } else if str_eq(name, "mediumpurple") {
        Some(Color { red: 147, green: 112, blue: 219, alpha: 255 })
    } else if str_eq(name, "mediumseagreen") {
        Some(Color { red: 60, green: 179, blue: 113, alpha: 255 })
    } else if str_eq(name, "mediumslateblue") {
        Some(Color { red: 123, green: 104, blue: 238, alpha: 255 })
    } else if str_eq(name, "mediumspringgreen") {
        Some(Color { red: 0, green: 250, blue: 154, alpha: 255 })
    } else if str_eq(name, "mediumturquoise") {
        Some(Color { red: 72, green: 209, blue: 204, alpha: 255 })
    } else if str_eq(name, "mediumvioletred") {
        Some(Color { red: 199, green: 21, blue: 133, alpha: 255 })
    } else if str_eq(name, "midnightblue") {
        Some(Color { red: 25, green: 25, blue: 112, alpha: 255 })
    } else if str_eq(name, "mintcream") {
        Some(Color { red: 245, green: 255, blue: 250, alpha: 255 })
    } else if str_eq(name, "mistyrose") {
        Some(Color { red: 255, green: 228, blue: 225, alpha: 255 })
    } else if str_eq(name, "moccasin") {
        Some(Color { red: 255, green: 228, blue: 181, alpha: 255 })
    } else if str_eq(name, "navajowhite") {
        Some(Color { red: 255, green: 222, blue: 173, alpha: 255 })
    } else if str_eq(name, "navy") {
        Some(Color { red: 0, green: 0, blue: 128, alpha: 255 })
    } else if str_eq(name, "oldlace") {
        Some(Color { red: 253, green: 245, blue: 230, alpha: 255 })
    } else if str_eq(name, "olive") {
        Some(Color { red: 128, green: 128, blue: 0, alpha: 255 })
    } else if str_eq(name, "olivedrab") {
        Some(Color { red: 107, green: 142, blue: 35, alpha: 255 })
    } else if str_eq(name, "orange") {
        Some(Color { red: 255, green: 165, blue: 0, alpha: 255 })
    } else if str_eq(name, "orangered") {
        Some(Color { red: 255, green: 69, blue: 0, alpha: 255 })
    } else if str_eq(name, "orchid") {
        Some(Color { red: 218, green: 112, blue: 214, alpha: 255 })
    } else if str_eq(name, "palegoldenrod") {
        Some(Color { red: 238, green: 232, blue: 170, alpha: 255 })
    } else if str_eq(name, "palegreen") {
        Some(Color { red: 152, green: 251, blue: 152, alpha: 255 })
    } else if str_eq(name, "paleturquoise") {
        Some(Color { red: 175, green: 238, blue: 238, alpha: 255 })
    } else if str_eq(name, "palevioletred") {
        Some(Color { red: 219, green: 112, blue: 147, alpha: 255 })
    } else if str_eq(name, "papayawhip") {
        Some(Color { red: 255, green: 239, blue: 213, alpha: 255 })
    } else if str_eq(name, "peachpuff") {
        Some(Color { red: 255, green: 218, blue: 185, alpha: 255 })
    } else if str_eq(name, "peru") {
        Some(Color { red: 205, green: 133, blue: 63, alpha: 255 })
    } else if str_eq(name, "pink") {
        Some(Color { red: 255, green: 192, blue: 203, alpha: 255 })
    } else if str_eq(name, "plum") {
        Some(Color { red: 221, green: 160, blue: 221, alpha: 255 })
    } else if str_eq(name, "powderblue") {
        Some(Color { red: 176, green: 224, blue: 230, alpha: 255 })
    } else if str_eq(name, "purple") {
        Some(Color { red: 128, green: 0, blue: 128, alpha: 255 })
    } else if str_eq(name, "rebeccapurple") {
        Some(Color { red: 102, green: 51, blue: 153, alpha: 255 })
    } else {
        named_color_4(name)
    }
}

/// One part of the CSS named-color table.
pub open spec fn spec_named_color_4(s: Seq<char>) -> Option<Color> {
    if s == "red"@ {
        Some(Color { red: 255, green: 0, blue: 0, alpha: 255 })
    } else if s == "rosybrown"@ {
        Some(Color { red: 188, green: 143, blue: 143, alpha: 255 })
    } else if s == "royalblue"@ {
        Some(Color { red: 65, green: 105, blue: 225, alpha: 255 })
    } else if s == "saddlebrown"@ {
        Some(Color { red: 139, green: 69, blue: 19, alpha: 255 })
    } else if s == "salmon"@ {
        Some(Color { red: 250, green: 128, blue: 114, alpha: 255 })
    } else if s == "sandybrown"@ {
        Some(Color { red: 244, green: 164, blue: 96, alpha: 255 })
    } else if s == "seagreen"@ {
        Some(Color { red: 46, green: 139, blue: 87, alpha: 255 })
    } else if s == "seashell"@ {
        Some(Color { red: 255, green: 245, blue: 238, alpha: 255 })
    } else if s == "sienna"@ {
        Some(Color { red: 160, green: 82, blue: 45, alpha: 255 })
    } else if s == "silver"@ {
        Some(Color { red: 192, green: 192, blue: 192, alpha: 255 })
    } else if s == "skyblue"@ {
        Some(Color { red: 135, green: 206, blue: 235, alpha: 255 })
    } else if s == "slateblue"@ {
        Some(Color { red: 106, green: 90, blue: 205, alpha: 255 })
    } else if s == "slategray"@ {
        Some(Color { red: 112, green: 128, blue: 144, alpha: 255 })
    } else if s == "slategrey"@ {
        Some(Color { red: 112, green: 128, blue: 144, alpha: 255 })
    } else if s == "snow"@ {
        Some(Color { red: 255, green: 250, blue: 250, alpha: 255 })
    } else if s == "springgreen"@ {
        Some(Color { red: 0, green: 255, blue: 127, alpha: 255 })
    } else if s == "steelblue"@ {
        Some(Color { red: 70, green: 130, blue: 180, alpha: 255 })
    } else if s == "tan"@ {
        Some(Color { red: 210, green: 180, blue: 140, alpha: 255 })
    } else if s == "teal"@ {
        Some(Color { red: 0, green: 128, blue: 128, alpha: 255 })
    } else if s == "thistle"@ {
        Some(Color { red: 216, green: 191, blue: 216, alpha: 255 })
    } else if s == "tomato"@ {
        Some(Color { red: 255, green: 99, blue: 71, alpha: 255 })
    } else if s == "turquoise"@ {
        Some(Color { red: 64, green: 224, blue: 208, alpha: 255 })
    } else if s == "violet"@ {
        Some(Color { red: 238, green: 130, blue: 238, alpha: 255 })
    } else if s == "wheat"@ {
        Some(Color { red: 245, green: 222, blue: 179, alpha: 255 })
    } else if s == "white"@ {
        Some(Color { red: 255, green: 255, blue: 255, alpha: 255 })
    } else if s == "whitesmoke"@ {
        Some(Color { red: 245, green: 245, blue: 245, alpha: 255 })
    } else if s == "yellow"@ {
        Some(Color { red: 255, green: 255, blue: 0, alpha: 255 })
    } else if s == "yellowgreen"@ {
        Some(Color { red: 154, green: 205, blue: 50, alpha: 255 })
    } else {
        None
    }
}

/// Looks one part of the CSS named-color table up.
fn named_color_4(name: &str) -> (r: Option<Color>)
    ensures
        r == spec_named_color_4(name@),
{
    if str_eq(name, "red") {
        Some(Color { red: 255, green: 0, blue: 0, alpha: 255 })
    } else if str_eq(name, "rosybrown") {
        Some(Color { red: 188, green: 143, blue: 143, alpha: 255 })
    } else if str_eq(name, "royalblue") {
        Some(Color { red: 65, green: 105, blue: 225, alpha: 255 })
    } else if str_eq(name, "saddlebrown") {
        Some(Color { red: 139, green: 69, blue: 19, alpha: 255 })
    } else if str_eq(name, "salmon") {
        Some(Color { red: 250, green: 128, blue: 114, alpha: 255 })
    } else if str_eq(name, "sandybrown") {
        Some(Color { red: 244, green: 164, blue: 96, alpha: 255 })
    } else if str_eq(name, "seagreen") {
        Some(Color { red: 46, green: 139, blue: 87, alpha: 255 })
    } else if str_eq(name, "seashell") {
        Some(Color { red: 255, green: 245, blue: 238, alpha: 255 })
    } else if str_eq(name, "sienna") {
        Some(Color { red: 160, green: 82, blue: 45, alpha: 255 })
    } else if str_eq(name, "silver") {
        Some(Color { red: 192, green: 192, blue: 192, alpha: 255 })
    } else if str_eq(name, "skyblue") {
        Some(Color { red: 135, green: 206, blue: 235, alpha: 255 })
    } else if str_eq(name, "slateblue") {
        Some(Color { red: 106, green: 90, blue: 205, alpha: 255 })
    } else if str_eq(name, "slategray") {
        Some(Color { red: 112, green: 128, blue: 144, alpha: 255 })
    } else if str_eq(name, "slategrey") {
        Some(Color { red: 112, green: 128, blue: 144, alpha: 255 })
    } else if str_eq(name, "snow") {
        Some(Color { red: 255, green: 250, blue: 250, alpha: 255 })
    } else if str_eq(name, "springgreen") {
        Some(Color { red: 0, green: 255, blue: 127, alpha: 255 })
    } else if str_eq(name, "steelblue") {
        Some(Color { red: 70, green: 130, blue: 180, alpha: 255 })
    } else if str_eq(name, "tan") {
        Some(Color { red: 210, green: 180, blue: 140, alpha: 255 })
    } else if str_eq(name, "teal") {
        Some(Color { red: 0, green: 128, blue: 128, alpha: 255 })
    } else if str_eq(name, "thistle") {
        Some(Color { red: 216, green: 191, blue: 216, alpha: 255 })
    } else if str_eq(name, "tomato") {
        Some(Color { red: 255, green: 99, blue: 71, alpha: 255 })
    } else if str_eq(name, "turquoise") {
        Some(Color { red: 64, green: 224, blue: 208, alpha: 255 })
    } else if str_eq(name, "violet") {
        Some(Color { red: 238, green: 130, blue: 238, alpha: 255 })
    } else if str_eq(name, "wheat") {
        Some(Color { red: 245, green: 222, blue: 179, alpha: 255 })
    } else if str_eq(name, "white") {
        Some(Color { red: 255, green: 255, blue: 255, alpha: 255 })
    } else if str_eq(name, "whitesmoke") {
        Some(Color { red: 245, green: 245, blue: 245, alpha: 255 })
    } else if str_eq(name, "yellow") {
        Some(Color { red: 255, green: 255, blue: 0, alpha: 255 })
    } else if str_eq(name, "yellowgreen") {
        Some(Color { red: 154, green: 205, blue: 50, alpha: 255 })
    } else {
        None
    }
}

} // verus!
