//! Colour themes.
use crate::rounding;
use crate::text;
use vstd::prelude::*;
use vstd::string::*;
use vstd::utf8::*;

verus! {

broadcast use vstd::seq_lib::group_seq_properties;

/// A colour.
#[derive(Debug, Clone, Copy, PartialEq, Eq, Structural)]
pub struct Rgb {
    /// The red part.
    pub red: u8,
    /// The green part.
    pub green: u8,
    /// The blue part.
    pub blue: u8,
}

/// The value of a hexadecimal digit.
pub open spec fn hex_digit(b: u8) -> Option<u8> {
    if 0x30 <= b <= 0x39 {
        Some((b - 0x30) as u8)
    } else if 0x41 <= b <= 0x46 {
        Some((b - 0x37) as u8)
    } else if 0x61 <= b <= 0x66 {
        Some((b - 0x57) as u8)
    } else {
        None
    }
}

/// The value of two characters at `i`: of two hexadecimal digits, or of a plus sign and
/// one digit. Where something else stands there or nothing does, it is zero.
pub open spec fn pair_value(b: Seq<u8>, i: int) -> u8 {
    if i + 2 > b.len() {
        0
    } else {
        match (hex_digit(b[i]), hex_digit(b[i + 1])) {
            (Some(high), Some(low)) => (16 * high + low) as u8,
            (None, Some(low)) => if b[i] == 0x2b {
                low
            } else {
                0
            },
            _ => 0,
        }
    }
}

/// A text without the number signs at its front.
pub open spec fn without_signs(s: Seq<char>) -> Seq<char>
    decreases s.len(),
{
    if s.len() > 0 && s[0] == '#' {
        without_signs(s.drop_first())
    } else {
        s
    }
}

/// The colour that a text such as `#24273a` stands for. White space around it and number
/// signs in front of it do not count; a part that cannot be read is zero.
pub open spec fn color(hex: Seq<char>) -> Rgb {
    let b = encode_utf8(without_signs(text::trim(hex)));
    Rgb { red: pair_value(b, 0), green: pair_value(b, 2), blue: pair_value(b, 4) }
}

/// The value of a hexadecimal digit.
fn digit_value(b: u8) -> (r: Option<u8>)
    ensures
        r == hex_digit(b),
        r matches Some(d) ==> d < 16,
{
    if 0x30 <= b && b <= 0x39 {
        Some(b - 0x30)
    } else if 0x41 <= b && b <= 0x46 {
        Some(b - 0x37)
    } else if 0x61 <= b && b <= 0x66 {
        Some(b - 0x57)
    } else {
        None
    }
}

/// The value of two characters at `i`.
fn pair(b: &[u8], i: usize) -> (r: u8)
    requires
        i <= 4,
    ensures
        r == pair_value(b@, i as int),
{
    if b.len() < i + 2 {
        0
    } else {
        match (digit_value(b[i]), digit_value(b[i + 1])) {
            (Some(high), Some(low)) => 16 * high + low,
            (None, Some(low)) => if b[i] == 0x2b {
                low
            } else {
                0
            },
            _ => 0,
        }
    }
}

/// The colour that a text such as `#24273a` stands for.
pub fn parse_hex_color(hex: &str) -> (r: Rgb)
    ensures
        r == color(hex@),
{
    let chars = text::chars_of(hex);
    let t = text::trimmed(chars.as_slice());
    let mut i: usize = 0;
    assert(t@.skip(0) =~= t@);
    while i < t.len() && t[i] == '#'
        invariant
            i <= t@.len(),
            without_signs(t@) == without_signs(t@.skip(i as int)),
        decreases t@.len() - i,
    {
        assert(t@.skip(i as int).drop_first() =~= t@.skip(i + 1));
        i += 1;
    }
    let digits = text::cut(t.as_slice(), i, t.len());
    assert(digits@ =~= t@.skip(i as int));
    let digits = text::text_of(digits.as_slice());
    let b = digits.as_str().as_bytes();
    Rgb { red: pair(b, 0), green: pair(b, 2), blue: pair(b, 4) }
}

/// The colours of a theme, as texts.
#[derive(Debug)]
pub struct ThemeColors {
    /// The background.
    pub base: &'static str,
    /// A background one shade darker.
    pub mantle: &'static str,
    /// A background two shades darker.
    pub crust: &'static str,
    /// A surface.
    pub surface0: &'static str,
    /// A surface one shade further from the background.
    pub surface1: &'static str,
    /// A surface two shades further from the background.
    pub surface2: &'static str,
    /// A muted accent.
    pub overlay0: &'static str,
    /// A muted accent, lighter.
    pub overlay1: &'static str,
    /// A muted accent, lighter still.
    pub overlay2: &'static str,
    /// Faint text.
    pub subtext0: &'static str,
    /// Less faint text.
    pub subtext1: &'static str,
    /// Text.
    pub text: &'static str,
    /// The colour mauve.
    pub mauve: &'static str,
    /// The colour red.
    pub red: &'static str,
    /// The colour green.
    pub green: &'static str,
    /// The colour yellow.
    pub yellow: &'static str,
    /// The colour blue.
    pub blue: &'static str,
    /// The colour lavender.
    pub lavender: &'static str,
    /// The colour peach.
    pub peach: &'static str,
    /// The colour teal.
    pub teal: &'static str,
    /// The colour pink.
    pub pink: &'static str,
    /// The colour flamingo.
    pub flamingo: &'static str,
    /// The colour rosewater.
    pub rosewater: &'static str,
    /// The colour sapphire.
    pub sapphire: &'static str,
    /// The colour sky.
    pub sky: &'static str,
    /// The colour maroon.
    pub maroon: &'static str,
}

/// The colours of a window.
#[derive(Debug, Clone, Copy, PartialEq, Eq, Structural)]
pub struct Palette {
    /// The background.
    pub base: Rgb,
    /// A background one shade darker.
    pub mantle: Rgb,
    /// A background two shades darker.
    pub crust: Rgb,
    /// A surface.
    pub surface0: Rgb,
    /// A surface one shade further from the background.
    pub surface1: Rgb,
    /// A surface two shades further from the background.
    pub surface2: Rgb,
    /// A muted accent.
    pub overlay0: Rgb,
    /// A muted accent, lighter.
    pub overlay1: Rgb,
    /// A muted accent, lighter still.
    pub overlay2: Rgb,
    /// Faint text.
    pub subtext0: Rgb,
    /// Less faint text.
    pub subtext1: Rgb,
    /// Text.
    pub text: Rgb,
    /// The colour mauve.
    pub mauve: Rgb,
    /// The colour red.
    pub red: Rgb,
    /// The colour green.
    pub green: Rgb,
    /// The colour yellow.
    pub yellow: Rgb,
    /// The colour blue.
    pub blue: Rgb,
    /// The colour lavender.
    pub lavender: Rgb,
    /// The colour peach.
    pub peach: Rgb,
    /// The colour teal.
    pub teal: Rgb,
    /// The colour pink.
    pub pink: Rgb,
    /// The colour flamingo.
    pub flamingo: Rgb,
    /// The colour rosewater.
    pub rosewater: Rgb,
    /// The colour sapphire.
    pub sapphire: Rgb,
    /// The colour sky.
    pub sky: Rgb,
    /// The colour maroon.
    pub maroon: Rgb,
}

/// The colours that the texts of a theme stand for.
pub open spec fn painted(t: ThemeColors) -> Palette {
    Palette {
        base: color(t.base@),
        mantle: color(t.mantle@),
        crust: color(t.crust@),
        surface0: color(t.surface0@),
        surface1: color(t.surface1@),
        surface2: color(t.surface2@),
        overlay0: color(t.overlay0@),
        overlay1: color(t.overlay1@),
        overlay2: color(t.overlay2@),
        subtext0: color(t.subtext0@),
        subtext1: color(t.subtext1@),
        text: color(t.text@),
        mauve: color(t.mauve@),
        red: color(t.red@),
        green: color(t.green@),
        yellow: color(t.yellow@),
        blue: color(t.blue@),
        lavender: color(t.lavender@),
        peach: color(t.peach@),
        teal: color(t.teal@),
        pink: color(t.pink@),
        flamingo: color(t.flamingo@),
        rosewater: color(t.rosewater@),
        sapphire: color(t.sapphire@),
        sky: color(t.sky@),
        maroon: color(t.maroon@),
    }
}

/// The theme `catppuccin-macchiato`.
pub open spec fn macchiato() -> Palette {
    Palette {
        base: color("#24273a"@),
        mantle: color("#1e2030"@),
        crust: color("#181926"@),
        surface0: color("#363a4f"@),
        surface1: color("#494d64"@),
        surface2: color("#5b6078"@),
        overlay0: color("#6e738d"@),
        overlay1: color("#8087a2"@),
        overlay2: color("#939ab7"@),
        subtext0: color("#a5adcb"@),
        subtext1: color("#b8c0e0"@),
        text: color("#cad3f5"@),
        mauve: color("#c6a0f6"@),
        red: color("#ed8796"@),
        green: color("#a6da95"@),
        yellow: color("#eed49f"@),
        blue: color("#8aadf4"@),
        lavender: color("#b7bdf8"@),
        peach: color("#f5a97f"@),
        teal: color("#8bd5ca"@),
        pink: color("#f5bde6"@),
        flamingo: color("#f0c6c6"@),
        rosewater: color("#f4dbd6"@),
        sapphire: color("#7dc4e4"@),
        sky: color("#91d7e3"@),
        maroon: color("#ee99a0"@),
    }
}

/// The theme `catppuccin-macchiato`.
pub fn catppuccin_macchiato() -> (r: ThemeColors)
    ensures
        painted(r) == macchiato(),
{
    ThemeColors {
        base: "#24273a",
        mantle: "#1e2030",
        crust: "#181926",
        surface0: "#363a4f",
        surface1: "#494d64",
        surface2: "#5b6078",
        overlay0: "#6e738d",
        overlay1: "#8087a2",
        overlay2: "#939ab7",
        subtext0: "#a5adcb",
        subtext1: "#b8c0e0",
        text: "#cad3f5",
        mauve: "#c6a0f6",
        red: "#ed8796",
        green: "#a6da95",
        yellow: "#eed49f",
        blue: "#8aadf4",
        lavender: "#b7bdf8",
        peach: "#f5a97f",
        teal: "#8bd5ca",
        pink: "#f5bde6",
        flamingo: "#f0c6c6",
        rosewater: "#f4dbd6",
        sapphire: "#7dc4e4",
        sky: "#91d7e3",
        maroon: "#ee99a0",
    }
}

/// The theme `default-dark`.
pub open spec fn dark() -> Palette {
    Palette {
        base: color("#1a1b26"@),
        mantle: color("#16161e"@),
        crust: color("#13131a"@),
        surface0: color("#292e42"@),
        surface1: color("#33384d"@),
        surface2: color("#414868"@),
        overlay0: color("#565f89"@),
        overlay1: color("#6b7394"@),
        overlay2: color("#787c9e"@),
        subtext0: color("#9aa5ce"@),
        subtext1: color("#a9b1d6"@),
        text: color("#c0caf5"@),
        mauve: color("#bb9af7"@),
        red: color("#f7768e"@),
        green: color("#9ece6a"@),
        yellow: color("#e0af68"@),
        blue: color("#7aa2f7"@),
        lavender: color("#b4c0e9"@),
        peach: color("#ff9e64"@),
        teal: color("#73daca"@),
        pink: color("#f5c2e7"@),
        flamingo: color("#f2cdcd"@),
        rosewater: color("#f5e0dc"@),
        sapphire: color("#7dcfff"@),
        sky: color("#89ddff"@),
        maroon: color("#eb6f92"@),
    }
}

/// The theme `default-dark`.
pub fn default_dark() -> (r: ThemeColors)
    ensures
        painted(r) == dark(),
{
    ThemeColors {
        base: "#1a1b26",
        mantle: "#16161e",
        crust: "#13131a",
        surface0: "#292e42",
        surface1: "#33384d",
        surface2: "#414868",
        overlay0: "#565f89",
        overlay1: "#6b7394",
        overlay2: "#787c9e",
        subtext0: "#9aa5ce",
        subtext1: "#a9b1d6",
        text: "#c0caf5",
        mauve: "#bb9af7",
        red: "#f7768e",
        green: "#9ece6a",
        yellow: "#e0af68",
        blue: "#7aa2f7",
        lavender: "#b4c0e9",
        peach: "#ff9e64",
        teal: "#73daca",
        pink: "#f5c2e7",
        flamingo: "#f2cdcd",
        rosewater: "#f5e0dc",
        sapphire: "#7dcfff",
        sky: "#89ddff",
        maroon: "#eb6f92",
    }
}

/// The colours of a window under a theme.
pub fn apply_theme(theme: &ThemeColors) -> (r: Palette)
    ensures
        r == painted(*theme),
{
    Palette {
        base: parse_hex_color(theme.base),
        mantle: parse_hex_color(theme.mantle),
        crust: parse_hex_color(theme.crust),
        surface0: parse_hex_color(theme.surface0),
        surface1: parse_hex_color(theme.surface1),
        surface2: parse_hex_color(theme.surface2),
        overlay0: parse_hex_color(theme.overlay0),
        overlay1: parse_hex_color(theme.overlay1),
        overlay2: parse_hex_color(theme.overlay2),
        subtext0: parse_hex_color(theme.subtext0),
        subtext1: parse_hex_color(theme.subtext1),
        text: parse_hex_color(theme.text),
        mauve: parse_hex_color(theme.mauve),
        red: parse_hex_color(theme.red),
        green: parse_hex_color(theme.green),
        yellow: parse_hex_color(theme.yellow),
        blue: parse_hex_color(theme.blue),
        lavender: parse_hex_color(theme.lavender),
        peach: parse_hex_color(theme.peach),
        teal: parse_hex_color(theme.teal),
        pink: parse_hex_color(theme.pink),
        flamingo: parse_hex_color(theme.flamingo),
        rosewater: parse_hex_color(theme.rosewater),
        sapphire: parse_hex_color(theme.sapphire),
        sky: parse_hex_color(theme.sky),
        maroon: parse_hex_color(theme.maroon),
    }
}

/// How much of one colour and how much of another make a third, in units of `2^-30`: the
/// weights as singles hold them.
#[derive(Debug, Clone, Copy)]
pub struct Weights {
    /// The weight of the first colour.
    pub keep: u32,
    /// The weight of the second colour.
    pub mix: u32,
}

/// A part of a blended colour: the two parts with their weights, each product and the sum
/// rounded as a single, cut to the whole part.
pub open spec fn blended(a: u8, b: u8, w: Weights) -> u8 {
    let sum = rounding::single(
        rounding::single(a as nat * w.keep as nat) + rounding::single(b as nat * w.mix as nat),
    );
    let whole = sum / 0x4000_0000;
    if whole > 255 {
        255
    } else {
        whole as u8
    }
}

/// A part of a blended colour.
fn blend_part(a: u8, b: u8, w: Weights) -> (r: u8)
    requires
        w.keep <= 0x4000_0000,
        w.mix <= 0x4000_0000,
    ensures
        r == blended(a, b, w),
{
    assert(a as u128 * w.keep as u128 <= 255 * 0x4000_0000) by (nonlinear_arith)
        requires
            a <= 255,
            w.keep <= 0x4000_0000,
    ;
    assert(b as u128 * w.mix as u128 <= 255 * 0x4000_0000) by (nonlinear_arith)
        requires
            b <= 255,
            w.mix <= 0x4000_0000,
    ;
    let first: u128 = rounding::as_single(a as u128 * w.keep as u128);
    let second: u128 = rounding::as_single(b as u128 * w.mix as u128);
    let sum: u128 = rounding::as_single(first + second);
    let whole: u128 = sum / 0x4000_0000;
    if whole > 255 {
        255
    } else {
        whole as u8
    }
}

/// Two colours blended.
pub open spec fn blend(a: Rgb, b: Rgb, w: Weights) -> Rgb {
    Rgb {
        red: blended(a.red, b.red, w),
        green: blended(a.green, b.green, w),
        blue: blended(a.blue, b.blue, w),
    }
}

/// Two colours blended.
pub fn lerp_color(a: Rgb, b: Rgb, w: Weights) -> (r: Rgb)
    requires
        w.keep <= 0x4000_0000,
        w.mix <= 0x4000_0000,
    ensures
        r == blend(a, b, w),
{
    Rgb {
        red: blend_part(a.red, b.red, w),
        green: blend_part(a.green, b.green, w),
        blue: blend_part(a.blue, b.blue, w),
    }
}

/// The weights for some percent of the second colour. Only the percentages that themes
/// use have weights of their own; any other gives the first colour alone.
pub open spec fn percent(n: u32) -> Weights {
    if n == 8 {
        Weights { keep: 987842496, mix: 85899344 }
    } else if n == 10 {
        Weights { keep: 966367616, mix: 107374184 }
    } else if n == 12 {
        Weights { keep: 944892800, mix: 128849016 }
    } else if n == 16 {
        Weights { keep: 901943168, mix: 171798688 }
    } else if n == 20 {
        Weights { keep: 858993472, mix: 214748368 }
    } else if n == 25 {
        Weights { keep: 805306368, mix: 268435456 }
    } else if n == 30 {
        Weights { keep: 751619264, mix: 322122560 }
    } else if n == 35 {
        Weights { keep: 697932160, mix: 375809632 }
    } else if n == 40 {
        Weights { keep: 644245120, mix: 429496736 }
    } else if n == 45 {
        Weights { keep: 590558016, mix: 483183808 }
    } else if n == 50 {
        Weights { keep: 536870912, mix: 536870912 }
    } else if n == 55 {
        Weights { keep: 483183808, mix: 590558016 }
    } else {
        Weights { keep: 0x4000_0000, mix: 0 }
    }
}

/// The weights for some percent of the second colour.
fn weights(n: u32) -> (r: Weights)
    ensures
        r == percent(n),
        r.keep <= 0x4000_0000,
        r.mix <= 0x4000_0000,
{
    if n == 8 {
        Weights { keep: 987842496, mix: 85899344 }
    } else if n == 10 {
        Weights { keep: 966367616, mix: 107374184 }
    } else if n == 12 {
        Weights { keep: 944892800, mix: 128849016 }
    } else if n == 16 {
        Weights { keep: 901943168, mix: 171798688 }
    } else if n == 20 {
        Weights { keep: 858993472, mix: 214748368 }
    } else if n == 25 {
        Weights { keep: 805306368, mix: 268435456 }
    } else if n == 30 {
        Weights { keep: 751619264, mix: 322122560 }
    } else if n == 35 {
        Weights { keep: 697932160, mix: 375809632 }
    } else if n == 40 {
        Weights { keep: 644245120, mix: 429496736 }
    } else if n == 45 {
        Weights { keep: 590558016, mix: 483183808 }
    } else if n == 50 {
        Weights { keep: 536870912, mix: 536870912 }
    } else if n == 55 {
        Weights { keep: 483183808, mix: 590558016 }
    } else {
        Weights { keep: 0x4000_0000, mix: 0 }
    }
}

/// The colours that a theme of the user's own is made of.
#[derive(Debug)]
pub struct CustomColors {
    /// The background.
    pub base: String,
    /// Surfaces.
    pub surface: String,
    /// Text.
    pub text: String,
    /// The accent.
    pub accent: String,
    /// What went well.
    pub success: String,
    /// What went wrong.
    pub danger: String,
}

/// What `CustomColors` hold.
#[verifier::ext_equal]
pub struct CustomColorsView {
    pub base: Seq<char>,
    pub surface: Seq<char>,
    pub text: Seq<char>,
    pub accent: Seq<char>,
    pub success: Seq<char>,
    pub danger: Seq<char>,
}

impl View for CustomColors {
    type V = CustomColorsView;

    open spec fn view(&self) -> CustomColorsView {
        CustomColorsView {
            base: self.base@,
            surface: self.surface@,
            text: self.text@,
            accent: self.accent@,
            success: self.success@,
            danger: self.danger@,
        }
    }
}

impl Clone for CustomColors {
    fn clone(&self) -> (r: Self)
        ensures
            r@ == self@,
    {
        CustomColors {
            base: self.base.clone(),
            surface: self.surface.clone(),
            text: self.text.clone(),
            accent: self.accent.clone(),
            success: self.success.clone(),
            danger: self.danger.clone(),
        }
    }
}

/// The colours of a window under a theme of the user's own: six colours, and blends of
/// them.
pub open spec fn customized(c: CustomColorsView) -> Palette {
    let base = color(c.base);
    let surface = color(c.surface);
    let text_color = color(c.text);
    let accent = color(c.accent);
    let success = color(c.success);
    let danger = color(c.danger);
    let black = Rgb { red: 0, green: 0, blue: 0 };
    Palette {
        base: base,
        mantle: blend(base, black, percent(10)),
        crust: blend(base, black, percent(20)),
        surface0: surface,
        surface1: blend(surface, text_color, percent(8)),
        surface2: blend(surface, text_color, percent(16)),
        overlay0: blend(surface, text_color, percent(35)),
        overlay1: blend(surface, text_color, percent(45)),
        overlay2: blend(surface, text_color, percent(55)),
        subtext0: blend(text_color, surface, percent(25)),
        subtext1: blend(text_color, surface, percent(12)),
        text: text_color,
        mauve: accent,
        red: danger,
        green: success,
        yellow: blend(accent, danger, percent(40)),
        blue: accent,
        lavender: blend(accent, text_color, percent(30)),
        peach: blend(accent, danger, percent(50)),
        teal: blend(accent, success, percent(50)),
        pink: blend(accent, danger, percent(30)),
        flamingo: blend(text_color, danger, percent(20)),
        rosewater: blend(text_color, danger, percent(10)),
        sapphire: blend(accent, success, percent(30)),
        sky: blend(accent, success, percent(40)),
        maroon: blend(danger, accent, percent(20)),
    }
}

/// The colours of a window under a theme of the user's own.
pub fn apply_custom_theme(c: &CustomColors) -> (r: Palette)
    ensures
        r == customized(c@),
{
    let base = parse_hex_color(c.base.as_str());
    let surface = parse_hex_color(c.surface.as_str());
    let text_color = parse_hex_color(c.text.as_str());
    let accent = parse_hex_color(c.accent.as_str());
    let success = parse_hex_color(c.success.as_str());
    let danger = parse_hex_color(c.danger.as_str());
    let black = Rgb { red: 0, green: 0, blue: 0 };
    Palette {
        base: base,
        mantle: lerp_color(base, black, weights(10)),
        crust: lerp_color(base, black, weights(20)),
        surface0: surface,
        surface1: lerp_color(surface, text_color, weights(8)),
        surface2: lerp_color(surface, text_color, weights(16)),
        overlay0: lerp_color(surface, text_color, weights(35)),
        overlay1: lerp_color(surface, text_color, weights(45)),
        overlay2: lerp_color(surface, text_color, weights(55)),
        subtext0: lerp_color(text_color, surface, weights(25)),
        subtext1: lerp_color(text_color, surface, weights(12)),
        text: text_color,
        mauve: accent,
        red: danger,
        green: success,
        yellow: lerp_color(accent, danger, weights(40)),
        blue: accent,
        lavender: lerp_color(accent, text_color, weights(30)),
        peach: lerp_color(accent, danger, weights(50)),
        teal: lerp_color(accent, success, weights(50)),
        pink: lerp_color(accent, danger, weights(30)),
        flamingo: lerp_color(text_color, danger, weights(20)),
        rosewater: lerp_color(text_color, danger, weights(10)),
        sapphire: lerp_color(accent, success, weights(30)),
        sky: lerp_color(accent, success, weights(40)),
        maroon: lerp_color(danger, accent, weights(20)),
    }
}

/// The value of a hexadecimal digit.
pub open spec fn worth(c: char) -> int {
    if '0' <= c <= '9' {
        c as int - '0' as int
    } else if 'a' <= c <= 'f' {
        c as int - 'a' as int + 10
    } else {
        c as int - 'A' as int + 10
    }
}

/// A character that is a hexadecimal digit.
pub open spec fn is_hex(c: char) -> bool {
    '0' <= c <= '9' || 'a' <= c <= 'f' || 'A' <= c <= 'F'
}

/// A colour of three parts.
pub open spec fn rgb(red: u8, green: u8, blue: u8) -> Rgb {
    Rgb { red, green, blue }
}

/// Two digits are a part of a colour.
proof fn pairs_are_read(b: Seq<u8>, i: int, c: char, d: char)
    requires
        0 <= i,
        i + 2 <= b.len(),
        b[i] == c as u8,
        b[i + 1] == d as u8,
        is_hex(c),
        is_hex(d),
    ensures
        pair_value(b, i) == 16 * worth(c) + worth(d),
{
}

/// Six hexadecimal digits are a colour, two for each of its parts, red first; a sign in
/// front of them and blanks around them make no difference.
pub proof fn written_colors_are_read(c1: char, c2: char, c3: char, c4: char, c5: char, c6: char)
    requires
        is_hex(c1) && is_hex(c2) && is_hex(c3) && is_hex(c4) && is_hex(c5) && is_hex(c6),
    ensures
        ({
            let digits = seq![c1, c2, c3, c4, c5, c6];
            let value = rgb(
                (16 * worth(c1) + worth(c2)) as u8,
                (16 * worth(c3) + worth(c4)) as u8,
                (16 * worth(c5) + worth(c6)) as u8,
            );
            &&& color(digits) == value
            &&& color(seq!['#', c1, c2, c3, c4, c5, c6]) == value
            &&& color(seq![' '] + seq!['#', c1, c2, c3, c4, c5, c6] + seq![' ']) == value
        }),
{
    let digits = seq![c1, c2, c3, c4, c5, c6];
    let signed = seq!['#', c1, c2, c3, c4, c5, c6];
    let none = Seq::<char>::empty();
    let blank = seq![' '];
    text::trimming_finds_the_middle(none, digits, none);
    assert(none + digits + none =~= digits);
    text::trimming_finds_the_middle(none, signed, none);
    assert(none + signed + none =~= signed);
    text::trimming_finds_the_middle(blank, signed, blank);
    assert(signed.drop_first() =~= digits);
    assert(without_signs(digits) == digits);
    assert(without_signs(signed) == digits);
    assert(is_ascii_chars(digits));
    is_ascii_chars_encode_utf8(digits);
    let b = encode_utf8(digits);
    assert(digits[0] as u8 == b[0] && digits[1] as u8 == b[1] && digits[2] as u8 == b[2]
        && digits[3] as u8 == b[3] && digits[4] as u8 == b[4] && digits[5] as u8 == b[5]);
    pairs_are_read(b, 0, c1, c2);
    pairs_are_read(b, 2, c3, c4);
    pairs_are_read(b, 4, c5, c6);
}

/// A part that is missing, or that is not made of digits, is nothing.
pub proof fn other_texts_are_no_colors(s: Seq<char>)
    requires
        is_ascii_chars(s),
        s.len() > 0 ==> !text::is_space(s.first()) && !text::is_space(s.last()) && s.first() != '#',
    ensures
        s.len() < 2 ==> color(s) == rgb(0, 0, 0),
        s.len() < 4 ==> color(s).green == 0,
        s.len() < 6 ==> color(s).blue == 0,
        s.len() >= 2 && !is_hex(s[1]) ==> color(s).red == 0,
        s.len() >= 4 && !is_hex(s[3]) ==> color(s).green == 0,
        s.len() >= 6 && !is_hex(s[5]) ==> color(s).blue == 0,
        s.len() >= 2 && !is_hex(s[0]) && s[0] != '+' ==> color(s).red == 0,
        s.len() >= 4 && !is_hex(s[2]) && s[2] != '+' ==> color(s).green == 0,
        s.len() >= 6 && !is_hex(s[4]) && s[4] != '+' ==> color(s).blue == 0,
{
    let none = Seq::<char>::empty();
    text::trimming_finds_the_middle(none, s, none);
    assert(none + s + none =~= s);
    is_ascii_chars_encode_utf8(s);
    let b = encode_utf8(s);
    assert forall|i: int| 0 <= i < s.len() && !is_hex(#[trigger] s[i]) implies hex_digit(b[i]) is None by {
        assert(s[i] as u8 == b[i]);
    }
    assert forall|i: int| 0 <= i < s.len() && #[trigger] s[i] != '+' implies b[i] != 0x2b by {
        assert(s[i] as u8 == b[i]);
    }
}

/// The colours of the theme Catppuccin Macchiato, as they are written.
pub proof fn macchiato_colors()
    ensures
        macchiato().base == color("#24273a"@),
        macchiato().mantle == color("#1e2030"@),
        macchiato().crust == color("#181926"@),
        macchiato().surface0 == color("#363a4f"@),
        macchiato().surface1 == color("#494d64"@),
        macchiato().surface2 == color("#5b6078"@),
        macchiato().overlay0 == color("#6e738d"@),
        macchiato().overlay1 == color("#8087a2"@),
        macchiato().overlay2 == color("#939ab7"@),
        macchiato().subtext0 == color("#a5adcb"@),
        macchiato().subtext1 == color("#b8c0e0"@),
        macchiato().text == color("#cad3f5"@),
        macchiato().mauve == color("#c6a0f6"@),
        macchiato().red == color("#ed8796"@),
        macchiato().green == color("#a6da95"@),
        macchiato().yellow == color("#eed49f"@),
        macchiato().blue == color("#8aadf4"@),
        macchiato().lavender == color("#b7bdf8"@),
        macchiato().peach == color("#f5a97f"@),
        macchiato().teal == color("#8bd5ca"@),
        macchiato().pink == color("#f5bde6"@),
        macchiato().flamingo == color("#f0c6c6"@),
        macchiato().rosewater == color("#f4dbd6"@),
        macchiato().sapphire == color("#7dc4e4"@),
        macchiato().sky == color("#91d7e3"@),
        macchiato().maroon == color("#ee99a0"@),
{
}

/// The colours of the dark theme, as they are written.
pub proof fn dark_colors()
    ensures
        dark().base == color("#1a1b26"@),
        dark().mantle == color("#16161e"@),
        dark().crust == color("#13131a"@),
        dark().surface0 == color("#292e42"@),
        dark().surface1 == color("#33384d"@),
        dark().surface2 == color("#414868"@),
        dark().overlay0 == color("#565f89"@),
        dark().overlay1 == color("#6b7394"@),
        dark().overlay2 == color("#787c9e"@),
        dark().subtext0 == color("#9aa5ce"@),
        dark().subtext1 == color("#a9b1d6"@),
        dark().text == color("#c0caf5"@),
        dark().mauve == color("#bb9af7"@),
        dark().red == color("#f7768e"@),
        dark().green == color("#9ece6a"@),
        dark().yellow == color("#e0af68"@),
        dark().blue == color("#7aa2f7"@),
        dark().lavender == color("#b4c0e9"@),
        dark().peach == color("#ff9e64"@),
        dark().teal == color("#73daca"@),
        dark().pink == color("#f5c2e7"@),
        dark().flamingo == color("#f2cdcd"@),
        dark().rosewater == color("#f5e0dc"@),
        dark().sapphire == color("#7dcfff"@),
        dark().sky == color("#89ddff"@),
        dark().maroon == color("#eb6f92"@),
{
}

/// The shares that are mixed in, in percent.
pub open spec fn is_share(n: u32) -> bool {
    n == 8 || n == 10 || n == 12 || n == 16 || n == 20 || n == 25 || n == 30 || n == 35 || n == 40
        || n == 45 || n == 50 || n == 55
}

/// A part of a mixed colour is the weighted mean of the two parts, rounded down.
pub proof fn parts_are_mixed(a: u8, b: u8, n: u32)
    requires
        is_share(n),
    ensures
        ({
            let exact = a * (100 - n) + b * n;
            let part = blended(a, b, percent(n));
            &&& 100 * part <= exact
            &&& exact <= 100 * (part + 1)
        }),
{
    let w = percent(n);
    let x = a as nat * w.keep as nat;
    let y = b as nat * w.mix as nat;
    let k = w.keep as int;
    let m = w.mix as int;
    assert(100 * k <= (100 - n) * 0x4000_0000 + 4000 && (100 - n) * 0x4000_0000 <= 100 * k + 4000);
    assert(100 * m <= n * 0x4000_0000 + 4000 && n * 0x4000_0000 <= 100 * m + 4000);
    assert(k + m <= 0x4000_0000 + 64);
    assert(x <= 255 * k && y <= 255 * m) by (nonlinear_arith)
        requires
            x == a * k,
            y == b * m,
            a <= 255,
            b <= 255,
            k >= 0,
            m >= 0,
    ;
    vstd::arithmetic::power2::lemma2_to64();
    vstd::arithmetic::power2::lemma2_to64_rest();
    rounding::significant_is_near(x, 1, 24, 38);
    rounding::significant_is_near(y, 1, 24, 38);
    let s = rounding::single(x) + rounding::single(y);
    rounding::significant_is_near(s, 1, 24, 38);
    let sum = rounding::single(s);
    assert(100 * sum <= 100 * x + 100 * y + 2457600);
    assert(100 * x + 100 * y <= 100 * sum + 2457600);
    assert(100 * (a * k) <= (a * (100 - n)) * 0x4000_0000 + 255 * 4000 && (a * (100 - n))
        * 0x4000_0000 <= 100 * (a * k) + 255 * 4000) by (nonlinear_arith)
        requires
            100 * k <= (100 - n) * 0x4000_0000 + 4000,
            (100 - n) * 0x4000_0000 <= 100 * k + 4000,
            a <= 255,
    ;
    assert(100 * (b * m) <= (b * n) * 0x4000_0000 + 255 * 4000 && (b * n) * 0x4000_0000 <= 100 * (b
        * m) + 255 * 4000) by (nonlinear_arith)
        requires
            100 * m <= n * 0x4000_0000 + 4000,
            n * 0x4000_0000 <= 100 * m + 4000,
            b <= 255,
    ;
    let exact = a * (100 - n) + b * n;
    assert(exact <= 25500) by (nonlinear_arith)
        requires
            exact == a * (100 - n) + b * n,
            a <= 255,
            b <= 255,
            n <= 55,
    ;
}

/// A colour is mixed part by part.
pub proof fn colors_are_mixed(a: Rgb, b: Rgb, w: Weights)
    ensures
        blend(a, b, w).red == blended(a.red, b.red, w),
        blend(a, b, w).green == blended(a.green, b.green, w),
        blend(a, b, w).blue == blended(a.blue, b.blue, w),
{
}

/// A theme of one's own shows the six chosen colours as they are, and every other is mixed
/// from two of them, or from one and black.
pub proof fn own_colors_are_shown(c: CustomColorsView)
    ensures
        ({
            let p = customized(c);
            &&& p.base == color(c.base)
            &&& p.surface0 == color(c.surface)
            &&& p.text == color(c.text)
            &&& p.mauve == color(c.accent)
            &&& p.blue == color(c.accent)
            &&& p.green == color(c.success)
            &&& p.red == color(c.danger)
            &&& p.mantle == blend(p.base, rgb(0, 0, 0), percent(10))
            &&& p.crust == blend(p.base, rgb(0, 0, 0), percent(20))
            &&& p.surface1 == blend(p.surface0, p.text, percent(8))
            &&& p.surface2 == blend(p.surface0, p.text, percent(16))
            &&& p.overlay0 == blend(p.surface0, p.text, percent(35))
            &&& p.overlay1 == blend(p.surface0, p.text, percent(45))
            &&& p.overlay2 == blend(p.surface0, p.text, percent(55))
            &&& p.subtext0 == blend(p.text, p.surface0, percent(25))
            &&& p.subtext1 == blend(p.text, p.surface0, percent(12))
            &&& p.yellow == blend(p.mauve, p.red, percent(40))
            &&& p.lavender == blend(p.mauve, p.text, percent(30))
            &&& p.peach == blend(p.mauve, p.red, percent(50))
            &&& p.teal == blend(p.mauve, p.green, percent(50))
            &&& p.pink == blend(p.mauve, p.red, percent(30))
            &&& p.flamingo == blend(p.text, p.red, percent(20))
            &&& p.rosewater == blend(p.text, p.red, percent(10))
            &&& p.sapphire == blend(p.mauve, p.green, percent(30))
            &&& p.sky == blend(p.mauve, p.green, percent(40))
            &&& p.maroon == blend(p.red, p.mauve, percent(20))
        }),
{
}

/// Each colour of a theme is read from its own text.
pub proof fn themes_are_painted(t: ThemeColors)
    ensures
        painted(t).base == color(t.base@),
        painted(t).mantle == color(t.mantle@),
        painted(t).crust == color(t.crust@),
        painted(t).surface0 == color(t.surface0@),
        painted(t).surface1 == color(t.surface1@),
        painted(t).surface2 == color(t.surface2@),
        painted(t).overlay0 == color(t.overlay0@),
        painted(t).overlay1 == color(t.overlay1@),
        painted(t).overlay2 == color(t.overlay2@),
        painted(t).subtext0 == color(t.subtext0@),
        painted(t).subtext1 == color(t.subtext1@),
        painted(t).text == color(t.text@),
        painted(t).mauve == color(t.mauve@),
        painted(t).red == color(t.red@),
        painted(t).green == color(t.green@),
        painted(t).yellow == color(t.yellow@),
        painted(t).blue == color(t.blue@),
        painted(t).lavender == color(t.lavender@),
        painted(t).peach == color(t.peach@),
        painted(t).teal == color(t.teal@),
        painted(t).pink == color(t.pink@),
        painted(t).flamingo == color(t.flamingo@),
        painted(t).rosewater == color(t.rosewater@),
        painted(t).sapphire == color(t.sapphire@),
        painted(t).sky == color(t.sky@),
        painted(t).maroon == color(t.maroon@),
{
}

} // verus!
