use xpm::theme::{
    apply_custom_theme, apply_theme, catppuccin_macchiato, default_dark, lerp_color,
    parse_hex_color, CustomColors, Rgb, Weights,
};

fn rgb(red: u8, green: u8, blue: u8) -> Rgb {
    Rgb { red, green, blue }
}

/// A colour, read with slices and std's numbers.
fn plainly(hex: &str) -> Rgb {
    let hex = hex.trim().trim_start_matches('#');
    let part = |from: usize| u8::from_str_radix(hex.get(from..from + 2).unwrap_or("00"), 16).unwrap_or(0);
    rgb(part(0), part(2), part(4))
}

#[test]
fn colours_are_read() {
    assert_eq!(parse_hex_color("#24273a"), rgb(0x24, 0x27, 0x3a));
    assert_eq!(parse_hex_color(" ##C6A0F6 "), rgb(0xc6, 0xa0, 0xf6));
    assert_eq!(parse_hex_color("ffffff"), rgb(255, 255, 255));
    assert_eq!(parse_hex_color(""), rgb(0, 0, 0));
    assert_eq!(parse_hex_color("#12"), rgb(0x12, 0, 0));
    assert_eq!(parse_hex_color("#zz1234"), rgb(0, 0x12, 0x34));
    assert_eq!(parse_hex_color("+1+2+3"), rgb(1, 2, 3));
}

#[test]
fn colours_are_those_of_std() {
    let mut x: u64 = 0x2545f4914f6cdd1d;
    let alphabet: Vec<char> = "0189aAfFgG#+- ä\u{3000}".chars().collect();
    for _ in 0..60000 {
        let mut t = String::new();
        x ^= x << 13;
        x ^= x >> 7;
        x ^= x << 17;
        let mut bits = x;
        for _ in 0..(x % 10) {
            t.push(alphabet[(bits % 16) as usize]);
            bits /= 16;
        }
        assert_eq!(parse_hex_color(&t), plainly(&t), "{:?}", t);
    }
}

#[test]
fn themes_have_their_colours() {
    let p = apply_theme(&catppuccin_macchiato());
    assert_eq!(p.base, rgb(0x24, 0x27, 0x3a));
    assert_eq!(p.maroon, rgb(0xee, 0x99, 0xa0));
    let p = apply_theme(&default_dark());
    assert_eq!(p.base, rgb(0x1a, 0x1b, 0x26));
    assert_eq!(p.text, rgb(0xc0, 0xca, 0xf5));
}

/// Two colours blended with singles.
fn with_singles(a: Rgb, b: Rgb, t: f32) -> Rgb {
    let part = |a: u8, b: u8| (a as f32 * (1.0 - t) + b as f32 * t) as u8;
    rgb(part(a.red, b.red), part(a.green, b.green), part(a.blue, b.blue))
}

#[test]
fn blends_are_those_of_singles() {
    let unit = (1u64 << 30) as f64;
    for t in [0.08f32, 0.1, 0.12, 0.16, 0.2, 0.25, 0.3, 0.35, 0.4, 0.45, 0.5, 0.55] {
        let w = Weights {
            keep: ((1.0 - t) as f64 * unit) as u32,
            mix: (t as f64 * unit) as u32,
        };
        for a in 0..=255u8 {
            for b in 0..=255u8 {
                let first = rgb(a, a / 2, 255 - a);
                let second = rgb(b, 255 - b, b / 3);
                assert_eq!(lerp_color(first, second, w), with_singles(first, second, t));
            }
        }
    }
}

#[test]
fn custom_themes_blend_their_colours() {
    let hex = |c: Rgb| format!("#{:02x}{:02x}{:02x}", c.red, c.green, c.blue);
    let mut x: u64 = 0x9e3779b97f4a7c15;
    for _ in 0..2000 {
        let mut next = || {
            x ^= x << 13;
            x ^= x >> 7;
            x ^= x << 17;
            rgb(x as u8, (x >> 8) as u8, (x >> 16) as u8)
        };
        let (base, surface, text) = (next(), next(), next());
        let (accent, success, danger) = (next(), next(), next());
        let p = apply_custom_theme(&CustomColors {
            base: hex(base),
            surface: hex(surface),
            text: hex(text),
            accent: hex(accent),
            success: hex(success),
            danger: hex(danger),
        });
        let black = rgb(0, 0, 0);
        assert_eq!(p.base, base);
        assert_eq!(p.mantle, with_singles(base, black, 0.1));
        assert_eq!(p.crust, with_singles(base, black, 0.2));
        assert_eq!(p.surface0, surface);
        assert_eq!(p.surface1, with_singles(surface, text, 0.08));
        assert_eq!(p.surface2, with_singles(surface, text, 0.16));
        assert_eq!(p.overlay0, with_singles(surface, text, 0.35));
        assert_eq!(p.overlay1, with_singles(surface, text, 0.45));
        assert_eq!(p.overlay2, with_singles(surface, text, 0.55));
        assert_eq!(p.subtext0, with_singles(text, surface, 0.25));
        assert_eq!(p.subtext1, with_singles(text, surface, 0.12));
        assert_eq!(p.text, text);
        assert_eq!(p.mauve, accent);
        assert_eq!(p.red, danger);
        assert_eq!(p.green, success);
        assert_eq!(p.yellow, with_singles(accent, danger, 0.4));
        assert_eq!(p.blue, accent);
        assert_eq!(p.lavender, with_singles(accent, text, 0.3));
        assert_eq!(p.peach, with_singles(accent, danger, 0.5));
        assert_eq!(p.teal, with_singles(accent, success, 0.5));
        assert_eq!(p.pink, with_singles(accent, danger, 0.3));
        assert_eq!(p.flamingo, with_singles(text, danger, 0.2));
        assert_eq!(p.rosewater, with_singles(text, danger, 0.1));
        assert_eq!(p.sapphire, with_singles(accent, success, 0.3));
        assert_eq!(p.sky, with_singles(accent, success, 0.4));
        assert_eq!(p.maroon, with_singles(danger, accent, 0.2));
    }
}
