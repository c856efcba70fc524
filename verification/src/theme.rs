//! Semantic color themes for the viewer.
//!
//! Each color of a theme has a purpose: drawing code speaks of `theme.heading` or
//! `theme.code_bg`, never of a color by itself. Users may add themes of their own to the
//! built-in ones.

use vstd::prelude::*;

use crate::text::{
    ascii_lowered, blank, chars_of, comes_before, is_text, law_trimmed, lemma_precedes_total,
    lemma_precedes_transitive, lower, precedes, same_str, trim, trimmed, white_space,
};

verus! {

/// A terminal color.
#[derive(Debug, Clone, Copy, PartialEq, Eq, Structural)]
pub enum Color {
    /// The terminal's own default.
    Reset,
    White,
    DarkGrey,
    Rgb { r: u8, g: u8, b: u8 },
}

/// Semantic color theme.
#[derive(Debug, Clone)]
pub struct Theme {
    pub name: String,
    /// Base terminal background.
    pub bg: Color,
    /// Default foreground / body text.
    pub fg: Color,
    /// Heading text color (h1 to h6).
    pub heading: Color,
    /// Bold, italic, bullets, emphasis.
    pub accent: Color,
    /// De-emphasized text: horizontal rules, muted hints.
    pub muted: Color,
    /// Code block / inline code background.
    pub code_bg: Color,
    /// Code block / inline code foreground.
    pub code_fg: Color,
    /// Blockquote marker color.
    pub quote_mark: Color,
    /// Table borders, panel borders.
    pub border: Color,
    /// Header bar background.
    pub header_bg: Color,
    /// Header bar foreground.
    pub header_fg: Color,
    /// App title color (in header).
    pub title: Color,
}

/// What a [`Theme`] stands for: its name as text, and its colors.
pub struct ThemeView {
    pub name: Seq<char>,
    pub bg: Color,
    pub fg: Color,
    pub heading: Color,
    pub accent: Color,
    pub muted: Color,
    pub code_bg: Color,
    pub code_fg: Color,
    pub quote_mark: Color,
    pub border: Color,
    pub header_bg: Color,
    pub header_fg: Color,
    pub title: Color,
}

impl View for Theme {
    type V = ThemeView;

    open spec fn view(&self) -> ThemeView {
        ThemeView {
            name: self.name@,
            bg: self.bg,
            fg: self.fg,
            heading: self.heading,
            accent: self.accent,
            muted: self.muted,
            code_bg: self.code_bg,
            code_fg: self.code_fg,
            quote_mark: self.quote_mark,
            border: self.border,
            header_bg: self.header_bg,
            header_fg: self.header_fg,
            title: self.title,
        }
    }
}

/// What a list of themes stands for.
pub open spec fn theme_views(themes: Seq<Theme>) -> Seq<ThemeView> {
    themes.map_values(|t: Theme| t@)
}

pub broadcast proof fn lemma_theme_views_push(themes: Seq<Theme>, t: Theme)
    ensures
        #[trigger] theme_views(themes.push(t)) == theme_views(themes).push(t@),
{
    assert(theme_views(themes.push(t)) =~= theme_views(themes).push(t@));
}

/// Minimum terminal width for the interactive viewer.
pub const MIN_TERM_WIDTH: u16 = 40;

/// Minimum terminal height for the interactive viewer.
pub const MIN_TERM_HEIGHT: u16 = 8;

/// How many themes are built in.
pub const THEME_COUNT: usize = 14;

/// The names of the built-in themes; the first is the default.
pub const THEME_NAMES: [&'static str; 14] = ["Default", "Gruvbox", "Solarized", "Ayu", "Flexoki", "Zoegi", "FFE Dark", "Default Light", "Gruvbox Light", "Solarized Light", "Flexoki Light", "Ayu Light", "Zoegi Light", "FFE Light"];

/// The colors of the built-in themes, in the order of [`THEME_NAMES`] and of the fields of
/// [`Theme`]: `0xRRGGBB`, or above that the terminal's default, white and dark grey.
pub const PALETTES: [[u32; 12]; 14] = [
    // Default
    [0x1000000, 0x2000000, 0x00d9ff, 0xffdc64, 0x3000000, 0x18181e, 0xb4d273, 0x00c850, 0x3000000, 0x18181e, 0x00d9ff, 0x00d9ff],
    // Gruvbox
    [0x1d2021, 0xebdbb2, 0xfabd2f, 0xd79921, 0x928374, 0x252424, 0xb8bb26, 0xd79921, 0x3e3936, 0x252424, 0xebdbb2, 0xfabd2f],
    // Solarized
    [0x002b36, 0xfdf6e3, 0xb58900, 0x2aa198, 0x839496, 0x073642, 0x859900, 0x2aa198, 0x103a44, 0x073642, 0xfdf6e3, 0xb58900],
    // Ayu
    [0x0a0e14, 0xbfbfbf, 0xffb454, 0xff9940, 0x5c6773, 0x12161e, 0x7dd250, 0xff9940, 0x282c34, 0x12161e, 0xbfbfbf, 0xffb454],
    // Flexoki
    [0x100f0f, 0xcecdc3, 0xd0a215, 0x24837b, 0x878580, 0x181716, 0xcecdc3, 0x24837b, 0x282726, 0x181716, 0xcecdc3, 0xd0a215],
    // Zoegi
    [0x141414, 0xcccccc, 0x80c8a0, 0x408068, 0x595959, 0x1c1c1c, 0x5ca870, 0x408068, 0x303030, 0x1c1c1c, 0xcccccc, 0x80c8a0],
    // FFE Dark
    [0x1e232b, 0xd8dee9, 0xf0a988, 0x4fd6be, 0x9ba2af, 0x1a1f27, 0xa1efd3, 0x4fd6be, 0x3b4252, 0x1a1f27, 0xd8dee9, 0xf0a988],
    // Default Light
    [0x1000000, 0x282832, 0x008cb4, 0xc87800, 0x787882, 0xebebf0, 0x282832, 0x008c32, 0xb4b4be, 0xebebf0, 0x282832, 0x008cb4],
    // Gruvbox Light
    [0xfbf1c7, 0x3c3836, 0xd79921, 0x986700, 0x928374, 0xf2e9b9, 0x79740e, 0x986700, 0xd5c4a1, 0xf2e9b9, 0x3c3836, 0xd79921],
    // Solarized Light
    [0xfdf6e3, 0x586e75, 0xb58900, 0x2aa198, 0x93a1a1, 0xeee8d5, 0x859900, 0x2aa198, 0xdcd4bc, 0xeee8d5, 0x586e75, 0xb58900],
    // Flexoki Light
    [0xfffcf0, 0x100f0f, 0x24837b, 0x66800b, 0x6f6e69, 0xf4f1e6, 0x100f0f, 0x66800b, 0xe6e4d9, 0xf4f1e6, 0x100f0f, 0x24837b],
    // Ayu Light
    [0xfcfcfc, 0x5c6166, 0xff9940, 0x85b304, 0x99a0a6, 0xf2f2f2, 0x5c6166, 0x85b304, 0xcfd1d2, 0xf2f2f2, 0x5c6166, 0xff9940],
    // Zoegi Light
    [0xffffff, 0x333333, 0x377961, 0x377961, 0x595959, 0xf5f5f5, 0x377961, 0x377961, 0xe6e6e6, 0xf5f5f5, 0x333333, 0x377961],
    // FFE Light
    [0xe8ecf0, 0x1e232b, 0xc07920, 0x2a9d84, 0x4a5060, 0xf5f7fa, 0x1a8a6e, 0x2a9d84, 0xc9cdd6, 0xf5f7fa, 0x1e232b, 0xc07920],
];

/// The color that a number of [`PALETTES`] stands for.
pub open spec fn palette_color(code: u32) -> Color {
    if code < 0x1000000 {
        Color::Rgb {
            r: (code / 0x10000) as u8,
            g: (code / 0x100 % 0x100) as u8,
            b: (code % 0x100) as u8,
        }
    } else if code < 0x2000000 {
        Color::Reset
    } else if code < 0x3000000 {
        Color::White
    } else {
        Color::DarkGrey
    }
}

fn color_of(code: u32) -> (c: Color)
    ensures
        c == palette_color(code),
{
    if code < 0x1000000 {
        Color::Rgb {
            r: (code / 0x10000) as u8,
            g: (code / 0x100 % 0x100) as u8,
            b: (code % 0x100) as u8,
        }
    } else if code < 0x2000000 {
        Color::Reset
    } else if code < 0x3000000 {
        Color::White
    } else {
        Color::DarkGrey
    }
}

/// The built-in theme at a position.
pub open spec fn builtin_theme(i: int) -> ThemeView {
    let palette = PALETTES@[i]@;
    ThemeView {
        name: THEME_NAMES@[i]@,
        bg: palette_color(palette[0]),
        fg: palette_color(palette[1]),
        heading: palette_color(palette[2]),
        accent: palette_color(palette[3]),
        muted: palette_color(palette[4]),
        code_bg: palette_color(palette[5]),
        code_fg: palette_color(palette[6]),
        quote_mark: palette_color(palette[7]),
        border: palette_color(palette[8]),
        header_bg: palette_color(palette[9]),
        header_fg: palette_color(palette[10]),
        title: palette_color(palette[11]),
    }
}

/// The built-in themes.
pub open spec fn builtin_views() -> Seq<ThemeView> {
    Seq::new(THEME_COUNT as nat, |i: int| builtin_theme(i))
}

fn make_theme(i: usize) -> (t: Theme)
    requires
        i < THEME_COUNT,
    ensures
        t@ == builtin_theme(i as int),
{
    let names: [&'static str; 14] = THEME_NAMES;
    let palettes: [[u32; 12]; 14] = PALETTES;
    let p: [u32; 12] = palettes[i];
    Theme {
        name: names[i].to_owned(),
        bg: color_of(p[0]),
        fg: color_of(p[1]),
        heading: color_of(p[2]),
        accent: color_of(p[3]),
        muted: color_of(p[4]),
        code_bg: color_of(p[5]),
        code_fg: color_of(p[6]),
        quote_mark: color_of(p[7]),
        border: color_of(p[8]),
        header_bg: color_of(p[9]),
        header_fg: color_of(p[10]),
        title: color_of(p[11]),
    }
}

/// The built-in themes. The first is the default.
pub fn builtin_themes() -> (themes: Vec<Theme>)
    ensures
        theme_views(themes@) == builtin_views(),
        themes@.len() == THEME_COUNT,
{
    broadcast use lemma_theme_views_push;

    let mut themes: Vec<Theme> = Vec::new();
    let mut i: usize = 0;
    while i < THEME_COUNT
        invariant
            i <= THEME_COUNT,
            theme_views(themes@) == builtin_views().take(i as int),
        decreases THEME_COUNT - i,
    {
        themes.push(make_theme(i));
        i += 1;
        assert(builtin_views().take(i as int) =~= builtin_views().take(i - 1).push(
            builtin_theme(i - 1),
        ));
    }
    assert(builtin_views().take(i as int) =~= builtin_views());
    assert(theme_views(themes@).len() == themes@.len());
    themes
}

/// The built-in themes have names, and no two have the same.
pub proof fn law_builtin_names_unique()
    ensures
        forall|i: int| 0 <= i < THEME_COUNT ==> (#[trigger] builtin_theme(i)).name.len() > 0,
        forall|i: int, j: int|
            0 <= i < j < THEME_COUNT ==> (#[trigger] builtin_theme(i)).name != (
            #[trigger] builtin_theme(j)).name,
{
    reveal_strlit("Default");
    reveal_strlit("Gruvbox");
    reveal_strlit("Solarized");
    reveal_strlit("Ayu");
    reveal_strlit("Flexoki");
    reveal_strlit("Zoegi");
    reveal_strlit("FFE Dark");
    reveal_strlit("Default Light");
    reveal_strlit("Gruvbox Light");
    reveal_strlit("Solarized Light");
    reveal_strlit("Flexoki Light");
    reveal_strlit("Ayu Light");
    reveal_strlit("Zoegi Light");
    reveal_strlit("FFE Light");
    let names = THEME_NAMES@;
    assert(names[0]@.len() == 7 && names[0]@[0] == 'D');
    assert(names[1]@.len() == 7 && names[1]@[0] == 'G');
    assert(names[2]@.len() == 9 && names[2]@[0] == 'S');
    assert(names[3]@.len() == 3 && names[3]@[0] == 'A');
    assert(names[4]@.len() == 7 && names[4]@[0] == 'F');
    assert(names[5]@.len() == 5 && names[5]@[0] == 'Z');
    assert(names[6]@.len() == 8 && names[6]@[0] == 'F');
    assert(names[7]@.len() == 13 && names[7]@[0] == 'D');
    assert(names[8]@.len() == 13 && names[8]@[0] == 'G');
    assert(names[9]@.len() == 15 && names[9]@[0] == 'S');
    assert(names[10]@.len() == 13 && names[10]@[0] == 'F');
    assert(names[11]@.len() == 9 && names[11]@[0] == 'A');
    assert(names[12]@.len() == 11 && names[12]@[0] == 'Z');
    assert(names[13]@.len() == 9 && names[13]@[0] == 'F');
}

// ---------------------------------------------------------------- search highlights

/// The red, green and blue of a color; `fallback` where it has none of its own.
pub open spec fn rgb_or(c: Color, fallback: (u8, u8, u8)) -> (u8, u8, u8) {
    match c {
        Color::Rgb { r, g, b } => (r, g, b),
        _ => fallback,
    }
}

/// `percent` parts of a hundred of `tint`, the rest `base`, but at least `floor`.
pub open spec fn blended(base: u8, tint: u8, percent: int, floor: u8) -> u8 {
    let mixed = (base * (100 - percent) + tint * percent) / 100;
    if mixed < floor {
        floor
    } else {
        mixed as u8
    }
}

/// A tint of `accent` on `bg`. A background without color of its own counts as black, an
/// accent without as a warm yellow.
pub open spec fn tinted(bg: Color, accent: Color, percent: int, floor: (u8, u8, u8)) -> Color {
    let base = rgb_or(bg, (0, 0, 0));
    let tint = rgb_or(accent, (255, 220, 100));
    Color::Rgb {
        r: blended(base.0, tint.0, percent, floor.0),
        g: blended(base.1, tint.1, percent, floor.1),
        b: blended(base.2, tint.2, percent, floor.2),
    }
}

fn blend(base: u8, tint: u8, percent: u16, floor: u8) -> (v: u8)
    requires
        percent <= 100,
    ensures
        v == blended(base, tint, percent as int, floor),
{
    assert(base * (100 - percent) <= 255 * (100 - percent)) by (nonlinear_arith)
        requires
            percent <= 100,
    ;
    assert(tint * percent <= 255 * percent) by (nonlinear_arith);
    assert(base * (100 - percent) >= 0 && tint * percent >= 0) by (nonlinear_arith)
        requires
            percent <= 100,
    ;
    let mixed: u16 = (base as u16 * (100 - percent) + tint as u16 * percent) / 100;
    if mixed < floor as u16 {
        floor
    } else {
        mixed as u8
    }
}

fn parts_or(c: Color, fallback: (u8, u8, u8)) -> (parts: (u8, u8, u8))
    ensures
        parts == rgb_or(c, fallback),
{
    match c {
        Color::Rgb { r, g, b } => (r, g, b),
        _ => fallback,
    }
}

fn tint(bg: Color, accent: Color, percent: u16, floor: (u8, u8, u8)) -> (c: Color)
    requires
        percent <= 100,
    ensures
        c == tinted(bg, accent, percent as int, floor),
{
    let base: (u8, u8, u8) = parts_or(bg, (0, 0, 0));
    let tint: (u8, u8, u8) = parts_or(accent, (255, 220, 100));
    Color::Rgb {
        r: blend(base.0, tint.0, percent, floor.0),
        g: blend(base.1, tint.1, percent, floor.1),
        b: blend(base.2, tint.2, percent, floor.2),
    }
}

impl Theme {
    /// Background color for rows containing a search match: a subtle tint of the accent.
    pub fn search_match_bg(&self) -> (c: Color)
        ensures
            c == tinted(self.bg, self.accent, 15, (20, 18, 10)),
    {
        tint(self.bg, self.accent, 15, (20, 18, 10))
    }

    /// Background color for the current search match (more prominent).
    pub fn search_current_bg(&self) -> (c: Color)
        ensures
            c == tinted(self.bg, self.accent, 35, (40, 35, 15)),
    {
        tint(self.bg, self.accent, 35, (40, 35, 15))
    }

    /// A copy of the theme.
    pub fn duplicate(&self) -> (t: Theme)
        ensures
            t@ == self@,
    {
        Theme {
            name: self.name.clone(),
            bg: self.bg,
            fg: self.fg,
            heading: self.heading,
            accent: self.accent,
            muted: self.muted,
            code_bg: self.code_bg,
            code_fg: self.code_fg,
            quote_mark: self.quote_mark,
            border: self.border,
            header_bg: self.header_bg,
            header_fg: self.header_fg,
            title: self.title,
        }
    }
}

// ---------------------------------------------------------------- user themes

/// The value of a hexadecimal digit, in either case.
pub open spec fn hex_value(c: char) -> Option<int> {
    if '0' <= c <= '9' {
        Some(c as int - '0' as int)
    } else if 'a' <= c <= 'f' {
        Some(c as int - 'a' as int + 10)
    } else if 'A' <= c <= 'F' {
        Some(c as int - 'A' as int + 10)
    } else {
        None
    }
}

/// The value of two hexadecimal digits, or of a plus sign and one.
pub open spec fn hex_pair(a: char, b: char) -> Option<int> {
    match (hex_value(a), hex_value(b)) {
        (Some(x), Some(y)) => Some(16 * x + y),
        (None, Some(y)) => if a == '+' {
            Some(y)
        } else {
            None
        },
        _ => None,
    }
}

/// A color made of three values, if there are three.
pub open spec fn rgb_of(r: Option<int>, g: Option<int>, b: Option<int>) -> Option<Color> {
    match (r, g, b) {
        (Some(r), Some(g), Some(b)) => Some(
            Color::Rgb { r: r as u8, g: g as u8, b: b as u8 },
        ),
        _ => None,
    }
}

/// A single digit stands for itself twice.
pub open spec fn doubled(v: Option<int>) -> Option<int> {
    match v {
        Some(v) => Some(17 * v),
        None => None,
    }
}

/// The color that a text names: `#RRGGBB`, `#RGB` or `reset` (in any case), white space
/// around it aside.
pub open spec fn hex_color(s: Seq<char>) -> Option<Color> {
    let t = trimmed(s);
    if ascii_lowered(t) == "reset"@ {
        Some(Color::Reset)
    } else if t.len() == 7 && t[0] == '#' {
        rgb_of(hex_pair(t[1], t[2]), hex_pair(t[3], t[4]), hex_pair(t[5], t[6]))
    } else if t.len() == 4 && t[0] == '#' {
        rgb_of(doubled(hex_value(t[1])), doubled(hex_value(t[2])), doubled(hex_value(t[3])))
    } else {
        None
    }
}

fn hex_digit(c: char) -> (v: Option<u8>)
    ensures
        match v {
            Some(v) => hex_value(c) == Some(v as int) && v < 16,
            None => hex_value(c) is None,
        },
{
    if '0' <= c && c <= '9' {
        Some((c as u32 - 48) as u8)
    } else if 'a' <= c && c <= 'f' {
        Some((c as u32 - 97 + 10) as u8)
    } else if 'A' <= c && c <= 'F' {
        Some((c as u32 - 65 + 10) as u8)
    } else {
        None
    }
}

fn hex_byte(a: char, b: char) -> (v: Option<u8>)
    ensures
        match v {
            Some(v) => hex_pair(a, b) == Some(v as int),
            None => hex_pair(a, b) is None,
        },
{
    match (hex_digit(a), hex_digit(b)) {
        (Some(x), Some(y)) => Some(16 * x + y),
        (None, Some(y)) => if a == '+' {
            Some(y)
        } else {
            None
        },
        _ => None,
    }
}

/// Parse a color like `#RRGGBB` or `#RGB`. The special value `reset` (case-insensitive)
/// yields the terminal's default.
pub fn parse_hex_color(s: &str) -> (c: Option<Color>)
    ensures
        c == hex_color(s@),
{
    let chars = chars_of(s);
    let t = trim(&chars);
    let lowered = lower(&t);
    if is_text(&lowered, "reset") {
        return Some(Color::Reset);
    }
    if t.len() == 7 && t[0] == '#' {
        match (hex_byte(t[1], t[2]), hex_byte(t[3], t[4]), hex_byte(t[5], t[6])) {
            (Some(r), Some(g), Some(b)) => Some(Color::Rgb { r, g, b }),
            _ => None,
        }
    } else if t.len() == 4 && t[0] == '#' {
        match (hex_digit(t[1]), hex_digit(t[2]), hex_digit(t[3])) {
            (Some(r), Some(g), Some(b)) => Some(Color::Rgb { r: 17 * r, g: 17 * g, b: 17 * b }),
            _ => None,
        }
    } else {
        None
    }
}

/// A custom theme as its author writes it: every color a text.
#[derive(Debug, Clone)]
pub struct UserTheme {
    pub name: String,
    pub bg: String,
    pub fg: String,
    pub heading: String,
    pub accent: String,
    pub muted: String,
    pub code_bg: String,
    pub code_fg: String,
    pub quote_mark: String,
    pub border: String,
    pub header_bg: String,
    pub header_fg: String,
    pub title: String,
}

/// The theme that an author's texts describe, if every color is one.
pub open spec fn user_theme(t: UserTheme) -> Option<ThemeView> {
    if hex_color(t.bg@) is Some && hex_color(t.fg@) is Some && hex_color(t.heading@) is Some && hex_color(t.accent@) is Some && hex_color(t.muted@) is Some && hex_color(t.code_bg@) is Some && hex_color(t.code_fg@) is Some && hex_color(t.quote_mark@) is Some && hex_color(t.border@) is Some && hex_color(t.header_bg@) is Some && hex_color(t.header_fg@) is Some && hex_color(t.title@) is Some {
        Some(
            ThemeView {
                name: t.name@,
                bg: hex_color(t.bg@)->0,
                fg: hex_color(t.fg@)->0,
                heading: hex_color(t.heading@)->0,
                accent: hex_color(t.accent@)->0,
                muted: hex_color(t.muted@)->0,
                code_bg: hex_color(t.code_bg@)->0,
                code_fg: hex_color(t.code_fg@)->0,
                quote_mark: hex_color(t.quote_mark@)->0,
                border: hex_color(t.border@)->0,
                header_bg: hex_color(t.header_bg@)->0,
                header_fg: hex_color(t.header_fg@)->0,
                title: hex_color(t.title@)->0,
            },
        )
    } else {
        None
    }
}

/// What an optional theme stands for.
pub open spec fn optional_view(t: Option<Theme>) -> Option<ThemeView> {
    match t {
        Some(t) => Some(t@),
        None => None,
    }
}

impl UserTheme {
    /// The [`Theme`] described; `None` if any color does not parse.
    pub fn to_theme(&self) -> (t: Option<Theme>)
        ensures
            optional_view(t) == user_theme(*self),
    {
        let colors = (
            parse_hex_color(self.bg.as_str()),
            parse_hex_color(self.fg.as_str()),
            parse_hex_color(self.heading.as_str()),
            parse_hex_color(self.accent.as_str()),
            parse_hex_color(self.muted.as_str()),
            parse_hex_color(self.code_bg.as_str()),
            parse_hex_color(self.code_fg.as_str()),
            parse_hex_color(self.quote_mark.as_str()),
            parse_hex_color(self.border.as_str()),
            parse_hex_color(self.header_bg.as_str()),
            parse_hex_color(self.header_fg.as_str()),
            parse_hex_color(self.title.as_str()),
        );
        match colors {
            (
                Some(bg),
                Some(fg),
                Some(heading),
                Some(accent),
                Some(muted),
                Some(code_bg),
                Some(code_fg),
                Some(quote_mark),
                Some(border),
                Some(header_bg),
                Some(header_fg),
                Some(title),
            ) => Some(
                Theme {
                    name: self.name.clone(),
                    bg,
                    fg,
                    heading,
                    accent,
                    muted,
                    code_bg,
                    code_fg,
                    quote_mark,
                    border,
                    header_bg,
                    header_fg,
                    title,
                },
            ),
            _ => None,
        }
    }

    /// Convert to a [`Theme`]; `None` if any color does not parse.
    pub fn into_theme(self) -> (t: Option<Theme>)
        ensures
            optional_view(t) == user_theme(self),
    {
        self.to_theme()
    }
}

/// `t` put into a list sorted by name, behind every theme whose name does not come after its
/// own.
pub open spec fn with_theme(sorted: Seq<ThemeView>, t: ThemeView) -> Seq<ThemeView>
    decreases sorted.len(),
{
    if sorted.len() > 0 && precedes(t.name, sorted.last().name) {
        with_theme(sorted.drop_last(), t).push(sorted.last())
    } else {
        sorted.push(t)
    }
}

/// Themes sorted by name; those of the same name keep their order.
pub open spec fn by_name(themes: Seq<ThemeView>) -> Seq<ThemeView>
    decreases themes.len(),
{
    if themes.len() == 0 {
        themes
    } else {
        with_theme(by_name(themes.drop_last()), themes.last())
    }
}

/// The themes that a list of descriptions yields: those whose colors all parse.
pub open spec fn parsed_themes(descriptions: Seq<UserTheme>) -> Seq<ThemeView>
    decreases descriptions.len(),
{
    if descriptions.len() == 0 {
        seq![]
    } else {
        let before = parsed_themes(descriptions.drop_last());
        match user_theme(descriptions.last()) {
            Some(t) => before.push(t),
            None => before,
        }
    }
}

fn insert_theme(sorted: &mut Vec<Theme>, t: Theme)
    ensures
        theme_views(final(sorted)@) == with_theme(theme_views(old(sorted)@), t@),
{
    let ghost before = theme_views(sorted@);
    let name = chars_of(t.name.as_str());
    let mut n: usize = sorted.len();
    let ghost tv = t@;
    assert(before.take(n as int) =~= before);
    assert(with_theme(before.take(n as int), tv) + before.skip(n as int) =~= with_theme(before, tv));
    while n > 0
        invariant_except_break
            n <= sorted@.len(),
            tv == t@,
            name@ == tv.name,
            before == theme_views(sorted@),
            with_theme(before.take(n as int), tv) + before.skip(n as int) == with_theme(before, tv),
        ensures
            n <= sorted@.len(),
            tv == t@,
            before == theme_views(sorted@),
            with_theme(before, tv) == before.take(n as int).push(tv) + before.skip(n as int),
        decreases n,
    {
        let last = chars_of(sorted[n - 1].name.as_str());
        assert(before.take(n as int).last() == before[n - 1]);
        assert(before.take(n as int).drop_last() =~= before.take(n - 1));
        if !comes_before(&name, &last) {
            break;
        }
        assert(with_theme(before.take(n - 1), tv).push(before[n - 1]) + before.skip(n as int)
            =~= with_theme(before.take(n - 1), tv) + before.skip(n - 1));
        n -= 1;
    }
    sorted.insert(n, t);
    assert(theme_views(sorted@) =~= before.take(n as int).push(tv) + before.skip(n as int));
}

/// The usable themes among the descriptions, sorted by name.
pub fn load_user_themes(descriptions: &Vec<UserTheme>) -> (themes: Vec<Theme>)
    ensures
        theme_views(themes@) == by_name(parsed_themes(descriptions@)),
{
    let mut themes: Vec<Theme> = Vec::new();
    let ghost all = descriptions@;
    let mut i: usize = 0;
    assert(parsed_themes(all.take(0)) =~= seq![]);
    assert(theme_views(themes@) =~= by_name(parsed_themes(all.take(0))));
    while i < descriptions.len()
        invariant
            i <= descriptions@.len(),
            all == descriptions@,
            theme_views(themes@) == by_name(parsed_themes(all.take(i as int))),
        decreases descriptions@.len() - i,
    {
        assert(all.take(i + 1).drop_last() =~= all.take(i as int));
        assert(all.take(i + 1).last() == all[i as int]);
        match descriptions[i].to_theme() {
            Some(t) => {
                let ghost before = parsed_themes(all.take(i as int));
                assert(before.push(t@).drop_last() =~= before);
                insert_theme(&mut themes, t);
            },
            None => {},
        }
        i += 1;
    }
    assert(all.take(i as int) =~= all);
    themes
}

// ---------------------------------------------------------------- the list of themes

/// Whether a theme of the given name is in the list.
pub open spec fn has_name(themes: Seq<ThemeView>, name: Seq<char>) -> bool {
    exists|i: int| 0 <= i < themes.len() && (#[trigger] themes[i]).name == name
}

/// A list of themes, extended by those of `more` whose names it does not have yet.
pub open spec fn extended(themes: Seq<ThemeView>, more: Seq<ThemeView>) -> Seq<ThemeView>
    decreases more.len(),
{
    if more.len() == 0 {
        themes
    } else {
        let before = extended(themes, more.drop_last());
        if has_name(before, more.last().name) {
            before
        } else {
            before.push(more.last())
        }
    }
}

/// The position of the first theme of the given name; 0, the default, if there is none.
pub open spec fn named_index(themes: Seq<ThemeView>, name: Seq<char>) -> int {
    match index_from(themes, name, 0) {
        Some(i) => i,
        None => 0,
    }
}

/// The first position at or after `from` of a theme of the given name.
pub open spec fn index_from(themes: Seq<ThemeView>, name: Seq<char>, from: int) -> Option<int>
    decreases themes.len() - from,
{
    if from < 0 || from >= themes.len() {
        None
    } else if themes[from].name == name {
        Some(from)
    } else {
        index_from(themes, name, from + 1)
    }
}

proof fn lemma_index_from(themes: Seq<ThemeView>, name: Seq<char>, from: int)
    requires
        0 <= from,
    ensures
        match index_from(themes, name, from) {
            Some(i) => from <= i < themes.len() && themes[i].name == name && forall|j: int|
                from <= j < i ==> (#[trigger] themes[j]).name != name,
            None => forall|j: int| from <= j < themes.len() ==> (#[trigger] themes[j]).name != name,
        },
    decreases themes.len() - from,
{
    if from < themes.len() && themes[from].name != name {
        lemma_index_from(themes, name, from + 1);
    }
}

fn find_theme(themes: &Vec<Theme>, name: &str) -> (r: Option<usize>)
    ensures
        match r {
            Some(i) => i < themes@.len() && index_from(theme_views(themes@), name@, 0) == Some(
                i as int,
            ),
            None => index_from(theme_views(themes@), name@, 0) is None,
        },
{
    let mut i: usize = 0;
    while i < themes.len()
        invariant
            i <= themes@.len(),
            index_from(theme_views(themes@), name@, 0) == index_from(
                theme_views(themes@),
                name@,
                i as int,
            ),
        decreases themes@.len() - i,
    {
        assert(theme_views(themes@)[i as int].name == themes@[i as int].name@);
        if same_str(themes[i].name.as_str(), name) {
            return Some(i);
        }
        i += 1;
    }
    None
}

/// All available themes: the built-in ones, followed by the user's. A theme whose name is
/// already taken is left out.
pub fn all_themes(user: &Vec<Theme>) -> (themes: Vec<Theme>)
    ensures
        theme_views(themes@) == extended(builtin_views(), theme_views(user@)),
{
    broadcast use lemma_theme_views_push;

    let mut themes = builtin_themes();
    let ghost all = theme_views(user@);
    let mut i: usize = 0;
    assert(all.take(0) =~= seq![]);
    while i < user.len()
        invariant
            i <= user@.len(),
            all == theme_views(user@),
            theme_views(themes@) == extended(builtin_views(), all.take(i as int)),
        decreases user@.len() - i,
    {
        assert(all.take(i + 1).drop_last() =~= all.take(i as int));
        assert(all.take(i + 1).last() == user@[i as int]@);
        proof {
            lemma_index_from(theme_views(themes@), user@[i as int].name@, 0);
        }
        if find_theme(&themes, user[i].name.as_str()).is_none() {
            themes.push(user[i].duplicate());
        }
        i += 1;
    }
    assert(all.take(i as int) =~= all);
    themes
}

/// Look up a theme's position by name (case-sensitive). Returns 0 (the default) if no theme
/// matches.
pub fn theme_index_by_name(themes: &Vec<Theme>, name: &str) -> (i: usize)
    ensures
        i == named_index(theme_views(themes@), name@),
        themes@.len() > 0 ==> i < themes@.len(),
{
    match find_theme(themes, name) {
        Some(i) => i,
        None => 0,
    }
}

/// The list of all themes begins with the built-in ones, whatever the user adds, and holds no
/// name twice.
pub proof fn law_themes_extend_builtins(user: Seq<ThemeView>)
    ensures
        extended(builtin_views(), user).len() >= THEME_COUNT,
        extended(builtin_views(), user).take(THEME_COUNT as int) == builtin_views(),
        forall|i: int, j: int|
            0 <= i < j < extended(builtin_views(), user).len() ==> (#[trigger] extended(
                builtin_views(),
                user,
            )[i]).name != (#[trigger] extended(builtin_views(), user)[j]).name,
    decreases user.len(),
{
    let all = extended(builtin_views(), user);
    if user.len() == 0 {
        law_builtin_names_unique();
        assert(all =~= builtin_views());
        assert forall|i: int, j: int| 0 <= i < j < all.len() implies (#[trigger] all[i]).name != (
        #[trigger] all[j]).name by {
            assert(all[i] == builtin_theme(i));
            assert(all[j] == builtin_theme(j));
        }
    } else {
        law_themes_extend_builtins(user.drop_last());
        let before = extended(builtin_views(), user.drop_last());
        if !has_name(before, user.last().name) {
            assert(all.take(THEME_COUNT as int) =~= before.take(THEME_COUNT as int));
            assert forall|i: int, j: int| 0 <= i < j < all.len() implies (#[trigger] all[i]).name
                != (#[trigger] all[j]).name by {
                assert(all[i] == before[i]);
                if j < before.len() {
                    assert(all[j] == before[j]);
                }
            }
        }
    }
}

/// Looking a theme up by its own name finds it.
pub proof fn law_index_by_own_name(user: Seq<ThemeView>, i: int)
    requires
        0 <= i < extended(builtin_views(), user).len(),
    ensures
        named_index(extended(builtin_views(), user), extended(builtin_views(), user)[i].name) == i,
{
    let all = extended(builtin_views(), user);
    law_themes_extend_builtins(user);
    lemma_index_from(all, all[i].name, 0);
}

/// The user's themes come sorted by name, none is lost and none is added.
pub proof fn law_user_themes_sorted(themes: Seq<ThemeView>)
    ensures
        by_name(themes).to_multiset() == themes.to_multiset(),
        forall|i: int, j: int|
            0 <= i < j < by_name(themes).len() ==> !precedes(
                (#[trigger] by_name(themes)[j]).name,
                (#[trigger] by_name(themes)[i]).name,
            ),
    decreases themes.len(),
{
    broadcast use vstd::seq_lib::group_to_multiset_ensures;

    if themes.len() > 0 {
        law_user_themes_sorted(themes.drop_last());
        lemma_with_theme(by_name(themes.drop_last()), themes.last());
        assert(themes.drop_last().push(themes.last()) =~= themes);
    }
}

proof fn lemma_with_theme(sorted: Seq<ThemeView>, t: ThemeView)
    requires
        forall|i: int, j: int|
            0 <= i < j < sorted.len() ==> !precedes(
                (#[trigger] sorted[j]).name,
                (#[trigger] sorted[i]).name,
            ),
    ensures
        with_theme(sorted, t).to_multiset() == sorted.to_multiset().insert(t),
        with_theme(sorted, t).len() == sorted.len() + 1,
        forall|i: int|
            0 <= i <= sorted.len() ==> (#[trigger] with_theme(sorted, t)[i] == t
                || sorted.contains(with_theme(sorted, t)[i])),
        forall|i: int, j: int|
            0 <= i < j < with_theme(sorted, t).len() ==> !precedes(
                (#[trigger] with_theme(sorted, t)[j]).name,
                (#[trigger] with_theme(sorted, t)[i]).name,
            ),
    decreases sorted.len(),
{
    broadcast use vstd::seq_lib::group_to_multiset_ensures;

    let r = with_theme(sorted, t);
    if sorted.len() > 0 && precedes(t.name, sorted.last().name) {
        let front = sorted.drop_last();
        let last = sorted.last();
        lemma_with_theme(front, t);
        let inner = with_theme(front, t);
        assert(front.push(last) =~= sorted);
        assert forall|i: int| 0 <= i <= sorted.len() implies (#[trigger] r[i] == t
            || sorted.contains(r[i])) by {
            if i < sorted.len() {
                assert(r[i] == inner[i]);
                if r[i] != t {
                    let k = choose|k: int| 0 <= k < front.len() && front[k] == inner[i];
                    assert(sorted[k] == r[i]);
                }
            } else {
                assert(r[i] == sorted[sorted.len() - 1]);
            }
        }
        assert forall|i: int, j: int| 0 <= i < j < r.len() implies !precedes(
            (#[trigger] r[j]).name,
            (#[trigger] r[i]).name,
        ) by {
            assert(r[i] == inner[i]);
            if j < inner.len() {
                assert(r[j] == inner[j]);
            } else if inner[i] == t {
                lemma_precedes_total(t.name, last.name);
            } else {
                let k = choose|k: int| 0 <= k < front.len() && front[k] == inner[i];
                assert(sorted[k] == inner[i]);
                assert(sorted[sorted.len() - 1] == last);
            }
        }
        assert(sorted.to_multiset() =~= front.to_multiset().insert(last));
        assert(r.to_multiset() =~= inner.to_multiset().insert(last));
        assert(front.to_multiset().insert(t).insert(last) =~= front.to_multiset().insert(
            last,
        ).insert(t));
    } else {
        assert forall|i: int| 0 <= i <= sorted.len() implies (#[trigger] r[i] == t
            || sorted.contains(r[i])) by {
            if i < sorted.len() {
                assert(r[i] == sorted[i]);
            }
        }
        assert forall|i: int, j: int| 0 <= i < j < r.len() implies !precedes(
            (#[trigger] r[j]).name,
            (#[trigger] r[i]).name,
        ) by {
            assert(r[i] == sorted[i]);
            if j < sorted.len() {
                assert(r[j] == sorted[j]);
            } else if i < sorted.len() - 1 {
                let last = sorted[sorted.len() - 1];
                assert(!precedes(last.name, sorted[i].name));
                lemma_precedes_transitive(sorted[i].name, last.name, t.name);
            }
        }
    }
}

// ---------------------------------------------------------------- laws

/// The colors of "Default".
pub proof fn law_colors_of_default()
    ensures
        builtin_views()[0] == (ThemeView {
            name: "Default"@,
            bg: Color::Reset,
            fg: Color::White,
            heading: Color::Rgb { r: 0, g: 217, b: 255 },
            accent: Color::Rgb { r: 255, g: 220, b: 100 },
            muted: Color::DarkGrey,
            code_bg: Color::Rgb { r: 24, g: 24, b: 30 },
            code_fg: Color::Rgb { r: 180, g: 210, b: 115 },
            quote_mark: Color::Rgb { r: 0, g: 200, b: 80 },
            border: Color::DarkGrey,
            header_bg: Color::Rgb { r: 24, g: 24, b: 30 },
            header_fg: Color::Rgb { r: 0, g: 217, b: 255 },
            title: Color::Rgb { r: 0, g: 217, b: 255 },
        }),
{
    let palette = PALETTES@[0]@;
    assert(palette[0] == 0x1000000 && palette[1] == 0x2000000 && palette[2] == 0x00d9ff && palette[3] == 0xffdc64 && palette[4] == 0x3000000 && palette[5] == 0x18181e && palette[6] == 0xb4d273 && palette[7] == 0x00c850 && palette[8] == 0x3000000 && palette[9] == 0x18181e && palette[10] == 0x00d9ff && palette[11] == 0x00d9ff);
}

/// The colors of "Gruvbox".
pub proof fn law_colors_of_gruvbox()
    ensures
        builtin_views()[1] == (ThemeView {
            name: "Gruvbox"@,
            bg: Color::Rgb { r: 29, g: 32, b: 33 },
            fg: Color::Rgb { r: 235, g: 219, b: 178 },
            heading: Color::Rgb { r: 250, g: 189, b: 47 },
            accent: Color::Rgb { r: 215, g: 153, b: 33 },
            muted: Color::Rgb { r: 146, g: 131, b: 116 },
            code_bg: Color::Rgb { r: 37, g: 36, b: 36 },
            code_fg: Color::Rgb { r: 184, g: 187, b: 38 },
            quote_mark: Color::Rgb { r: 215, g: 153, b: 33 },
            border: Color::Rgb { r: 62, g: 57, b: 54 },
            header_bg: Color::Rgb { r: 37, g: 36, b: 36 },
            header_fg: Color::Rgb { r: 235, g: 219, b: 178 },
            title: Color::Rgb { r: 250, g: 189, b: 47 },
        }),
{
    let palette = PALETTES@[1]@;
    assert(palette[0] == 0x1d2021 && palette[1] == 0xebdbb2 && palette[2] == 0xfabd2f && palette[3] == 0xd79921 && palette[4] == 0x928374 && palette[5] == 0x252424 && palette[6] == 0xb8bb26 && palette[7] == 0xd79921 && palette[8] == 0x3e3936 && palette[9] == 0x252424 && palette[10] == 0xebdbb2 && palette[11] == 0xfabd2f);
}

/// The colors of "Solarized".
pub proof fn law_colors_of_solarized()
    ensures
        builtin_views()[2] == (ThemeView {
            name: "Solarized"@,
            bg: Color::Rgb { r: 0, g: 43, b: 54 },
            fg: Color::Rgb { r: 253, g: 246, b: 227 },
            heading: Color::Rgb { r: 181, g: 137, b: 0 },
            accent: Color::Rgb { r: 42, g: 161, b: 152 },
            muted: Color::Rgb { r: 131, g: 148, b: 150 },
            code_bg: Color::Rgb { r: 7, g: 54, b: 66 },
            code_fg: Color::Rgb { r: 133, g: 153, b: 0 },
            quote_mark: Color::Rgb { r: 42, g: 161, b: 152 },
            border: Color::Rgb { r: 16, g: 58, b: 68 },
            header_bg: Color::Rgb { r: 7, g: 54, b: 66 },
            header_fg: Color::Rgb { r: 253, g: 246, b: 227 },
            title: Color::Rgb { r: 181, g: 137, b: 0 },
        }),
{
    let palette = PALETTES@[2]@;
    assert(palette[0] == 0x002b36 && palette[1] == 0xfdf6e3 && palette[2] == 0xb58900 && palette[3] == 0x2aa198 && palette[4] == 0x839496 && palette[5] == 0x073642 && palette[6] == 0x859900 && palette[7] == 0x2aa198 && palette[8] == 0x103a44 && palette[9] == 0x073642 && palette[10] == 0xfdf6e3 && palette[11] == 0xb58900);
}

/// The colors of "Ayu".
pub proof fn law_colors_of_ayu()
    ensures
        builtin_views()[3] == (ThemeView {
            name: "Ayu"@,
            bg: Color::Rgb { r: 10, g: 14, b: 20 },
            fg: Color::Rgb { r: 191, g: 191, b: 191 },
            heading: Color::Rgb { r: 255, g: 180, b: 84 },
            accent: Color::Rgb { r: 255, g: 153, b: 64 },
            muted: Color::Rgb { r: 92, g: 103, b: 115 },
            code_bg: Color::Rgb { r: 18, g: 22, b: 30 },
            code_fg: Color::Rgb { r: 125, g: 210, b: 80 },
            quote_mark: Color::Rgb { r: 255, g: 153, b: 64 },
            border: Color::Rgb { r: 40, g: 44, b: 52 },
            header_bg: Color::Rgb { r: 18, g: 22, b: 30 },
            header_fg: Color::Rgb { r: 191, g: 191, b: 191 },
            title: Color::Rgb { r: 255, g: 180, b: 84 },
        }),
{
    let palette = PALETTES@[3]@;
    assert(palette[0] == 0x0a0e14 && palette[1] == 0xbfbfbf && palette[2] == 0xffb454 && palette[3] == 0xff9940 && palette[4] == 0x5c6773 && palette[5] == 0x12161e && palette[6] == 0x7dd250 && palette[7] == 0xff9940 && palette[8] == 0x282c34 && palette[9] == 0x12161e && palette[10] == 0xbfbfbf && palette[11] == 0xffb454);
}

/// The colors of "Flexoki".
pub proof fn law_colors_of_flexoki()
    ensures
        builtin_views()[4] == (ThemeView {
            name: "Flexoki"@,
            bg: Color::Rgb { r: 16, g: 15, b: 15 },
            fg: Color::Rgb { r: 206, g: 205, b: 195 },
            heading: Color::Rgb { r: 208, g: 162, b: 21 },
            accent: Color::Rgb { r: 36, g: 131, b: 123 },
            muted: Color::Rgb { r: 135, g: 133, b: 128 },
            code_bg: Color::Rgb { r: 24, g: 23, b: 22 },
            code_fg: Color::Rgb { r: 206, g: 205, b: 195 },
            quote_mark: Color::Rgb { r: 36, g: 131, b: 123 },
            border: Color::Rgb { r: 40, g: 39, b: 38 },
            header_bg: Color::Rgb { r: 24, g: 23, b: 22 },
            header_fg: Color::Rgb { r: 206, g: 205, b: 195 },
            title: Color::Rgb { r: 208, g: 162, b: 21 },
        }),
{
    let palette = PALETTES@[4]@;
    assert(palette[0] == 0x100f0f && palette[1] == 0xcecdc3 && palette[2] == 0xd0a215 && palette[3] == 0x24837b && palette[4] == 0x878580 && palette[5] == 0x181716 && palette[6] == 0xcecdc3 && palette[7] == 0x24837b && palette[8] == 0x282726 && palette[9] == 0x181716 && palette[10] == 0xcecdc3 && palette[11] == 0xd0a215);
}

/// The colors of "Zoegi".
pub proof fn law_colors_of_zoegi()
    ensures
        builtin_views()[5] == (ThemeView {
            name: "Zoegi"@,
            bg: Color::Rgb { r: 20, g: 20, b: 20 },
            fg: Color::Rgb { r: 204, g: 204, b: 204 },
            heading: Color::Rgb { r: 128, g: 200, b: 160 },
            accent: Color::Rgb { r: 64, g: 128, b: 104 },
            muted: Color::Rgb { r: 89, g: 89, b: 89 },
            code_bg: Color::Rgb { r: 28, g: 28, b: 28 },
            code_fg: Color::Rgb { r: 92, g: 168, b: 112 },
            quote_mark: Color::Rgb { r: 64, g: 128, b: 104 },
            border: Color::Rgb { r: 48, g: 48, b: 48 },
            header_bg: Color::Rgb { r: 28, g: 28, b: 28 },
            header_fg: Color::Rgb { r: 204, g: 204, b: 204 },
            title: Color::Rgb { r: 128, g: 200, b: 160 },
        }),
{
    let palette = PALETTES@[5]@;
    assert(palette[0] == 0x141414 && palette[1] == 0xcccccc && palette[2] == 0x80c8a0 && palette[3] == 0x408068 && palette[4] == 0x595959 && palette[5] == 0x1c1c1c && palette[6] == 0x5ca870 && palette[7] == 0x408068 && palette[8] == 0x303030 && palette[9] == 0x1c1c1c && palette[10] == 0xcccccc && palette[11] == 0x80c8a0);
}

/// The colors of "FFE Dark".
pub proof fn law_colors_of_ffe_dark()
    ensures
        builtin_views()[6] == (ThemeView {
            name: "FFE Dark"@,
            bg: Color::Rgb { r: 30, g: 35, b: 43 },
            fg: Color::Rgb { r: 216, g: 222, b: 233 },
            heading: Color::Rgb { r: 240, g: 169, b: 136 },
            accent: Color::Rgb { r: 79, g: 214, b: 190 },
            muted: Color::Rgb { r: 155, g: 162, b: 175 },
            code_bg: Color::Rgb { r: 26, g: 31, b: 39 },
            code_fg: Color::Rgb { r: 161, g: 239, b: 211 },
            quote_mark: Color::Rgb { r: 79, g: 214, b: 190 },
            border: Color::Rgb { r: 59, g: 66, b: 82 },
            header_bg: Color::Rgb { r: 26, g: 31, b: 39 },
            header_fg: Color::Rgb { r: 216, g: 222, b: 233 },
            title: Color::Rgb { r: 240, g: 169, b: 136 },
        }),
{
    let palette = PALETTES@[6]@;
    assert(palette[0] == 0x1e232b && palette[1] == 0xd8dee9 && palette[2] == 0xf0a988 && palette[3] == 0x4fd6be && palette[4] == 0x9ba2af && palette[5] == 0x1a1f27 && palette[6] == 0xa1efd3 && palette[7] == 0x4fd6be && palette[8] == 0x3b4252 && palette[9] == 0x1a1f27 && palette[10] == 0xd8dee9 && palette[11] == 0xf0a988);
}

/// The colors of "Default Light".
pub proof fn law_colors_of_default_light()
    ensures
        builtin_views()[7] == (ThemeView {
            name: "Default Light"@,
            bg: Color::Reset,
            fg: Color::Rgb { r: 40, g: 40, b: 50 },
            heading: Color::Rgb { r: 0, g: 140, b: 180 },
            accent: Color::Rgb { r: 200, g: 120, b: 0 },
            muted: Color::Rgb { r: 120, g: 120, b: 130 },
            code_bg: Color::Rgb { r: 235, g: 235, b: 240 },
            code_fg: Color::Rgb { r: 40, g: 40, b: 50 },
            quote_mark: Color::Rgb { r: 0, g: 140, b: 50 },
            border: Color::Rgb { r: 180, g: 180, b: 190 },
            header_bg: Color::Rgb { r: 235, g: 235, b: 240 },
            header_fg: Color::Rgb { r: 40, g: 40, b: 50 },
            title: Color::Rgb { r: 0, g: 140, b: 180 },
        }),
{
    let palette = PALETTES@[7]@;
    assert(palette[0] == 0x1000000 && palette[1] == 0x282832 && palette[2] == 0x008cb4 && palette[3] == 0xc87800 && palette[4] == 0x787882 && palette[5] == 0xebebf0 && palette[6] == 0x282832 && palette[7] == 0x008c32 && palette[8] == 0xb4b4be && palette[9] == 0xebebf0 && palette[10] == 0x282832 && palette[11] == 0x008cb4);
}

/// The colors of "Gruvbox Light".
pub proof fn law_colors_of_gruvbox_light()
    ensures
        builtin_views()[8] == (ThemeView {
            name: "Gruvbox Light"@,
            bg: Color::Rgb { r: 251, g: 241, b: 199 },
            fg: Color::Rgb { r: 60, g: 56, b: 54 },
            heading: Color::Rgb { r: 215, g: 153, b: 33 },
            accent: Color::Rgb { r: 152, g: 103, b: 0 },
            muted: Color::Rgb { r: 146, g: 131, b: 116 },
            code_bg: Color::Rgb { r: 242, g: 233, b: 185 },
            code_fg: Color::Rgb { r: 121, g: 116, b: 14 },
            quote_mark: Color::Rgb { r: 152, g: 103, b: 0 },
            border: Color::Rgb { r: 213, g: 196, b: 161 },
            header_bg: Color::Rgb { r: 242, g: 233, b: 185 },
            header_fg: Color::Rgb { r: 60, g: 56, b: 54 },
            title: Color::Rgb { r: 215, g: 153, b: 33 },
        }),
{
    let palette = PALETTES@[8]@;
    assert(palette[0] == 0xfbf1c7 && palette[1] == 0x3c3836 && palette[2] == 0xd79921 && palette[3] == 0x986700 && palette[4] == 0x928374 && palette[5] == 0xf2e9b9 && palette[6] == 0x79740e && palette[7] == 0x986700 && palette[8] == 0xd5c4a1 && palette[9] == 0xf2e9b9 && palette[10] == 0x3c3836 && palette[11] == 0xd79921);
}

/// The colors of "Solarized Light".
pub proof fn law_colors_of_solarized_light()
    ensures
        builtin_views()[9] == (ThemeView {
            name: "Solarized Light"@,
            bg: Color::Rgb { r: 253, g: 246, b: 227 },
            fg: Color::Rgb { r: 88, g: 110, b: 117 },
            heading: Color::Rgb { r: 181, g: 137, b: 0 },
            accent: Color::Rgb { r: 42, g: 161, b: 152 },
            muted: Color::Rgb { r: 147, g: 161, b: 161 },
            code_bg: Color::Rgb { r: 238, g: 232, b: 213 },
            code_fg: Color::Rgb { r: 133, g: 153, b: 0 },
            quote_mark: Color::Rgb { r: 42, g: 161, b: 152 },
            border: Color::Rgb { r: 220, g: 212, b: 188 },
            header_bg: Color::Rgb { r: 238, g: 232, b: 213 },
            header_fg: Color::Rgb { r: 88, g: 110, b: 117 },
            title: Color::Rgb { r: 181, g: 137, b: 0 },
        }),
{
    let palette = PALETTES@[9]@;
    assert(palette[0] == 0xfdf6e3 && palette[1] == 0x586e75 && palette[2] == 0xb58900 && palette[3] == 0x2aa198 && palette[4] == 0x93a1a1 && palette[5] == 0xeee8d5 && palette[6] == 0x859900 && palette[7] == 0x2aa198 && palette[8] == 0xdcd4bc && palette[9] == 0xeee8d5 && palette[10] == 0x586e75 && palette[11] == 0xb58900);
}

/// The colors of "Flexoki Light".
pub proof fn law_colors_of_flexoki_light()
    ensures
        builtin_views()[10] == (ThemeView {
            name: "Flexoki Light"@,
            bg: Color::Rgb { r: 255, g: 252, b: 240 },
            fg: Color::Rgb { r: 16, g: 15, b: 15 },
            heading: Color::Rgb { r: 36, g: 131, b: 123 },
            accent: Color::Rgb { r: 102, g: 128, b: 11 },
            muted: Color::Rgb { r: 111, g: 110, b: 105 },
            code_bg: Color::Rgb { r: 244, g: 241, b: 230 },
            code_fg: Color::Rgb { r: 16, g: 15, b: 15 },
            quote_mark: Color::Rgb { r: 102, g: 128, b: 11 },
            border: Color::Rgb { r: 230, g: 228, b: 217 },
            header_bg: Color::Rgb { r: 244, g: 241, b: 230 },
            header_fg: Color::Rgb { r: 16, g: 15, b: 15 },
            title: Color::Rgb { r: 36, g: 131, b: 123 },
        }),
{
    let palette = PALETTES@[10]@;
    assert(palette[0] == 0xfffcf0 && palette[1] == 0x100f0f && palette[2] == 0x24837b && palette[3] == 0x66800b && palette[4] == 0x6f6e69 && palette[5] == 0xf4f1e6 && palette[6] == 0x100f0f && palette[7] == 0x66800b && palette[8] == 0xe6e4d9 && palette[9] == 0xf4f1e6 && palette[10] == 0x100f0f && palette[11] == 0x24837b);
}

/// The colors of "Ayu Light".
pub proof fn law_colors_of_ayu_light()
    ensures
        builtin_views()[11] == (ThemeView {
            name: "Ayu Light"@,
            bg: Color::Rgb { r: 252, g: 252, b: 252 },
            fg: Color::Rgb { r: 92, g: 97, b: 102 },
            heading: Color::Rgb { r: 255, g: 153, b: 64 },
            accent: Color::Rgb { r: 133, g: 179, b: 4 },
            muted: Color::Rgb { r: 153, g: 160, b: 166 },
            code_bg: Color::Rgb { r: 242, g: 242, b: 242 },
            code_fg: Color::Rgb { r: 92, g: 97, b: 102 },
            quote_mark: Color::Rgb { r: 133, g: 179, b: 4 },
            border: Color::Rgb { r: 207, g: 209, b: 210 },
            header_bg: Color::Rgb { r: 242, g: 242, b: 242 },
            header_fg: Color::Rgb { r: 92, g: 97, b: 102 },
            title: Color::Rgb { r: 255, g: 153, b: 64 },
        }),
{
    let palette = PALETTES@[11]@;
    assert(palette[0] == 0xfcfcfc && palette[1] == 0x5c6166 && palette[2] == 0xff9940 && palette[3] == 0x85b304 && palette[4] == 0x99a0a6 && palette[5] == 0xf2f2f2 && palette[6] == 0x5c6166 && palette[7] == 0x85b304 && palette[8] == 0xcfd1d2 && palette[9] == 0xf2f2f2 && palette[10] == 0x5c6166 && palette[11] == 0xff9940);
}

/// The colors of "Zoegi Light".
pub proof fn law_colors_of_zoegi_light()
    ensures
        builtin_views()[12] == (ThemeView {
            name: "Zoegi Light"@,
            bg: Color::Rgb { r: 255, g: 255, b: 255 },
            fg: Color::Rgb { r: 51, g: 51, b: 51 },
            heading: Color::Rgb { r: 55, g: 121, b: 97 },
            accent: Color::Rgb { r: 55, g: 121, b: 97 },
            muted: Color::Rgb { r: 89, g: 89, b: 89 },
            code_bg: Color::Rgb { r: 245, g: 245, b: 245 },
            code_fg: Color::Rgb { r: 55, g: 121, b: 97 },
            quote_mark: Color::Rgb { r: 55, g: 121, b: 97 },
            border: Color::Rgb { r: 230, g: 230, b: 230 },
            header_bg: Color::Rgb { r: 245, g: 245, b: 245 },
            header_fg: Color::Rgb { r: 51, g: 51, b: 51 },
            title: Color::Rgb { r: 55, g: 121, b: 97 },
        }),
{
    let palette = PALETTES@[12]@;
    assert(palette[0] == 0xffffff && palette[1] == 0x333333 && palette[2] == 0x377961 && palette[3] == 0x377961 && palette[4] == 0x595959 && palette[5] == 0xf5f5f5 && palette[6] == 0x377961 && palette[7] == 0x377961 && palette[8] == 0xe6e6e6 && palette[9] == 0xf5f5f5 && palette[10] == 0x333333 && palette[11] == 0x377961);
}

/// The colors of "FFE Light".
pub proof fn law_colors_of_ffe_light()
    ensures
        builtin_views()[13] == (ThemeView {
            name: "FFE Light"@,
            bg: Color::Rgb { r: 232, g: 236, b: 240 },
            fg: Color::Rgb { r: 30, g: 35, b: 43 },
            heading: Color::Rgb { r: 192, g: 121, b: 32 },
            accent: Color::Rgb { r: 42, g: 157, b: 132 },
            muted: Color::Rgb { r: 74, g: 80, b: 96 },
            code_bg: Color::Rgb { r: 245, g: 247, b: 250 },
            code_fg: Color::Rgb { r: 26, g: 138, b: 110 },
            quote_mark: Color::Rgb { r: 42, g: 157, b: 132 },
            border: Color::Rgb { r: 201, g: 205, b: 214 },
            header_bg: Color::Rgb { r: 245, g: 247, b: 250 },
            header_fg: Color::Rgb { r: 30, g: 35, b: 43 },
            title: Color::Rgb { r: 192, g: 121, b: 32 },
        }),
{
    let palette = PALETTES@[13]@;
    assert(palette[0] == 0xe8ecf0 && palette[1] == 0x1e232b && palette[2] == 0xc07920 && palette[3] == 0x2a9d84 && palette[4] == 0x4a5060 && palette[5] == 0xf5f7fa && palette[6] == 0x1a8a6e && palette[7] == 0x2a9d84 && palette[8] == 0xc9cdd6 && palette[9] == 0xf5f7fa && palette[10] == 0x1e232b && palette[11] == 0xc07920);
}

/// A tint is a mixture in parts of a hundred, rounded down, but no darker than its floor; a
/// background without a color counts as black.
pub proof fn law_tints(bg: (u8, u8, u8), accent: (u8, u8, u8), percent: int, floor: (u8, u8, u8))
    requires
        0 <= percent <= 100,
    ensures
        ({
            let c = tinted(
                Color::Rgb { r: bg.0, g: bg.1, b: bg.2 },
                Color::Rgb { r: accent.0, g: accent.1, b: accent.2 },
                percent,
                floor,
            );
            &&& c is Rgb
            &&& mixes(c->r, bg.0, accent.0, percent, floor.0)
            &&& mixes(c->g, bg.1, accent.1, percent, floor.1)
            &&& mixes(c->b, bg.2, accent.2, percent, floor.2)
        }),
        tinted(Color::Reset, Color::Rgb { r: accent.0, g: accent.1, b: accent.2 }, percent, floor)
            == tinted(
            Color::Rgb { r: 0, g: 0, b: 0 },
            Color::Rgb { r: accent.0, g: accent.1, b: accent.2 },
            percent,
            floor,
        ),
        tinted(Color::Rgb { r: bg.0, g: bg.1, b: bg.2 }, Color::Reset, percent, floor) == tinted(
            Color::Rgb { r: bg.0, g: bg.1, b: bg.2 },
            Color::Rgb { r: 255, g: 220, b: 100 },
            percent,
            floor,
        ),
{
    lemma_mixes(bg.0, accent.0, percent, floor.0);
    lemma_mixes(bg.1, accent.1, percent, floor.1);
    lemma_mixes(bg.2, accent.2, percent, floor.2);
}

/// Whether a part of a color is a mixture of two others, but no darker than a floor.
pub open spec fn mixes(v: u8, base: u8, tint: u8, percent: int, floor: u8) -> bool {
    let sum = base * (100 - percent) + tint * percent;
    &&& v >= floor
    &&& v > floor ==> 100 * v <= sum < 100 * (v + 1)
    &&& v == floor ==> sum < 100 * (v + 1)
}

proof fn lemma_mixes(base: u8, tint: u8, percent: int, floor: u8)
    requires
        0 <= percent <= 100,
    ensures
        mixes(blended(base, tint, percent, floor), base, tint, percent, floor),
{
    let sum = base * (100 - percent) + tint * percent;
    assert(0 <= sum <= 25500) by (nonlinear_arith)
        requires
            sum == base * (100 - percent) + tint * percent,
            0 <= percent <= 100,
            0 <= base <= 255,
            0 <= tint <= 255,
    ;
}

/// A color may be written with six hexadecimal digits, two for each part, or with three, each of
/// which counts twice; in capitals or not.
pub proof fn law_hex_colors(a: char, b: char, c: char, d: char, e: char, f: char)
    requires
        hex_digit_value(a) is Some,
        hex_digit_value(b) is Some,
        hex_digit_value(c) is Some,
        hex_digit_value(d) is Some,
        hex_digit_value(e) is Some,
        hex_digit_value(f) is Some,
    ensures
        hex_color(seq!['#', a, b, c, d, e, f]) == Some(
            Color::Rgb {
                r: (16 * hex_digit_value(a)->0 + hex_digit_value(b)->0) as u8,
                g: (16 * hex_digit_value(c)->0 + hex_digit_value(d)->0) as u8,
                b: (16 * hex_digit_value(e)->0 + hex_digit_value(f)->0) as u8,
            },
        ),
        hex_color(seq!['#', a, b, c]) == hex_color(seq!['#', a, a, b, b, c, c]),
{
    reveal_strlit("reset");
    let six = seq!['#', a, b, c, d, e, f];
    let three = seq!['#', a, b, c];
    let twice = seq!['#', a, a, b, b, c, c];
    lemma_trimmed_code(six);
    lemma_trimmed_code(three);
    lemma_trimmed_code(twice);
}

proof fn lemma_trimmed_code(s: Seq<char>)
    requires
        s.len() > 1,
        s[0] == '#',
        hex_digit_value(s.last()) is Some,
    ensures
        trimmed(s) == s,
        ascii_lowered(s) != "reset"@,
{
    reveal_strlit("reset");
    law_trimmed(Seq::empty(), s, Seq::empty());
    assert(Seq::<char>::empty() + s + Seq::<char>::empty() =~= s);
    assert(ascii_lowered(s)[0] == '#');
    assert("reset"@[0] == 'r');
}

/// What a hexadecimal digit stands for.
pub open spec fn hex_digit_value(c: char) -> Option<int> {
    if '0' <= c <= '9' {
        Some(c as int - 48)
    } else if 'a' <= c <= 'f' {
        Some(c as int - 87)
    } else if 'A' <= c <= 'F' {
        Some(c as int - 55)
    } else {
        None
    }
}

/// White space around a color does not count, and the word for the terminal's own one may be
/// written in capitals.
pub proof fn law_colors_are_trimmed(a: Seq<char>, s: Seq<char>, b: Seq<char>)
    requires
        blank(a),
        blank(b),
        s.len() > 0 ==> !white_space(s[0]) && !white_space(s.last()),
    ensures
        hex_color(a + s + b) == hex_color(s),
        ascii_lowered(s) == "reset"@ ==> hex_color(s) == Some(Color::Reset),
        s.len() != 4 && s.len() != 7 && ascii_lowered(s) != "reset"@ ==> hex_color(s) is None,
        s.len() > 0 && s[0] != '#' && ascii_lowered(s) != "reset"@ ==> hex_color(s) is None,
{
    law_trimmed(a, s, b);
    law_trimmed(Seq::empty(), s, Seq::empty());
    assert(Seq::<char>::empty() + s + Seq::<char>::empty() =~= s);
}

/// A theme of the user's is read where every color of it can be read, and each is the one that was
/// written for it.
pub proof fn law_user_themes(t: UserTheme)
    ensures
        user_theme(t) matches Some(v) ==> {
            &&& v.name == t.name@
            &&& hex_color(t.bg@) == Some(v.bg)
            &&& hex_color(t.fg@) == Some(v.fg)
            &&& hex_color(t.heading@) == Some(v.heading)
            &&& hex_color(t.accent@) == Some(v.accent)
            &&& hex_color(t.muted@) == Some(v.muted)
            &&& hex_color(t.code_bg@) == Some(v.code_bg)
            &&& hex_color(t.code_fg@) == Some(v.code_fg)
            &&& hex_color(t.quote_mark@) == Some(v.quote_mark)
            &&& hex_color(t.border@) == Some(v.border)
            &&& hex_color(t.header_bg@) == Some(v.header_bg)
            &&& hex_color(t.header_fg@) == Some(v.header_fg)
            &&& hex_color(t.title@) == Some(v.title)
        },
        user_theme(t) is None ==> {
            ||| hex_color(t.bg@) is None
            ||| hex_color(t.fg@) is None
            ||| hex_color(t.heading@) is None
            ||| hex_color(t.accent@) is None
            ||| hex_color(t.muted@) is None
            ||| hex_color(t.code_bg@) is None
            ||| hex_color(t.code_fg@) is None
            ||| hex_color(t.quote_mark@) is None
            ||| hex_color(t.border@) is None
            ||| hex_color(t.header_bg@) is None
            ||| hex_color(t.header_fg@) is None
            ||| hex_color(t.title@) is None
        },
{
}

/// The user's themes that can be read are read, in their order, and no others.
pub proof fn law_themes_read(descriptions: Seq<UserTheme>, i: int)
    requires
        0 <= i < descriptions.len(),
    ensures
        user_theme(descriptions[i]) matches Some(t) ==> parsed_themes(descriptions).contains(t),
        forall|k: int|
            0 <= k < parsed_themes(descriptions).len() ==> exists|j: int|
                0 <= j < descriptions.len() && user_theme(#[trigger] descriptions[j]) == Some(
                    #[trigger] parsed_themes(descriptions)[k],
                ),
    decreases descriptions.len(),
{
    let front = descriptions.drop_last();
    let before = parsed_themes(front);
    let all = parsed_themes(descriptions);
    if i < front.len() {
        law_themes_read(front, i);
        assert(front[i] == descriptions[i]);
        if let Some(t) = user_theme(descriptions[i]) {
            let k = choose|k: int| 0 <= k < before.len() && before[k] == t;
            assert(all[k] == t);
        }
    } else if user_theme(descriptions[i]) is Some {
        assert(all.last() == user_theme(descriptions[i])->0);
    }
    assert forall|k: int| 0 <= k < all.len() implies exists|j: int|
        0 <= j < descriptions.len() && user_theme(#[trigger] descriptions[j]) == Some(
            #[trigger] all[k],
        ) by {
        if k < before.len() {
            law_themes_read(front, 0);
            assert(before[k] == all[k]);
            let j = choose|j: int|
                0 <= j < front.len() && user_theme(#[trigger] front[j]) == Some(before[k]);
            assert(descriptions[j] == front[j]);
        } else {
            assert(user_theme(descriptions[descriptions.len() - 1]) == Some(all[k]));
        }
    }
}

/// A theme of the user's is added where there is none of its name yet.
pub proof fn law_user_themes_are_added(themes: Seq<ThemeView>, more: Seq<ThemeView>, i: int)
    requires
        0 <= i < more.len(),
    ensures
        has_name(extended(themes, more), more[i].name),
        !has_name(themes, more[i].name) && (forall|j: int|
            0 <= j < i ==> (#[trigger] more[j]).name != more[i].name) ==> extended(
            themes,
            more,
        ).contains(more[i]),
        forall|k: int|
            0 <= k < extended(themes, more).len() ==> themes.contains(
                #[trigger] extended(themes, more)[k],
            ) || more.contains(extended(themes, more)[k]),
    decreases more.len(),
{
    let front = more.drop_last();
    let before = extended(themes, front);
    let all = extended(themes, more);
    lemma_only_known(themes, more);
    if i < front.len() {
        law_user_themes_are_added(themes, front, i);
        assert(front[i] == more[i]);
        let k = choose|k: int|
            0 <= k < before.len() && (#[trigger] before[k]).name == more[i].name;
        assert(all[k] == before[k]);
        if !has_name(themes, more[i].name) && (forall|j: int|
            0 <= j < i ==> (#[trigger] more[j]).name != more[i].name) {
            assert forall|j: int| 0 <= j < i implies (#[trigger] front[j]).name != front[i].name by {
                assert(front[j] == more[j]);
            }
            let k = choose|k: int| 0 <= k < before.len() && before[k] == more[i];
            assert(all[k] == more[i]);
        }
    } else {
        if has_name(before, more[i].name) {
            let k = choose|k: int|
                0 <= k < before.len() && (#[trigger] before[k]).name == more[i].name;
            assert(all[k] == before[k]);
            if !has_name(themes, more[i].name) && (forall|j: int|
                0 <= j < i ==> (#[trigger] more[j]).name != more[i].name) {
                lemma_only_known(themes, front);
                assert(themes.contains(before[k]) || front.contains(before[k]));
                if themes.contains(before[k]) {
                    let m = choose|m: int| 0 <= m < themes.len() && themes[m] == before[k];
                    assert(themes[m].name == more[i].name);
                } else {
                    let m = choose|m: int| 0 <= m < front.len() && front[m] == before[k];
                    assert(more[m] == front[m]);
                }
            }
        } else {
            assert(all.last() == more[i]);
        }
    }
}

proof fn lemma_only_known(themes: Seq<ThemeView>, more: Seq<ThemeView>)
    ensures
        forall|k: int|
            0 <= k < extended(themes, more).len() ==> themes.contains(
                #[trigger] extended(themes, more)[k],
            ) || more.contains(extended(themes, more)[k]),
    decreases more.len(),
{
    if more.len() > 0 {
        let front = more.drop_last();
        let before = extended(themes, front);
        let all = extended(themes, more);
        lemma_only_known(themes, front);
        assert forall|k: int| 0 <= k < all.len() implies themes.contains(#[trigger] all[k])
            || more.contains(all[k]) by {
            if k < before.len() {
                assert(all[k] == before[k]);
                if front.contains(before[k]) {
                    let m = choose|m: int| 0 <= m < front.len() && front[m] == before[k];
                    assert(more[m] == all[k]);
                }
            } else {
                assert(more[more.len() - 1] == all[k]);
            }
        }
    }
}

/// A theme is found by its name; the first one stands for names that no theme has.
pub proof fn law_themes_are_found(themes: Seq<ThemeView>, name: Seq<char>)
    ensures
        has_name(themes, name) ==> 0 <= named_index(themes, name) < themes.len()
            && themes[named_index(themes, name)].name == name && forall|i: int|
            0 <= i < named_index(themes, name) ==> (#[trigger] themes[i]).name != name,
        !has_name(themes, name) ==> named_index(themes, name) == 0,
{
    lemma_index_is_first(themes, name, 0);
}

proof fn lemma_index_is_first(themes: Seq<ThemeView>, name: Seq<char>, from: int)
    requires
        0 <= from <= themes.len(),
    ensures
        match index_from(themes, name, from) {
            Some(i) => from <= i < themes.len() && themes[i].name == name && forall|j: int|
                from <= j < i ==> (#[trigger] themes[j]).name != name,
            None => forall|j: int| from <= j < themes.len() ==> (#[trigger] themes[j]).name != name,
        },
    decreases themes.len() - from,
{
    if from < themes.len() && themes[from].name != name {
        lemma_index_is_first(themes, name, from + 1);
    }
}

/// A theme stands for its name and its colors, each for itself.
pub proof fn law_themes_stand_for_their_fields(theme: Theme)
    ensures
        theme@.name == theme.name@,
        theme@.bg == theme.bg && theme@.fg == theme.fg && theme@.heading == theme.heading,
        theme@.accent == theme.accent && theme@.muted == theme.muted,
        theme@.code_bg == theme.code_bg && theme@.code_fg == theme.code_fg,
        theme@.quote_mark == theme.quote_mark && theme@.border == theme.border,
        theme@.header_bg == theme.header_bg && theme@.header_fg == theme.header_fg,
        theme@.title == theme.title,
{
}

} // verus!
