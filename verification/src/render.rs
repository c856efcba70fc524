//! From markdown and source code to rows for the terminal.

use termimad::crossterm::style::Color as RendererColor;
use vstd::prelude::*;

use crate::ansi::{color_escape, content_start, push_bg, push_fg, strip_blank_rows};
use crate::highlight::{
    blocks_highlighted, highlight_code, highlight_code_blocks, highlighted,
};
use crate::layout::{can_wrap, wraps_to};
use crate::paragraphs::{join_paragraphs, joined_paragraphs};
use crate::text::{
    begins, chars_of, decimal, ended_lines, law_replaced, lemma_parse_decimal, lines_of,
    parse_number, parsed_number, push_chars, push_lines, push_str, replace_char, replaced,
    split_lines, string_of, views,
};
use crate::theme::{Color, Theme, ThemeView};

verus! {

/// Clear from the cursor to the end of the line (fills with the current background).
pub const ANSI_CLEAR_EOL: &'static str = "\u{1b}[K";

/// Reset all attributes.
pub const ANSI_RESET: &'static str = "\u{1b}[0m";

/// Bold on.
pub const ANSI_BOLD: &'static str = "\u{1b}[1m";

/// Bold off (normal intensity).
pub const ANSI_NORMAL: &'static str = "\u{1b}[22m";

// ---------------------------------------------------------------- the picker's header

/// A key in bold and what it does.
pub open spec fn picker_hint(
    accent: Seq<char>,
    key: Seq<char>,
    fg: Seq<char>,
    label: Seq<char>,
) -> Seq<char> {
    accent + ANSI_BOLD@ + key + ANSI_NORMAL@ + " "@ + fg + label
}

/// The header of the file picker in a theme.
pub open spec fn picker_header(theme: ThemeView) -> Seq<char> {
    let fg = color_escape("38"@, theme.fg);
    let accent = color_escape("38"@, theme.accent);
    let sep = color_escape("38"@, theme.muted) + "\u{2502}"@;
    let first = picker_hint(accent, "^n/^b"@, fg, "Theme "@) + sep;
    let second = picker_hint(accent, " ^/"@, fg, "Layout "@) + sep;
    let third = picker_hint(accent, " ^v"@, fg, "Vendor\n"@);
    let fourth = picker_hint(accent, " enter"@, fg, "Open"@);
    let name = color_escape("38"@, theme.heading) + "  ["@ + theme.name + "]"@ + ANSI_RESET@;
    first + second + third + fourth + name
}

fn push_hint(out: &mut Vec<char>, theme: &Theme, key: &str, label: &str)
    ensures
        final(out)@ == old(out)@ + picker_hint(
            color_escape("38"@, theme.accent),
            key@,
            color_escape("38"@, theme.fg),
            label@,
        ),
{
    let ghost start = out@;
    push_fg(out, theme.accent);
    push_str(out, ANSI_BOLD);
    push_str(out, key);
    push_str(out, ANSI_NORMAL);
    push_str(out, " ");
    push_fg(out, theme.fg);
    push_str(out, label);
    assert(out@ =~= start + picker_hint(
        color_escape("38"@, theme.accent),
        key@,
        color_escape("38"@, theme.fg),
        label@,
    ));
}

fn push_separator(out: &mut Vec<char>, theme: &Theme)
    ensures
        final(out)@ == old(out)@ + (color_escape("38"@, theme.muted) + "\u{2502}"@),
{
    let ghost start = out@;
    push_fg(out, theme.muted);
    push_str(out, "\u{2502}");
    assert(out@ =~= start + (color_escape("38"@, theme.muted) + "\u{2502}"@));
}

/// Build the ANSI-styled header line for the file picker, showing keyboard shortcuts and the
/// current theme name.
pub fn fzf_header_line(theme: &Theme) -> (s: String)
    ensures
        s@ == picker_header(theme@),
{
    let mut out: Vec<char> = Vec::new();
    push_hint(&mut out, theme, "^n/^b", "Theme ");
    push_separator(&mut out, theme);
    push_hint(&mut out, theme, " ^/", "Layout ");
    push_separator(&mut out, theme);
    push_hint(&mut out, theme, " ^v", "Vendor\n");
    push_hint(&mut out, theme, " enter", "Open");
    push_fg(&mut out, theme.heading);
    push_str(&mut out, "  [");
    push_str(&mut out, theme.name.as_str());
    push_str(&mut out, "]");
    push_str(&mut out, ANSI_RESET);
    assert(out@ =~= picker_header(theme@));
    string_of(&out)
}

// ---------------------------------------------------------------- the markdown renderer

/// How a text stands out besides its color.
#[derive(Debug, Clone, Copy, PartialEq, Eq, Structural)]
pub enum Emphasis {
    Bold,
    Italic,
    Underlined,
}

/// Where a line of text stands.
#[derive(Debug, Clone, Copy, PartialEq, Eq, Structural)]
pub enum Align {
    Left,
    Center,
    Right,
}

/// How markdown is styled.
#[derive(Debug, Clone, Copy, PartialEq, Eq, Structural)]
pub struct Skin {
    pub heading: Color,
    /// How headings stand out, and in no other way.
    pub heading_emphasis: Emphasis,
    pub heading_align: Align,
    pub bold: Color,
    pub italic: Color,
    pub strikeout: Color,
    pub code_fg: Color,
    pub code_bg: Color,
    /// The columns left of a code block.
    pub code_margin: usize,
    pub quote_mark: Color,
    pub rule: Color,
    /// What stands before the items of a list.
    pub bullet: char,
    pub bullet_fg: Color,
}

/// The skin for a theme: headings are bold, not underlined, and begin at the left.
pub open spec fn skin_for(theme: ThemeView) -> Skin {
    Skin {
        heading: theme.heading,
        heading_emphasis: Emphasis::Bold,
        heading_align: Align::Left,
        bold: theme.accent,
        italic: theme.accent,
        strikeout: theme.muted,
        code_fg: theme.code_fg,
        code_bg: theme.code_bg,
        code_margin: 2,
        quote_mark: theme.quote_mark,
        rule: theme.muted,
        bullet: '\u{2022}',
        bullet_fg: theme.accent,
    }
}

/// Build a [`Skin`] configured with the given theme colors.
///
/// Body text is left unstyled so the viewer's render loop can apply the theme's foreground and
/// background as the fallback for cells without explicit colors.
pub fn build_skin(theme: &Theme) -> (skin: Skin)
    ensures
        skin == skin_for(theme@),
{
    Skin {
        heading: theme.heading,
        heading_emphasis: Emphasis::Bold,
        heading_align: Align::Left,
        bold: theme.accent,
        italic: theme.accent,
        strikeout: theme.muted,
        code_fg: theme.code_fg,
        code_bg: theme.code_bg,
        code_margin: 2,
        quote_mark: theme.quote_mark,
        rule: theme.muted,
        bullet: '\u{2022}',
        bullet_fg: theme.accent,
    }
}

/// A color as the renderer has it.
#[verifier::external_type_specification]
#[verifier::external_body]
pub struct ExRendererColor(RendererColor);

/// A skin as the renderer has it.
#[verifier::external_type_specification]
#[verifier::external_body]
pub struct ExRendererSkin(termimad::MadSkin);

/// `termimad::crossterm::style::Color`: the renderer's color for a color. Nothing is stated of
/// it: the renderer's colors are not looked into.
#[verifier::external_body]
fn outside_color(color: Color) -> RendererColor {
    match color {
        Color::Reset => RendererColor::Reset,
        Color::White => RendererColor::White,
        Color::DarkGrey => RendererColor::DarkGrey,
        Color::Rgb { r, g, b } => RendererColor::Rgb { r, g, b },
    }
}

/// The setters of the styles of a `termimad::MadSkin`: the renderer's skin with the styles of
/// headings. Nothing is stated of it: the renderer's skin is not looked into.
#[verifier::external_body]
fn heading_styles(mad: termimad::MadSkin, skin: &Skin) -> termimad::MadSkin {
    let mut mad = mad;
    for h in &mut mad.headers {
        h.set_fg(outside_color(skin.heading));
        h.compound_style.object_style.attributes = match skin.heading_emphasis {
            Emphasis::Bold => termimad::crossterm::style::Attribute::Bold.into(),
            Emphasis::Italic => termimad::crossterm::style::Attribute::Italic.into(),
            Emphasis::Underlined => termimad::crossterm::style::Attribute::Underlined.into(),
        };
        h.align = match skin.heading_align {
            Align::Left => termimad::Alignment::Left,
            Align::Center => termimad::Alignment::Center,
            Align::Right => termimad::Alignment::Right,
        };
    }
    mad
}

/// `termimad::MadSkin::default` and the setters of its styles: the renderer's skin with the
/// styles of emphasized text. Nothing is stated of it: the renderer's skin is not looked into.
#[verifier::external_body]
fn text_styles(skin: &Skin) -> termimad::MadSkin {
    let mut mad = termimad::MadSkin::default();
    mad.bold.set_fg(outside_color(skin.bold));
    mad.italic.set_fg(outside_color(skin.italic));
    mad.strikeout.set_fg(outside_color(skin.strikeout));
    mad
}

/// The setters of the styles of a `termimad::MadSkin`: the renderer's skin with the styles of
/// code, quotes, rules and lists. Nothing is stated of it: the renderer's skin is not looked
/// into.
#[verifier::external_body]
fn block_styles(mad: termimad::MadSkin, skin: &Skin) -> termimad::MadSkin {
    let mut mad = mad;
    mad.inline_code.set_fgbg(outside_color(skin.code_fg), outside_color(skin.code_bg));
    mad.code_block.set_fgbg(outside_color(skin.code_fg), outside_color(skin.code_bg));
    mad.code_block.left_margin = skin.code_margin;
    mad.quote_mark.set_fg(outside_color(skin.quote_mark));
    mad.horizontal_rule.set_fg(outside_color(skin.rule));
    mad.bullet.set_char(skin.bullet);
    mad.bullet.set_fg(outside_color(skin.bullet_fg));
    mad
}

/// Markdown in a skin, wrapped to a width, with or without colors.
pub uninterp spec fn rendered(skin: Skin, markdown: Seq<char>, width: usize, colors: bool) -> Seq<
    char,
>;

/// `termimad::MadSkin::text` and its `Display`: markdown styled and wrapped to a width, every line
/// with a line end. `termimad::crossterm::style::force_color_output` says whether colors come out,
/// in place of the environment.
#[verifier::external_body]
fn render(skin: &Skin, markdown: &str, width: usize, colors: bool) -> (text: String)
    requires
        can_wrap(markdown@, width),
        skin.code_margin <= u16::MAX,
    ensures
        text@ == rendered(*skin, markdown@, width, colors),
        text@.len() > 0 ==> text@.last() == '\n',
{
    termimad::crossterm::style::force_color_output(colors);
    let mad = block_styles(heading_styles(text_styles(skin), skin), skin);
    mad.text(markdown, Some(width)).to_string()
}

// ---------------------------------------------------------------- rows for the viewer

/// Rendered text as rows of the terminal, without the blank ones at the beginning.
pub open spec fn finished(text: Seq<char>) -> Seq<char> {
    let rows = replaced(text, '\n', "\r\n"@);
    rows.skip(content_start(rows, 0))
}

/// Make rows of the terminal of rendered text: every line end becomes a row end, and blank rows
/// at the beginning are dropped.
pub fn finish(text: &str) -> (s: String)
    ensures
        s@ == finished(text@),
{
    let rows = replace_char(&chars_of(text), '\n', "\r\n");
    string_of(&strip_blank_rows(&rows))
}

/// The rows of a markdown document whose code blocks are highlighted and whose images have their
/// blank lines.
pub open spec fn document_rows(
    markdown: Seq<char>,
    theme: ThemeView,
    width: usize,
    colors: bool,
) -> Seq<char> {
    finished(rendered(skin_for(theme), joined_paragraphs(markdown), width, colors))
}

/// Render a markdown document for the viewer, `inner_cols` columns wide. Its code blocks are
/// highlighted already, and its images have their blank lines.
pub fn render_document(markdown: &str, theme: &Theme, inner_cols: u16, colors: bool) -> (s: String)
    requires
        can_wrap(joined_paragraphs(markdown@), inner_cols as usize),
    ensures
        s@ == document_rows(markdown@, theme@, inner_cols as usize, colors),
{
    let skin = build_skin(theme);
    let joined = join_paragraphs(markdown);
    let text = render(&skin, joined.as_str(), inner_cols as usize, colors);
    finish(text.as_str())
}

/// A line of code on the theme's background, to the edge of the terminal.
pub open spec fn code_line(line: Seq<char>, bg: Color, end: Seq<char>) -> Seq<char> {
    color_escape("48"@, bg) + line + ANSI_CLEAR_EOL@ + ANSI_RESET@ + end
}

/// Lines of code on the theme's background.
pub open spec fn code_lines(lines: Seq<Seq<char>>, bg: Color, end: Seq<char>) -> Seq<char>
    decreases lines.len(),
{
    if lines.len() == 0 {
        seq![]
    } else {
        code_lines(lines.drop_last(), bg, end) + code_line(lines.last(), bg, end)
    }
}

fn push_code_line(out: &mut Vec<char>, line: &Vec<char>, bg: Color, end: &str)
    ensures
        final(out)@ == old(out)@ + code_line(line@, bg, end@),
{
    let ghost start = out@;
    push_bg(out, bg);
    push_chars(out, line);
    push_str(out, ANSI_CLEAR_EOL);
    push_str(out, ANSI_RESET);
    push_str(out, end);
    assert(out@ =~= start + code_line(line@, bg, end@));
}

fn push_code_lines(out: &mut Vec<char>, lines: &Vec<Vec<char>>, from: usize, bg: Color, end: &str)
    requires
        from <= lines@.len(),
    ensures
        final(out)@ == old(out)@ + code_lines(views(lines@).skip(from as int), bg, end@),
{
    let ghost all = views(lines@).skip(from as int);
    let ghost start = out@;
    let mut i: usize = from;
    assert(all.take(0) =~= seq![]);
    assert(start + code_lines(all.take(0), bg, end@) =~= start);
    while i < lines.len()
        invariant
            from <= i <= lines@.len(),
            all == views(lines@).skip(from as int),
            out@ == start + code_lines(all.take(i - from), bg, end@),
        decreases lines@.len() - i,
    {
        let ghost before = code_lines(all.take(i - from), bg, end@);
        assert(all.take(i - from + 1).drop_last() =~= all.take(i - from));
        assert(all.take(i - from + 1).last() == lines@[i as int]@);
        push_code_line(out, &lines[i], bg, end);
        assert(out@ =~= start + (before + code_line(lines@[i as int]@, bg, end@)));
        i += 1;
    }
    assert(all.take(i - from) =~= all);
}

/// A source in color, or as it is where its language is not known.
pub open spec fn code_or_source(source: Seq<char>, lang: Option<Seq<char>>, bg: Color) -> Seq<char> {
    match lang {
        Some(l) => match highlighted(source, l, bg) {
            Some(text) => text,
            None => source,
        },
        None => source,
    }
}

fn color_source(source: &str, lang: Option<&str>, bg: Color) -> (s: String)
    ensures
        s@ == code_or_source(source@, optional_str(lang), bg),
{
    match lang {
        Some(l) => match highlight_code(source, l, bg) {
            Some(text) => text,
            None => source.to_owned(),
        },
        None => source.to_owned(),
    }
}

/// What an optional text stands for.
pub open spec fn optional_str(s: Option<&str>) -> Option<Seq<char>> {
    match s {
        Some(t) => Some(t@),
        None => None,
    }
}

/// Render a source file for the viewer: highlighted by its language, every line on the theme's
/// background.
pub fn render_code(source: &str, lang: &str, theme: &Theme) -> (s: String)
    ensures
        s@ == code_lines(
            lines_of(code_or_source(source@, Some(lang@), theme@.bg)),
            theme@.bg,
            "\r\n"@,
        ),
{
    let text = color_source(source, Some(lang), theme.bg);
    let lines = split_lines(&chars_of(text.as_str()));
    let mut out: Vec<char> = Vec::new();
    push_code_lines(&mut out, &lines, 0, theme.bg, "\r\n");
    assert(views(lines@).skip(0) =~= views(lines@));
    assert(out@ =~= code_lines(views(lines@), theme.bg, "\r\n"@));
    string_of(&out)
}

// ---------------------------------------------------------------- previews

/// How wide a preview is: as the picker says, if it says a number, else as the terminal is, else
/// 80 columns.
pub open spec fn preview_width_for(asked: Option<Seq<char>>, terminal: Option<u16>) -> nat {
    let said = match asked {
        Some(text) => parsed_number(text),
        None => None,
    };
    match said {
        Some(n) => n,
        None => match terminal {
            Some(cols) => cols as nat,
            None => 80,
        },
    }
}

/// Determine the width of a preview: `FZF_PREVIEW_COLUMNS` > terminal width > 80.
pub fn preview_width(asked: Option<&str>, terminal: Option<u16>) -> (width: usize)
    ensures
        width == preview_width_for(optional_str(asked), terminal),
{
    let said: Option<usize> = match asked {
        Some(text) => parse_number(&chars_of(text)),
        None => None,
    };
    match said {
        Some(n) => n,
        None => match terminal {
            Some(cols) => cols as usize,
            None => 80,
        },
    }
}

/// How many lines a preview leaves out that begins at a 1-indexed line.
pub open spec fn lines_left_out(start_line: Option<usize>) -> nat {
    match start_line {
        Some(n) => if n == 0 {
            0
        } else {
            (n - 1) as nat
        },
        None => 0,
    }
}

/// The lines of a text from the `n`th on.
pub open spec fn lines_after(text: Seq<char>, n: nat) -> Seq<Seq<char>> {
    if n <= lines_of(text).len() {
        lines_of(text).skip(n as int)
    } else {
        seq![]
    }
}

fn first_line(start_line: Option<usize>, total: usize) -> (from: usize)
    ensures
        from == (if lines_left_out(start_line) <= total {
            lines_left_out(start_line)
        } else {
            total as nat
        }),
{
    let skip: usize = match start_line {
        Some(n) => if n == 0 {
            0
        } else {
            n - 1
        },
        None => 0,
    };
    if skip <= total {
        skip
    } else {
        total
    }
}

/// What a preview renders: a markdown document with its code blocks highlighted and its
/// paragraphs joined.
pub open spec fn preview_source(markdown: Seq<char>, bg: Color) -> Seq<char> {
    joined_paragraphs(blocks_highlighted(markdown, bg))
}

/// What a preview of a markdown document shows: rendered by the skin for a theme, from a
/// 1-indexed line on.
pub open spec fn previewed(
    markdown: Seq<char>,
    theme: ThemeView,
    width: usize,
    colors: bool,
    start_line: Option<usize>,
) -> Seq<char> {
    let text = rendered(skin_for(theme), preview_source(markdown, theme.bg), width, colors);
    ended_lines(lines_after(text, lines_left_out(start_line)))
}

fn show_from(text: &str, start_line: Option<usize>) -> (s: String)
    ensures
        s@ == ended_lines(lines_after(text@, lines_left_out(start_line))),
{
    let lines = split_lines(&chars_of(text));
    let total: usize = lines.len();
    let from: usize = first_line(start_line, total);
    let mut out: Vec<char> = Vec::new();
    push_lines(&mut out, &lines, from, total);
    assert(views(lines@).subrange(from as int, total as int) =~= lines_after(
        text@,
        lines_left_out(start_line),
    ));
    assert(out@ =~= ended_lines(lines_after(text@, lines_left_out(start_line))));
    string_of(&out)
}

/// Preview mode: themed ANSI output for the picker's preview and for piping.
///
/// When `start_line` is set, output begins at that 1-indexed line.
pub fn preview(
    markdown: &str,
    theme: &Theme,
    width: usize,
    colors: bool,
    start_line: Option<usize>,
) -> (s: String)
    requires
        can_wrap(preview_source(markdown@, theme@.bg), width),
    ensures
        s@ == previewed(markdown@, theme@, width, colors, start_line),
{
    let highlighted_md = highlight_code_blocks(markdown, theme.bg);
    let joined = join_paragraphs(highlighted_md.as_str());
    let text = render(&build_skin(theme), joined.as_str(), width, colors);
    show_from(text.as_str(), start_line)
}

/// A preview as [`preview`] gives it; `None` where the renderer cannot lay the document out.
pub fn try_preview(
    markdown: &str,
    theme: &Theme,
    width: usize,
    colors: bool,
    start_line: Option<usize>,
) -> (s: Option<String>)
    ensures
        s is Some <==> can_wrap(preview_source(markdown@, theme@.bg), width),
        s matches Some(text) ==> text@ == previewed(markdown@, theme@, width, colors, start_line),
{
    let highlighted_md = highlight_code_blocks(markdown, theme.bg);
    let joined = join_paragraphs(highlighted_md.as_str());
    if wraps_to(joined.as_str(), width) {
        Some(preview(markdown, theme, width, colors, start_line))
    } else {
        None
    }
}

/// Preview mode for source files: highlighted and written directly, bypassing the markdown
/// renderer.
///
/// `lang` is the language token (e.g. "rs", "py"). If `None` or unrecognized, the raw source is
/// printed as-is.
pub fn preview_code(source: &str, lang: Option<&str>, theme: &Theme, start_line: Option<usize>) -> (s:
    String)
    ensures
        s@ == code_lines(
            lines_after(
                code_or_source(source@, optional_str(lang), theme@.bg),
                lines_left_out(start_line),
            ),
            theme@.bg,
            "\n"@,
        ),
{
    let text = color_source(source, lang, theme.bg);
    let lines = split_lines(&chars_of(text.as_str()));
    let from: usize = first_line(start_line, lines.len());
    let mut out: Vec<char> = Vec::new();
    push_code_lines(&mut out, &lines, from, theme.bg, "\n");
    let ghost shown = lines_after(text@, lines_left_out(start_line));
    assert(views(lines@).skip(from as int) =~= shown);
    assert(out@ =~= code_lines(shown, theme.bg, "\n"@));
    string_of(&out)
}

/// What is printed to standard output where there is no terminal: rendered markdown in a theme.
pub fn print_to_stdout(markdown: &str, theme: &Theme, width: usize, colors: bool) -> (s: String)
    requires
        can_wrap(joined_paragraphs(markdown@), width),
    ensures
        s@ == rendered(skin_for(theme@), joined_paragraphs(markdown@), width, colors),
{
    let joined = join_paragraphs(markdown);
    render(&build_skin(theme), joined.as_str(), width, colors)
}

/// What [`print_to_stdout`] prints; `None` where the renderer cannot lay the document out.
pub fn try_print_to_stdout(markdown: &str, theme: &Theme, width: usize, colors: bool) -> (s: Option<
    String,
>)
    ensures
        s is Some <==> can_wrap(joined_paragraphs(markdown@), width),
        s matches Some(text) ==> text@ == rendered(
            skin_for(theme@),
            joined_paragraphs(markdown@),
            width,
            colors,
        ),
{
    if wraps_to(join_paragraphs(markdown).as_str(), width) {
        Some(print_to_stdout(markdown, theme, width, colors))
    } else {
        None
    }
}

// ---------------------------------------------------------------- laws

/// The picker's header tells the keys and what they do, the keys in bold in the accent color, and
/// the theme's name in the color of headings.
pub proof fn law_picker_header(theme: ThemeView)
    ensures
        ({
            let fg = color_escape(seq!['3', '8'], theme.fg);
            let key = color_escape(seq!['3', '8'], theme.accent) + "\u{1b}[1m"@;
            let bar = color_escape(seq!['3', '8'], theme.muted) + seq!['\u{2502}'];
            let does = "\u{1b}[22m"@ + seq![' '] + fg;
            picker_header(theme) == (key + "^n/^b"@ + does + "Theme "@ + bar) + (key + " ^/"@ + does
                + "Layout "@ + bar) + (key + " ^v"@ + does + "Vendor\n"@) + (key + " enter"@ + does
                + "Open"@) + (color_escape(seq!['3', '8'], theme.heading) + "  ["@ + theme.name
                + seq![']'] + "\u{1b}[0m"@)
        }),
{
    reveal_strlit("38");
    reveal_strlit("\u{2502}");
    reveal_strlit(" ");
    reveal_strlit("]");
    assert("38"@ =~= seq!['3', '8']);
    assert("\u{2502}"@ =~= seq!['\u{2502}']);
    assert(" "@ =~= seq![' ']);
    assert("]"@ =~= seq![']']);
    let fg = color_escape("38"@, theme.fg);
    let accent = color_escape("38"@, theme.accent);
    let bar = color_escape("38"@, theme.muted) + "\u{2502}"@;
    let key = accent + "\u{1b}[1m"@;
    let does = "\u{1b}[22m"@ + " "@ + fg;
    assert(picker_hint(accent, "^n/^b"@, fg, "Theme "@) + bar =~= key + "^n/^b"@ + does + "Theme "@
        + bar);
    assert(picker_hint(accent, " ^/"@, fg, "Layout "@) + bar =~= key + " ^/"@ + does + "Layout "@
        + bar);
    assert(picker_hint(accent, " ^v"@, fg, "Vendor\n"@) =~= key + " ^v"@ + does + "Vendor\n"@);
    assert(picker_hint(accent, " enter"@, fg, "Open"@) =~= key + " enter"@ + does + "Open"@);
}

/// Which of the theme's colors the parts of a document have: headings are bold and at the left, list
/// items have a bullet, and code is set in by two columns.
pub proof fn law_skin(theme: ThemeView)
    ensures
        skin_for(theme).heading == theme.heading,
        skin_for(theme).heading_emphasis == Emphasis::Bold,
        skin_for(theme).heading_align == Align::Left,
        skin_for(theme).bold == theme.accent,
        skin_for(theme).italic == theme.accent,
        skin_for(theme).strikeout == theme.muted,
        skin_for(theme).code_fg == theme.code_fg,
        skin_for(theme).code_bg == theme.code_bg,
        skin_for(theme).code_margin == 2,
        skin_for(theme).quote_mark == theme.quote_mark,
        skin_for(theme).rule == theme.muted,
        skin_for(theme).bullet == '\u{2022}',
        skin_for(theme).bullet_fg == theme.accent,
{
}

/// The rows of a document are those of its joined paragraphs, each ended by a carriage return and a
/// line feed, without blank rows before the first.
pub proof fn law_document_rows(markdown: Seq<char>, theme: ThemeView, width: usize, colors: bool)
    ensures
        ({
            let text = rendered(skin_for(theme), joined_paragraphs(markdown), width, colors);
            let rows = replaced(text, '\n', seq!['\r', '\n']);
            &&& document_rows(markdown, theme, width, colors) == rows.skip(content_start(rows, 0))
            &&& !text.contains('\n') ==> rows == text
        }),
{
    reveal_strlit("\r\n");
    assert("\r\n"@ =~= seq!['\r', '\n']);
    let text = rendered(skin_for(theme), joined_paragraphs(markdown), width, colors);
    law_replaced(text, seq![], '\n', seq!['\r', '\n']);
}

/// A line of code is written on its background up to the edge of the screen, where everything is
/// reset.
pub proof fn law_code_lines(lines: Seq<Seq<char>>, line: Seq<char>, bg: Color, end: Seq<char>)
    ensures
        code_lines(lines.push(line), bg, end) == code_lines(lines, bg, end) + (color_escape(
            seq!['4', '8'],
            bg,
        ) + line + seq!['\u{1b}', '[', 'K'] + seq!['\u{1b}', '[', '0', 'm'] + end),
        code_lines(seq![], bg, end).len() == 0,
{
    reveal_strlit("48");
    reveal_strlit("\u{1b}[K");
    reveal_strlit("\u{1b}[0m");
    assert("48"@ =~= seq!['4', '8']);
    assert("\u{1b}[K"@ =~= seq!['\u{1b}', '[', 'K']);
    assert("\u{1b}[0m"@ =~= seq!['\u{1b}', '[', '0', 'm']);
    assert(lines.push(line).drop_last() =~= lines);
}

/// Code is colored where its language is known and can be colored; else it is shown as it is.
pub proof fn law_code_or_source(source: Seq<char>, lang: Seq<char>, bg: Color)
    ensures
        code_or_source(source, None, bg) == source,
        highlighted(source, lang, bg) is None ==> code_or_source(source, Some(lang), bg) == source,
        highlighted(source, lang, bg) matches Some(text) ==> code_or_source(source, Some(lang), bg)
            == text,
{
}

/// The width of a preview is what was asked for, if that is a number; else that of the terminal;
/// else 80 columns.
pub proof fn law_preview_width(n: nat, text: Seq<char>, cols: u16)
    ensures
        n <= usize::MAX ==> preview_width_for(Some(decimal(n)), Some(cols)) == n
            && preview_width_for(Some(decimal(n)), None) == n,
        parsed_number(text) is None ==> preview_width_for(Some(text), Some(cols)) == cols
            && preview_width_for(Some(text), None) == 80,
        preview_width_for(None, Some(cols)) == cols,
        preview_width_for(None, None) == 80,
{
    if n <= usize::MAX {
        lemma_parse_decimal(n);
    }
}

/// A preview that begins at a line leaves out those before it.
pub proof fn law_preview_begins(text: Seq<char>, n: usize)
    ensures
        lines_left_out(None) == 0,
        lines_left_out(Some(0)) == 0,
        n > 0 ==> lines_left_out(Some(n)) == n - 1,
        n <= lines_of(text).len() ==> lines_after(text, n as nat) == lines_of(text).skip(n as int),
        n > lines_of(text).len() ==> lines_after(text, n as nat).len() == 0,
        lines_after(text, 0) == lines_of(text),
{
    assert(lines_of(text).skip(0) =~= lines_of(text));
}

/// A preview shows the document with its code colored and its paragraphs joined, in the skin of the
/// theme.
pub proof fn law_preview(
    markdown: Seq<char>,
    theme: ThemeView,
    width: usize,
    colors: bool,
    line: usize,
)
    ensures
        ({
            let text = rendered(
                skin_for(theme),
                joined_paragraphs(blocks_highlighted(markdown, theme.bg)),
                width,
                colors,
            );
            &&& previewed(markdown, theme, width, colors, None) == ended_lines(lines_of(text))
            &&& 0 < line <= lines_of(text).len() ==> previewed(
                markdown,
                theme,
                width,
                colors,
                Some(line),
            ) == ended_lines(lines_of(text).skip(line - 1))
        }),
{
    let text = rendered(
        skin_for(theme),
        joined_paragraphs(blocks_highlighted(markdown, theme.bg)),
        width,
        colors,
    );
    law_preview_begins(text, line);
}

} // verus!
