//! Syntax highlighting: of source files, and of fenced code blocks in markdown.

use vstd::prelude::*;

use crate::ansi::{closes, law_plain_text_unchanged, plain, scanned, shown, Scan};
use crate::brightness::{is_light_bg, light};
use crate::code_blocks::{
    code_blocks_from, fence_closed, fence_lang, fence_opened, lemma_closing_fence_at, CodeView,
};
use crate::paths::{extension, extension_of, optional_string};
use crate::search::lowercased;
use crate::syntaxes::BUNDLED;
use crate::text::{
    begins, blank, chars_of, cut, end_as, ended_as, ended_lines, holds, is_blank, is_listed,
    ascii_lowered, is_text, joined_lines, law_trimmed, leading_run, repeated, lemma_end_added, lemma_ended_rejoined,
    lemma_ended_sum, lemma_joined_is_ended, lemma_last_line, lemma_lines_of_ended,
    lemma_lines_of_unended, lemma_lines_rejoined, lemma_lines_whole, lemma_lines_without,
    lemma_occurrence_from, lemma_position, lemma_run_length, lemma_trimmed_end_prefix, lines_of,
    listed, occurs_at, one_line, position, push_chars, push_lines, push_str, run_length,
    split_lines, starts_with, string_of, texts, trim, trim_start, trimmed, trimmed_start, views,
    white_space, without_cr,
};
use crate::theme::Color;

verus! {

// ---------------------------------------------------------------- file types

/// Markdown file extensions.
pub const MARKDOWN_EXTS: [&'static str; 5] = ["md", "markdown", "mdown", "mkd", "mdx"];

/// Whether a path has one of the extensions of a table.
pub open spec fn has_extension_in(path: Seq<char>, table: Seq<&'static str>) -> bool {
    extension(path) matches Some(ext) && listed(table, ext)
}

/// Return `true` if `path` looks like a Markdown file based on its extension.
pub fn is_markdown_path(path: &str) -> (r: bool)
    ensures
        r == has_extension_in(path@, MARKDOWN_EXTS@),
{
    match extension_of(&chars_of(path)) {
        Some(ext) => is_listed(MARKDOWN_EXTS.as_slice(), &ext),
        None => false,
    }
}

/// Extensions for config/data files that should always open in an external editor from the
/// picker, even when the highlighter doesn't recognize them.
pub const EDITOR_PREFERRED_EXTS: [&'static str; 15] = [
    "toml",
    "yaml",
    "yml",
    "json",
    "jsonc",
    "json5",
    "xml",
    "svg",
    "ini",
    "cfg",
    "conf",
    "env",
    "properties",
    "csv",
    "tsv",
];

// ---------------------------------------------------------------- the highlighter

/// The contents of syntax definitions.
pub open spec fn contents(definitions: Seq<&'static str>) -> Seq<Seq<char>> {
    definitions.map_values(|d: &'static str| d@)
}

/// Whether the highlighter's own syntaxes have one for a file extension.
pub uninterp spec fn default_extension(ext: Seq<char>) -> bool;

/// `syntect::parsing::SyntaxSet::find_syntax_by_extension` on the syntaxes that come with
/// syntect: whether one of them is for a file extension.
#[verifier::external_body]
fn known_by_default(ext: &str) -> (known: bool)
    ensures
        known == default_extension(ext@),
{
    syntect::parsing::SyntaxSet::load_defaults_newlines().find_syntax_by_extension(ext).is_some()
}

/// Whether the highlighter's own syntaxes have one that goes by a token.
pub uninterp spec fn default_token(token: Seq<char>) -> bool;

/// `syntect::parsing::SyntaxSet::find_syntax_by_token` on the syntaxes that come with syntect:
/// whether a token is the extension or the name of one of them.
#[verifier::external_body]
fn named_by_default(token: &str) -> (known: bool)
    ensures
        known == default_token(token@),
        default_extension(token@) ==> known,
{
    syntect::parsing::SyntaxSet::load_defaults_newlines().find_syntax_by_token(token).is_some()
}

/// Whether syntax definitions have one for a file extension.
pub uninterp spec fn defined_extension(definitions: Seq<Seq<char>>, ext: Seq<char>) -> bool;

/// `syntect::parsing::SyntaxSet::find_syntax_by_extension` on syntax definitions: whether one of
/// them is for a file extension. One that cannot be read is passed over. There are definitions that
/// the reader fails on, so it is given those of this library alone.
#[verifier::external_body]
fn known_in(definitions: &[&'static str], ext: &str) -> (known: bool)
    requires
        definitions@ == BUNDLED@,
    ensures
        known == defined_extension(contents(definitions@), ext@),
{
    let mut builder = syntect::parsing::SyntaxSetBuilder::new();
    for d in definitions {
        if let Ok(s) = syntect::parsing::SyntaxDefinition::load_from_str(d, true, Some("syntaxes")) {
            builder.add(s);
        }
    }
    builder.build().find_syntax_by_extension(ext).is_some()
}

/// Whether syntax definitions have one that goes by a token.
pub uninterp spec fn defined_token(definitions: Seq<Seq<char>>, token: Seq<char>) -> bool;

/// `syntect::parsing::SyntaxSet::find_syntax_by_token` on syntax definitions: whether a token is
/// the extension or the name of one of them. One that cannot be read is passed over. As for
/// [`known_in`], the definitions are those of this library.
#[verifier::external_body]
fn named_in(definitions: &[&'static str], token: &str) -> (known: bool)
    requires
        definitions@ == BUNDLED@,
    ensures
        known == defined_token(contents(definitions@), token@),
        defined_extension(contents(definitions@), token@) ==> known,
{
    let mut builder = syntect::parsing::SyntaxSetBuilder::new();
    for d in definitions {
        if let Ok(s) = syntect::parsing::SyntaxDefinition::load_from_str(d, true, Some("syntaxes")) {
            builder.add(s);
        }
    }
    builder.build().find_syntax_by_token(token).is_some()
}

/// Whether colored lines are those of a source, one for each.
pub open spec fn colors_of(lines: Seq<Seq<char>>, colored: Seq<Seq<char>>) -> bool {
    &&& colored.len() == lines.len()
    &&& forall|i: int| 0 <= i < lines.len() ==> line_colored(lines[i], #[trigger] colored[i])
}

/// The beginning of a sequence that sets a background color.
pub const BACKGROUND: &'static str = "\u{1b}[48;";

/// Whether a colored line is that of a source's line: it is no shorter, and has no line end and
/// no carriage return that the source's line has not; where the source's line has no escape
/// character, it shows the same text, its escape sequences end within it, and none of them sets a
/// background color.
pub open spec fn line_colored(line: Seq<char>, colored: Seq<char>) -> bool {
    &&& colored.len() >= line.len()
    &&& colored.contains('\n') ==> line.contains('\n')
    &&& colored.contains('\r') ==> line.contains('\r')
    &&& !line.contains('\u{1b}') ==> plain(colored) == line && closes(colored, Scan::Text)
        && !holds(colored, BACKGROUND@)
}

/// The lines of a source with escape sequences for the colors of its tokens, by the highlighter's
/// own syntaxes.
pub uninterp spec fn default_colors(
    token: Seq<char>,
    theme: Seq<char>,
    lines: Seq<Seq<char>>,
) -> Option<Seq<Seq<char>>>;

/// What optional lines stand for.
pub open spec fn optional_lines(lines: Option<Vec<String>>) -> Option<Seq<Seq<char>>> {
    match lines {
        Some(l) => Some(texts(l@)),
        None => None,
    }
}

/// `syntect::easy::HighlightLines::highlight_line` and
/// `syntect::util::as_24_bit_terminal_escaped`, line after line, by the syntax that comes with
/// syntect and goes by a token, in a theme that comes with it; `None` where there is no such
/// syntax or theme, or where the highlighter fails. The tokens of a line put together are the
/// line; each has a sequence for its foreground color, from an escape character to the letter `m`,
/// before it.
#[verifier::external_body]
fn color_by_default(token: &str, theme: &str, lines: &Vec<String>) -> (colored: Option<Vec<String>>)
    ensures
        optional_lines(colored) == default_colors(token@, theme@, texts(lines@)),
        !default_token(token@) ==> colored is None,
        colored matches Some(c) ==> colors_of(texts(lines@), texts(c@)),
{
    let set = syntect::parsing::SyntaxSet::load_defaults_newlines();
    let themes = syntect::highlighting::ThemeSet::load_defaults();
    let syntax = set.find_syntax_by_token(token)?;
    let mut h = syntect::easy::HighlightLines::new(syntax, themes.themes.get(theme)?);
    let mut colored = Vec::new();
    for line in lines {
        let tokens = h.highlight_line(line, &set).ok()?;
        colored.push(syntect::util::as_24_bit_terminal_escaped(&tokens[..], false));
    }
    Some(colored)
}

/// The lines of a source with escape sequences for the colors of its tokens, by syntax
/// definitions.
pub uninterp spec fn defined_colors(
    definitions: Seq<Seq<char>>,
    token: Seq<char>,
    theme: Seq<char>,
    lines: Seq<Seq<char>>,
) -> Option<Seq<Seq<char>>>;

/// `syntect::easy::HighlightLines::highlight_line` and
/// `syntect::util::as_24_bit_terminal_escaped`, line after line, by the one of the syntax
/// definitions that goes by a token, in a theme that comes with syntect; `None` where there is no
/// such syntax or theme, or where the highlighter fails. The lines are as those of
/// [`color_by_default`]. As for [`known_in`], the definitions are those of this library.
#[verifier::external_body]
fn color_by(
    definitions: &[&'static str],
    token: &str,
    theme: &str,
    lines: &Vec<String>,
) -> (colored: Option<Vec<String>>)
    requires
        definitions@ == BUNDLED@,
    ensures
        optional_lines(colored) == defined_colors(
            contents(definitions@),
            token@,
            theme@,
            texts(lines@),
        ),
        !defined_token(contents(definitions@), token@) ==> colored is None,
        colored matches Some(c) ==> colors_of(texts(lines@), texts(c@)),
{
    let mut builder = syntect::parsing::SyntaxSetBuilder::new();
    for d in definitions {
        if let Ok(s) = syntect::parsing::SyntaxDefinition::load_from_str(d, true, Some("syntaxes")) {
            builder.add(s);
        }
    }
    let set = builder.build();
    let themes = syntect::highlighting::ThemeSet::load_defaults();
    let syntax = set.find_syntax_by_token(token)?;
    let mut h = syntect::easy::HighlightLines::new(syntax, themes.themes.get(theme)?);
    let color = |line: &String| {
        h.highlight_line(line, &set).map(|t| syntect::util::as_24_bit_terminal_escaped(&t, false))
    };
    lines.iter().map(color).collect::<Result<_, _>>().ok()
}

/// Whether a file extension is known to the highlighter or to the syntaxes that come with the
/// viewer.
pub open spec fn known_extension(ext: Seq<char>) -> bool {
    default_extension(ext) || defined_extension(contents(BUNDLED@), ext)
}

/// Derive a language tag from a file path's extension.
///
/// Returns `Some("rs")` for `foo.rs`, `None` for files without an extension or whose extension
/// isn't recognized by the highlighter. Checks both its own syntaxes and the bundled ones (e.g.
/// Zig). The returned tag is suitable for use with [`highlight_code`].
pub fn lang_for_path(path: &str) -> (lang: Option<String>)
    ensures
        optional_string(lang) == lang_of(path@),
{
    match extension_of(&chars_of(path)) {
        None => None,
        Some(ext) => {
            let ext = string_of(&ext);
            if !known_by_default(ext.as_str()) && !known_in(BUNDLED.as_slice(), ext.as_str()) {
                None
            } else {
                Some(ext.as_str().to_lowercase())
            }
        },
    }
}

/// The language tag for a path: its extension in small letters, where that is known.
pub open spec fn lang_of(path: Seq<char>) -> Option<Seq<char>> {
    match extension(path) {
        Some(ext) => if known_extension(ext) {
            Some(lowercased(ext))
        } else {
            None
        },
        None => None,
    }
}

/// Return `true` if `path` has an extension that should be opened in an external editor from the
/// picker.
///
/// This catches config/data formats (TOML, YAML, JSON, XML, SVG, etc.) that the highlighter may
/// not recognize, plus any extension that it *does* recognize (i.e. [`lang_for_path`] returns
/// `Some`).
pub fn is_editor_preferred(path: &str) -> (r: bool)
    ensures
        r == (has_extension_in(path@, EDITOR_PREFERRED_EXTS@) || lang_of(path@) is Some),
{
    match extension_of(&chars_of(path)) {
        None => false,
        Some(ext) => is_listed(EDITOR_PREFERRED_EXTS.as_slice(), &ext) || lang_for_path(
            path,
        ).is_some(),
    }
}

// ---------------------------------------------------------------- highlighting source

/// Which syntaxes a language is found among.
#[derive(Debug, Clone, Copy, PartialEq, Eq, Structural)]
pub enum SyntaxSource {
    /// Those that come with the highlighter.
    Default,
    /// Those that come with the viewer.
    Bundled,
}

/// Where a language is found, by its name or an extension: among the highlighter's own syntaxes
/// before the bundled ones.
pub open spec fn syntax_source(lang: Seq<char>) -> Option<SyntaxSource> {
    if default_token(lang) {
        Some(SyntaxSource::Default)
    } else if defined_token(contents(BUNDLED@), lang) {
        Some(SyntaxSource::Bundled)
    } else {
        None
    }
}

/// Look up a syntax by token name or extension across both syntax sets.
pub fn find_syntax(lang: &str) -> (source: Option<SyntaxSource>)
    ensures
        source == syntax_source(lang@),
{
    if named_by_default(lang) {
        Some(SyntaxSource::Default)
    } else if named_in(BUNDLED.as_slice(), lang) {
        Some(SyntaxSource::Bundled)
    } else {
        None
    }
}

/// The highlighter's theme that complements a background.
pub open spec fn palette_name(bg: Color) -> Seq<char> {
    if light(bg) {
        "InspiredGitHub"@
    } else {
        "base16-ocean.dark"@
    }
}

/// Pick a highlighting theme that complements the viewer theme's background.
pub fn syntect_theme_name(bg: Color) -> (name: &'static str)
    ensures
        name@ == palette_name(bg),
{
    if is_light_bg(bg) {
        "InspiredGitHub"
    } else {
        "base16-ocean.dark"
    }
}

/// The lines of a source in color; `None` for a language that is not recognized.
pub open spec fn colors(lines: Seq<Seq<char>>, lang: Seq<char>, bg: Color) -> Option<
    Seq<Seq<char>>,
> {
    match syntax_source(lang) {
        Some(SyntaxSource::Default) => default_colors(lang, palette_name(bg), lines),
        Some(SyntaxSource::Bundled) => defined_colors(
            contents(BUNDLED@),
            lang,
            palette_name(bg),
            lines,
        ),
        None => None,
    }
}

/// Colored lines put together, with a line end at the end where the source has one.
pub open spec fn colored_text(source: Seq<char>, colored: Option<Seq<Seq<char>>>) -> Option<
    Seq<char>,
> {
    match colored {
        Some(lines) => Some(ended_as(ended_lines(lines), source)),
        None => None,
    }
}

/// A source in color.
pub open spec fn highlighted(source: Seq<char>, lang: Seq<char>, bg: Color) -> Option<Seq<char>> {
    colored_text(source, colors(lines_of(source), lang, bg))
}

/// The colored lines of a source, put together; none where there are none.
pub fn join_colored(source: &str, colored: &Option<Vec<String>>) -> (text: Option<String>)
    ensures
        optional_string(text) == colored_text(source@, optional_lines(*colored)),
{
    match colored {
        None => None,
        Some(lines) => {
            let mut out: Vec<char> = Vec::new();
            push_strings(&mut out, lines);
            assert(out@ =~= ended_lines(texts(lines@)));
            end_as(&mut out, &chars_of(source));
            Some(string_of(&out))
        },
    }
}

fn strings_of(lines: &Vec<Vec<char>>, from: usize, to: usize) -> (strings: Vec<String>)
    requires
        from <= to <= lines@.len(),
    ensures
        texts(strings@) == views(lines@).subrange(from as int, to as int),
{
    let ghost all = views(lines@);
    let mut strings: Vec<String> = Vec::new();
    let mut i: usize = from;
    while i < to
        invariant
            from <= i <= to <= lines@.len(),
            all == views(lines@),
            texts(strings@) =~= all.subrange(from as int, i as int),
        decreases to - i,
    {
        let ghost before = texts(strings@);
        strings.push(string_of(&lines[i]));
        assert(texts(strings@) =~= before.push(all[i as int]));
        i += 1;
    }
    strings
}

fn source_lines(source: &str) -> (lines: Vec<String>)
    ensures
        texts(lines@) == lines_of(source@),
{
    let chars = split_lines(&chars_of(source));
    assert(views(chars@).subrange(0, chars@.len() as int) =~= views(chars@));
    strings_of(&chars, 0, chars.len())
}

/// Color the lines of a source; `None` if the language is not recognized by the highlighter.
fn color_lines(lines: &Vec<String>, lang: &str, bg: Color) -> (colored: Option<Vec<String>>)
    ensures
        optional_lines(colored) == colors(texts(lines@), lang@, bg),
        syntax_source(lang@) is None ==> colored is None,
        colored matches Some(c) ==> colors_of(texts(lines@), texts(c@)),
{
    let theme = syntect_theme_name(bg);
    match find_syntax(lang) {
        Some(SyntaxSource::Default) => color_by_default(lang, theme, lines),
        Some(SyntaxSource::Bundled) => color_by(BUNDLED.as_slice(), lang, theme, lines),
        None => None,
    }
}

/// Highlight a code block.
///
/// Returns the highlighted source as a string with ANSI foreground escape sequences (no
/// background), or `None` if the language is not recognized by the highlighter. Searches both
/// default and bundled syntaxes. `bg` selects a dark or light palette.
pub fn highlight_code(source: &str, lang: &str, bg: Color) -> (text: Option<String>)
    ensures
        optional_string(text) == highlighted(source@, lang@, bg),
        syntax_source(lang@) is None ==> text is None,
        colors(lines_of(source@), lang@, bg) matches Some(colored) ==> colors_of(
            lines_of(source@),
            colored,
        ),
        !source@.contains('\u{1b}') ==> (text matches Some(t) ==> !holds(t@, BACKGROUND@)),
{
    let lines = source_lines(source);
    let colored = color_lines(&lines, lang, bg);
    proof {
        if !source@.contains('\u{1b}') && colored is Some {
            law_no_background(source@, texts(colored->0@));
        }
    }
    join_colored(source, &colored)
}

/// A text with a line end at its end.
pub open spec fn with_last_end(s: Seq<char>) -> Seq<char> {
    if s.len() > 0 && s.last() == '\n' {
        s
    } else {
        s.push('\n')
    }
}

/// A source in a fenced block with a language tag.
pub open spec fn fenced(source: Seq<char>, lang: Seq<char>) -> Seq<char> {
    "```"@ + lang + "\n"@ + with_last_end(source) + "```\n"@
}

/// Wrap raw source code in a Markdown fenced code block.
pub fn wrap_in_code_fence(source: &str, lang: &str) -> (s: String)
    ensures
        s@ == fenced(source@, lang@),
{
    let chars = chars_of(source);
    let mut out: Vec<char> = Vec::new();
    push_str(&mut out, "```");
    push_str(&mut out, lang);
    push_str(&mut out, "\n");
    push_chars(&mut out, &chars);
    if !(chars.len() > 0 && chars[chars.len() - 1] == '\n') {
        out.push('\n');
    }
    push_str(&mut out, "```\n");
    assert(out@ =~= fenced(source@, lang@));
    string_of(&out)
}

// ---------------------------------------------------------------- fenced blocks

/// The language tag behind a fence of backticks or tildes, in small letters; none where the line
/// begins with no fence or nothing but white space follows it.
pub open spec fn fence_tag(trimmed_line: Seq<char>) -> Option<Seq<char>> {
    if begins(trimmed_line, "```"@) || begins(trimmed_line, "~~~"@) {
        let tag = trimmed(trimmed_line.skip(3));
        if tag.len() == 0 {
            None
        } else {
            Some(lowercased(tag))
        }
    } else {
        None
    }
}

/// Extract the language tag from a code fence opening line.
///
/// Returns `Some("rust")` for `` ```rust ``, `None` for bare `` ``` ``.
pub fn extract_fence_lang(trimmed: &str) -> (lang: Option<String>)
    ensures
        optional_string(lang) == fence_tag(trimmed@),
{
    let line = chars_of(trimmed);
    proof {
        reveal_strlit("```");
        reveal_strlit("~~~");
    }
    if starts_with(&line, "```") || starts_with(&line, "~~~") {
        let rest = cut(&line, 3, line.len());
        assert(rest@ =~= line@.skip(3));
        let tag = trim(&rest);
        if tag.len() == 0 {
            None
        } else {
            Some(string_of(&tag).as_str().to_lowercase())
        }
    } else {
        None
    }
}

/// Whether a line closes a block: at least three of the fence's character, and nothing but white
/// space behind them.
pub open spec fn closes_fence(trimmed_line: Seq<char>, fence_char: char) -> bool {
    let n = run_length(trimmed_line, fence_char);
    n >= 3 && blank(trimmed_line.skip(n as int))
}

/// Check if a trimmed line is a closing code fence (triple backticks or tildes with no lang tag).
pub fn is_closing_fence(trimmed: &str, fence_char: char) -> (r: bool)
    ensures
        r == closes_fence(trimmed@, fence_char),
{
    is_closing(&chars_of(trimmed), fence_char)
}

fn is_closing(line: &Vec<char>, fence_char: char) -> (r: bool)
    ensures
        r == closes_fence(line@, fence_char),
{
    let n: usize = leading_run(line, fence_char);
    proof {
        lemma_run_length(line@, fence_char);
    }
    if n < 3 {
        return false;
    }
    let rest = cut(line, n, line.len());
    assert(rest@ =~= line@.skip(n as int));
    is_blank(&rest)
}

/// A fenced code block that is to be highlighted.
#[derive(Debug, Clone)]
pub struct FencedBlock {
    /// The language tag, in small letters.
    pub lang: String,
    /// The lines of code between the fences.
    pub code: Vec<String>,
    /// The line of the opening fence.
    pub open: usize,
    /// The line of the closing fence.
    pub close: usize,
}

/// What a [`FencedBlock`] stands for.
pub struct FencedView {
    pub lang: Seq<char>,
    pub code: Seq<Seq<char>>,
    pub open: int,
    pub close: int,
}

impl View for FencedBlock {
    type V = FencedView;

    open spec fn view(&self) -> FencedView {
        FencedView {
            lang: self.lang@,
            code: texts(self.code@),
            open: self.open as int,
            close: self.close as int,
        }
    }
}

/// What a list of blocks stands for.
pub open spec fn fenced_views(blocks: Seq<FencedBlock>) -> Seq<FencedView> {
    blocks.map_values(|b: FencedBlock| b@)
}

/// The first line at or after `from` that closes a block; the number of lines if none does.
pub open spec fn close_from(lines: Seq<Seq<char>>, from: int, fence_char: char) -> int
    decreases lines.len() - from,
{
    if from >= lines.len() {
        lines.len() as int
    } else if closes_fence(trimmed_start(lines[from]), fence_char) {
        from
    } else {
        close_from(lines, from + 1, fence_char)
    }
}

/// The character of the fence that a line opens a block with.
pub open spec fn fence_char_of(line: Seq<char>) -> char {
    if trimmed_start(line).len() > 0 && trimmed_start(line)[0] == '`' {
        '`'
    } else {
        '~'
    }
}

/// The block that a line opens: one with a language tag other than `mermaid`, and a closing
/// fence.
pub open spec fn block_at(lines: Seq<Seq<char>>, i: int) -> Option<FencedView> {
    let close = close_from(lines, i + 1, fence_char_of(lines[i]));
    match fence_tag(trimmed_start(lines[i])) {
        Some(lang) => if lang != "mermaid"@ && close < lines.len() {
            Some(
                FencedView {
                    lang,
                    code: lines.subrange(i + 1, close),
                    open: i,
                    close,
                },
            )
        } else {
            None
        },
        None => None,
    }
}

/// The blocks from a line on.
pub open spec fn blocks_from(lines: Seq<Seq<char>>, i: int) -> Seq<FencedView>
    decreases lines.len() - i,
    via blocks_from_decreases
{
    if i >= lines.len() {
        seq![]
    } else {
        match block_at(lines, i) {
            Some(block) => seq![block] + blocks_from(lines, block.close + 1),
            None => blocks_from(lines, i + 1),
        }
    }
}

#[via_fn]
proof fn blocks_from_decreases(lines: Seq<Seq<char>>, i: int) {
    if i < lines.len() {
        lemma_close_from(lines, i + 1, fence_char_of(lines[i]));
    }
}

proof fn lemma_close_from(lines: Seq<Seq<char>>, from: int, fence_char: char)
    ensures
        from <= lines.len() ==> from <= close_from(lines, from, fence_char) <= lines.len(),
    decreases lines.len() - from,
{
    if from < lines.len() {
        lemma_close_from(lines, from + 1, fence_char);
    }
}

fn find_close(lines: &Vec<Vec<char>>, from: usize, fence_char: char) -> (n: usize)
    requires
        from <= lines@.len(),
    ensures
        n == close_from(views(lines@), from as int, fence_char),
        from <= n <= lines@.len(),
{
    let ghost all = views(lines@);
    let mut i: usize = from;
    while i < lines.len()
        invariant
            from <= i <= lines@.len(),
            all == views(lines@),
            close_from(all, i as int, fence_char) == close_from(all, from as int, fence_char),
        decreases lines@.len() - i,
    {
        assert(all[i as int] == lines@[i as int]@);
        if is_closing(&trim_start(&lines[i]), fence_char) {
            return i;
        }
        i += 1;
    }
    i
}

fn find_block(lines: &Vec<Vec<char>>, i: usize) -> (block: Option<FencedBlock>)
    requires
        i < lines@.len(),
    ensures
        match block {
            Some(b) => block_at(views(lines@), i as int) == Some(b@) && i < b.close < lines@.len(),
            None => block_at(views(lines@), i as int) is None,
        },
{
    let ghost all = views(lines@);
    assert(all[i as int] == lines@[i as int]@);
    let total: usize = lines.len();
    let line = trim_start(&lines[i]);
    match extract_fence_lang(string_of(&line).as_str()) {
        None => None,
        Some(lang) => {
            if is_text(&chars_of(lang.as_str()), "mermaid") {
                return None;
            }
            let fence_char = if line.len() > 0 && line[0] == '`' {
                '`'
            } else {
                '~'
            };
            let close: usize = find_close(lines, i + 1, fence_char);
            if close >= total {
                return None;
            }
            Some(FencedBlock { lang, code: strings_of(lines, i + 1, close), open: i, close })
        },
    }
}

fn collect_blocks(lines: &Vec<Vec<char>>) -> (blocks: Vec<FencedBlock>)
    ensures
        fenced_views(blocks@) == blocks_from(views(lines@), 0),
{
    let ghost all = views(lines@);
    let mut blocks: Vec<FencedBlock> = Vec::new();
    let mut i: usize = 0;
    assert(fenced_views(blocks@) + blocks_from(all, 0) =~= blocks_from(all, 0));
    while i < lines.len()
        invariant
            i <= lines@.len(),
            all == views(lines@),
            fenced_views(blocks@) + blocks_from(all, i as int) == blocks_from(all, 0),
        decreases lines@.len() - i,
    {
        let ghost before = fenced_views(blocks@);
        match find_block(lines, i) {
            Some(block) => {
                let ghost view = block@;
                i = block.close + 1;
                blocks.push(block);
                assert(fenced_views(blocks@) =~= before.push(view));
                assert(before.push(view) + blocks_from(all, i as int) =~= before + (seq![view]
                    + blocks_from(all, i as int)));
            },
            None => {
                i += 1;
            },
        }
    }
    assert(fenced_views(blocks@) + blocks_from(all, i as int) =~= fenced_views(blocks@));
    blocks
}

/// The fenced blocks of a markdown text that are to be highlighted: those with a language tag
/// other than `mermaid`, and a closing fence.
pub fn fenced_blocks(markdown: &str) -> (blocks: Vec<FencedBlock>)
    ensures
        fenced_views(blocks@) == blocks_from(lines_of(markdown@), 0),
{
    collect_blocks(&split_lines(&chars_of(markdown)))
}

/// What becomes of a block's code: its lines in color, or as they are.
pub open spec fn code_rewritten(
    lines: Seq<Seq<char>>,
    block: FencedView,
    result: Option<Seq<Seq<char>>>,
) -> Seq<char> {
    match result {
        Some(colored) => ended_lines(colored),
        None => ended_lines(lines.subrange(block.open + 1, block.close)),
    }
}

/// The lines from `i` on, the blocks being rewritten with `results` from the `k`th on. The fences
/// and everything outside the blocks stay.
pub open spec fn rewritten(
    lines: Seq<Seq<char>>,
    results: Seq<Option<Seq<Seq<char>>>>,
    i: int,
    k: int,
) -> Seq<char>
    decreases lines.len() - i,
    via rewritten_decreases
{
    if i >= lines.len() {
        seq![]
    } else {
        match block_at(lines, i) {
            Some(block) => lines[i].push('\n') + code_rewritten(lines, block, results[k])
                + lines[block.close].push('\n') + rewritten(
                lines,
                results,
                block.close + 1,
                k + 1,
            ),
            None => lines[i].push('\n') + rewritten(lines, results, i + 1, k),
        }
    }
}

#[via_fn]
proof fn rewritten_decreases(
    lines: Seq<Seq<char>>,
    results: Seq<Option<Seq<Seq<char>>>>,
    i: int,
    k: int,
) {
    if i < lines.len() {
        lemma_close_from(lines, i + 1, fence_char_of(lines[i]));
    }
}

/// What a list of optional lines stands for.
pub open spec fn all_optional_lines(results: Seq<Option<Vec<String>>>) -> Seq<
    Option<Seq<Seq<char>>>,
> {
    results.map_values(|r: Option<Vec<String>>| optional_lines(r))
}

fn push_strings(out: &mut Vec<char>, strings: &Vec<String>)
    ensures
        final(out)@ == old(out)@ + ended_lines(texts(strings@)),
{
    let ghost before = out@;
    let ghost all = texts(strings@);
    let mut i: usize = 0;
    assert(all.take(0) =~= seq![]);
    assert(out@ =~= before + ended_lines(all.take(0)));
    while i < strings.len()
        invariant
            i <= strings@.len(),
            all == texts(strings@),
            out@ == before + ended_lines(all.take(i as int)),
        decreases strings@.len() - i,
    {
        let ghost sofar = out@;
        assert(all.take(i + 1).drop_last() =~= all.take(i as int));
        assert(all.take(i + 1).last() == strings@[i as int]@);
        push_str(out, strings[i].as_str());
        out.push('\n');
        assert(out@ =~= sofar + strings@[i as int]@.push('\n'));
        assert(out@ =~= before + ended_lines(all.take(i + 1)));
        i += 1;
    }
    assert(all.take(i as int) =~= all);
}

fn push_code(
    out: &mut Vec<char>,
    lines: &Vec<Vec<char>>,
    block: &FencedBlock,
    result: &Option<Vec<String>>,
)
    requires
        block.open < block.close < lines@.len(),
    ensures
        final(out)@ == old(out)@ + code_rewritten(views(lines@), block@, optional_lines(*result)),
{
    match result {
        Some(colored) => {
            push_strings(out, colored);
        },
        None => {
            push_lines(out, lines, block.open + 1, block.close);
        },
    }
}

fn push_line(out: &mut Vec<char>, lines: &Vec<Vec<char>>, i: usize)
    requires
        i < lines@.len(),
    ensures
        final(out)@ == old(out)@ + lines@[i as int]@.push('\n'),
{
    let ghost before = out@;
    push_chars(out, &lines[i]);
    out.push('\n');
    assert(out@ =~= before + lines@[i as int]@.push('\n'));
}

/// Replace the contents of the fenced blocks of a markdown text, in order, by what highlighting
/// each gave; a block for which there is none stays as it is.
pub fn replace_blocks(markdown: &str, results: &Vec<Option<Vec<String>>>) -> (s: String)
    requires
        results@.len() == blocks_from(lines_of(markdown@), 0).len(),
    ensures
        s@ == ended_as(
            rewritten(lines_of(markdown@), all_optional_lines(results@), 0, 0),
            markdown@,
        ),
{
    let chars = chars_of(markdown);
    let lines = split_lines(&chars);
    let ghost all = lines_of(markdown@);
    let ghost given = all_optional_lines(results@);
    let count: usize = results.len();
    let mut out: Vec<char> = Vec::new();
    let mut i: usize = 0;
    let mut k: usize = 0;
    assert(out@ + rewritten(all, given, 0, 0) =~= rewritten(all, given, 0, 0));
    while i < lines.len()
        invariant
            i <= lines@.len(),
            all == views(lines@),
            given == all_optional_lines(results@),
            count == results@.len(),
            k + blocks_from(all, i as int).len() == results@.len(),
            out@ + rewritten(all, given, i as int, k as int) == rewritten(all, given, 0, 0),
        decreases lines@.len() - i,
    {
        let ghost before = out@;
        let ghost rest_was = rewritten(all, given, i as int, k as int);
        assert(all[i as int] == lines@[i as int]@);
        match find_block(&lines, i) {
            Some(block) => {
                assert(block@.open == i);
                assert(k < count);
                assert(given[k as int] == optional_lines(results@[k as int]));
                push_line(&mut out, &lines, i);
                push_code(&mut out, &lines, &block, &results[k]);
                push_line(&mut out, &lines, block.close);
                assert(all[block.close as int] == lines@[block.close as int]@);
                i = block.close + 1;
                k += 1;
                assert(out@ + rewritten(all, given, i as int, k as int) =~= before + rest_was);
            },
            None => {
                push_line(&mut out, &lines, i);
                i += 1;
                assert(out@ + rewritten(all, given, i as int, k as int) =~= before + rest_was);
            },
        }
    }
    assert(out@ + rewritten(all, given, i as int, k as int) =~= out@);
    end_as(&mut out, &chars);
    string_of(&out)
}

/// The lines of each block in color.
pub open spec fn block_colors(blocks: Seq<FencedView>, bg: Color) -> Seq<Option<Seq<Seq<char>>>> {
    blocks.map_values(|b: FencedView| colors(b.code, b.lang, bg))
}

/// A markdown text with its fenced blocks in color.
pub open spec fn blocks_highlighted(markdown: Seq<char>, bg: Color) -> Seq<char> {
    let lines = lines_of(markdown);
    ended_as(rewritten(lines, block_colors(blocks_from(lines, 0), bg), 0, 0), markdown)
}

/// Replace fenced code block contents with syntax-highlighted ANSI text.
///
/// Keeps the code fences intact so downstream processing handles structure correctly. Only
/// replaces content for blocks with recognized language tags. Blocks tagged `mermaid` are skipped
/// (handled separately). Every line stays where it is.
///
/// `bg` is the theme's background color, used to select a dark or light highlighting palette.
pub fn highlight_code_blocks(markdown: &str, bg: Color) -> (s: String)
    ensures
        s@ == blocks_highlighted(markdown@, bg),
        well_colored(blocks_from(lines_of(markdown@), 0), bg),
        lines_of(s@).len() == lines_of(markdown@).len(),
        (s@.len() > 0 && s@.last() == '\n') == (markdown@.len() > 0 && markdown@.last() == '\n'),
{
    let blocks = fenced_blocks(markdown);
    let ghost all = blocks_from(lines_of(markdown@), 0);
    let mut results: Vec<Option<Vec<String>>> = Vec::new();
    let mut i: usize = 0;
    while i < blocks.len()
        invariant
            i <= blocks@.len(),
            all == fenced_views(blocks@),
            all_optional_lines(results@) =~= block_colors(all, bg).take(i as int),
            well_colored(all.take(i as int), bg),
        decreases blocks@.len() - i,
    {
        let block = &blocks[i];
        let ghost before = all_optional_lines(results@);
        let colored = color_lines(&block.code, block.lang.as_str(), bg);
        let ghost view = optional_lines(colored);
        results.push(colored);
        assert(all_optional_lines(results@) =~= before.push(view));
        assert(all[i as int] == block@);
        assert(well_colored(all.take(i + 1), bg)) by {
            assert forall|k: int| 0 <= k < i + 1 implies block_well_colored(
                #[trigger] all.take(i + 1)[k],
                bg,
            ) by {
                if k < i {
                    assert(all.take(i + 1)[k] == all.take(i as int)[k]);
                }
            }
        }
        i += 1;
    }
    assert(block_colors(all, bg).take(i as int) =~= block_colors(all, bg));
    assert(all.take(i as int) =~= all);
    proof {
        law_line_count_kept(markdown@, bg);
    }
    replace_blocks(markdown, &results)
}

/// Whether the highlighter, where it knows a block's language, colors the block's lines and
/// changes nothing else.
pub open spec fn block_well_colored(block: FencedView, bg: Color) -> bool {
    colors(block.code, block.lang, bg) matches Some(colored) ==> colors_of(block.code, colored)
}

/// Whether the highlighter colors the lines of blocks and changes nothing else.
pub open spec fn well_colored(blocks: Seq<FencedView>, bg: Color) -> bool {
    forall|i: int| 0 <= i < blocks.len() ==> block_well_colored(#[trigger] blocks[i], bg)
}

// ---------------------------------------------------------------- laws

proof fn lemma_shown_sum(a: Seq<char>, b: Seq<char>, at: Scan)
    requires
        closes(a, at),
    ensures
        shown(a + b, at) == shown(a, at) + shown(b, Scan::Text),
    decreases a.len(),
{
    let all = a + b;
    if a.len() == 0 {
        assert(all =~= b);
        assert(shown(a, at) + shown(b, Scan::Text) =~= shown(b, Scan::Text));
    } else {
        assert(all.skip(1) =~= a.skip(1) + b);
        lemma_shown_sum(a.skip(1), b, scanned(at, a[0]));
        if at == Scan::Text && a[0] != '\u{1b}' {
            assert(shown(all, at) =~= seq![a[0]] + shown(a.skip(1), at) + shown(b, Scan::Text));
        }
    }
}

proof fn lemma_closes_sum(a: Seq<char>, b: Seq<char>, at: Scan)
    requires
        closes(a, at),
        closes(b, Scan::Text),
    ensures
        closes(a + b, at),
    decreases a.len(),
{
    let all = a + b;
    if a.len() == 0 {
        assert(all =~= b);
    } else {
        assert(all.skip(1) =~= a.skip(1) + b);
        lemma_closes_sum(a.skip(1), b, scanned(at, a[0]));
    }
}

/// Whether every one of some lines shows the text of another, its escape sequences ending within
/// it.
spec fn show(colored: Seq<Seq<char>>, lines: Seq<Seq<char>>) -> bool {
    &&& colored.len() == lines.len()
    &&& forall|i: int|
        0 <= i < lines.len() ==> plain(#[trigger] colored[i]) == lines[i] && closes(
            colored[i],
            Scan::Text,
        )
}

proof fn lemma_line_end_shown()
    ensures
        shown(seq!['\n'], Scan::Text) == seq!['\n'],
        closes(seq!['\n'], Scan::Text),
{
    assert(seq!['\n'].skip(1) =~= seq![]);
    assert(seq!['\n'] + seq![] =~= seq!['\n']);
    assert(shown(seq!['\n'].skip(1), Scan::Text) =~= seq![]);
    assert(closes(seq!['\n'].skip(1), Scan::Text));
}

proof fn lemma_ended_shown(colored: Seq<Seq<char>>, lines: Seq<Seq<char>>)
    requires
        show(colored, lines),
    ensures
        plain(ended_lines(colored)) == ended_lines(lines),
        closes(ended_lines(colored), Scan::Text),
    decreases lines.len(),
{
    if lines.len() > 0 {
        let c = colored.drop_last();
        let l = lines.drop_last();
        assert forall|i: int| 0 <= i < l.len() implies plain(#[trigger] c[i]) == l[i] && closes(
            c[i],
            Scan::Text,
        ) by {
            assert(c[i] == colored[i]);
        }
        lemma_ended_shown(c, l);
        let n = lines.len() - 1;
        assert(plain(colored[n]) == lines[n]);
        lemma_line_end_shown();
        lemma_shown_sum(colored[n], seq!['\n'], Scan::Text);
        lemma_closes_sum(colored[n], seq!['\n'], Scan::Text);
        assert(colored[n] + seq!['\n'] =~= colored[n].push('\n'));
        assert(lines[n] + seq!['\n'] =~= lines[n].push('\n'));
        lemma_shown_sum(ended_lines(c), colored[n].push('\n'), Scan::Text);
        lemma_closes_sum(ended_lines(c), colored[n].push('\n'), Scan::Text);
    }
}

proof fn lemma_unended_shown(colored: Seq<Seq<char>>, lines: Seq<Seq<char>>)
    requires
        show(colored, lines),
        lines.len() > 0,
    ensures
        plain(ended_lines(colored).drop_last()) == ended_lines(lines).drop_last(),
{
    let c = colored.drop_last();
    let l = lines.drop_last();
    assert forall|i: int| 0 <= i < l.len() implies plain(#[trigger] c[i]) == l[i] && closes(
        c[i],
        Scan::Text,
    ) by {
        assert(c[i] == colored[i]);
    }
    lemma_ended_shown(c, l);
    let n = lines.len() - 1;
    assert(plain(colored[n]) == lines[n]);
    lemma_shown_sum(ended_lines(c), colored[n], Scan::Text);
    assert(ended_lines(colored).drop_last() =~= ended_lines(c) + colored[n]);
    assert(ended_lines(lines).drop_last() =~= ended_lines(l) + lines[n]);
}

proof fn lemma_ended_as_shown(colored: Seq<Seq<char>>, lines: Seq<Seq<char>>, source: Seq<char>)
    requires
        show(colored, lines),
    ensures
        plain(ended_as(ended_lines(colored), source)) == ended_as(ended_lines(lines), source),
{
    lemma_ended_shown(colored, lines);
    if lines.len() > 0 {
        lemma_unended_shown(colored, lines);
        assert(ended_lines(colored).last() == '\n');
        assert(ended_lines(lines).last() == '\n');
    }
}

/// Highlighting a source changes its colors alone: what the highlighted text shows is the source,
/// every line with a plain line end, so the source itself if it has no carriage returns.
pub proof fn law_source_text_kept(source: Seq<char>, colored: Seq<Seq<char>>)
    requires
        colors_of(lines_of(source), colored),
        !source.contains('\u{1b}'),
    ensures
        colored_text(source, Some(colored)) matches Some(text) && plain(text) == ended_as(
            ended_lines(lines_of(source)),
            source,
        ),
        !source.contains('\r') ==> plain(colored_text(source, Some(colored))->0) == source,
{
    let lines = lines_of(source);
    if !source.contains('\r') {
        lemma_lines_rejoined(source);
    }
    lemma_lines_without(source, '\u{1b}');
    assert forall|i: int| 0 <= i < lines.len() implies plain(#[trigger] colored[i]) == lines[i]
        && closes(colored[i], Scan::Text) by {
        assert(line_colored(lines[i], colored[i]));
    }
    lemma_ended_as_shown(colored, lines, source);
}

/// Highlighting a source that has no escape sequences sets no background color.
pub proof fn law_no_background(source: Seq<char>, colored: Seq<Seq<char>>)
    requires
        colors_of(lines_of(source), colored),
        !source.contains('\u{1b}'),
    ensures
        colored_text(source, Some(colored)) matches Some(text) && !holds(text, BACKGROUND@),
{
    let lines = lines_of(source);
    reveal_strlit("\u{1b}[48;");
    lemma_lines_without(source, '\u{1b}');
    lemma_lines_whole(source);
    assert forall|i: int| 0 <= i < colored.len() implies one_line(#[trigger] colored[i]) && !holds(
        colored[i],
        BACKGROUND@,
    ) by {
        assert(line_colored(lines[i], colored[i]));
        assert(!lines[i].contains('\u{1b}'));
        assert(one_line(lines[i]));
        if !one_line(colored[i]) {
            let k = choose|k: int| 0 <= k < colored[i].len() && colored[i][k] == '\n';
            assert(colored[i].contains('\n'));
            let j = choose|j: int| 0 <= j < lines[i].len() && lines[i][j] == '\n';
            assert(lines[i][j] != '\n');
        }
    }
    lemma_none_in_lines(colored, BACKGROUND@);
    let all = ended_lines(colored);
    let text = ended_as(all, source);
    lemma_occurrence_from(all, BACKGROUND@, 0);
    lemma_occurrence_from(text, BACKGROUND@, 0);
    if holds(text, BACKGROUND@) {
        let i = choose|i: int| occurs_at(text, BACKGROUND@, i);
        assert(all.subrange(i, i + 5) =~= text.subrange(i, i + 5));
        assert(occurs_at(all, BACKGROUND@, i));
    }
}

/// A text within one line stands in lines put together only where it stands in one of them.
proof fn lemma_none_in_lines(lines: Seq<Seq<char>>, p: Seq<char>)
    requires
        p.len() > 0,
        one_line(p),
        forall|i: int| 0 <= i < lines.len() ==> !holds(#[trigger] lines[i], p),
    ensures
        !holds(ended_lines(lines), p),
    decreases lines.len(),
{
    let all = ended_lines(lines);
    lemma_occurrence_from(all, p, 0);
    if lines.len() > 0 {
        let front = ended_lines(lines.drop_last());
        let last = lines.last();
        assert forall|i: int| 0 <= i < lines.drop_last().len() implies !holds(
            #[trigger] lines.drop_last()[i],
            p,
        ) by {
            assert(lines.drop_last()[i] == lines[i]);
        }
        lemma_none_in_lines(lines.drop_last(), p);
        lemma_occurrence_from(front, p, 0);
        lemma_occurrence_from(last, p, 0);
        assert(!holds(lines[lines.len() - 1], p));
        assert forall|i: int| 0 <= i implies !#[trigger] occurs_at(all, p, i) by {
            if occurs_at(all, p, i) {
                let part = all.subrange(i, i + p.len());
                assert(part == p);
                if i + p.len() <= front.len() {
                    assert(front.subrange(i, i + p.len()) =~= part);
                    assert(occurs_at(front, p, i));
                } else if i >= front.len() {
                    let j = i - front.len();
                    if j + p.len() <= last.len() {
                        assert(last.subrange(j, j + p.len()) =~= part);
                        assert(occurs_at(last, p, j));
                    } else {
                        assert(part[last.len() - j] == '\n');
                        assert(p[last.len() - j] != '\n');
                    }
                } else {
                    assert(front.last() == '\n');
                    assert(part[front.len() - 1 - i] == '\n');
                    assert(p[front.len() - 1 - i] != '\n');
                }
            }
        }
    }
}

/// A text without one line end at its end.
pub open spec fn without_last_end(s: Seq<char>) -> Seq<char> {
    if s.len() > 0 && s.last() == '\n' {
        s.drop_last()
    } else {
        s
    }
}

/// A source in a fenced block is the one code block of it: it comes back with its tag, without a
/// line end at its end. No line of the source may close the block or end in a carriage return, and
/// the tag has to be one.
pub proof fn law_fenced_source_comes_back(source: Seq<char>, lang: Seq<char>)
    requires
        source.contains('\r') ==> !holds(with_last_end(source), "\r\n"@),
        forall|i: int|
            #![trigger lines_of(source)[i]]
            0 <= i < lines_of(source).len() && begins(trimmed_start(lines_of(source)[i]), "```"@)
                ==> !fence_closed(lines_of(source)[i], ('`', 3)),
        one_line(lang),
        trimmed(lang) == lang,
        lang.len() > 0 ==> lang[0] != '`',
    ensures
        code_blocks_from(lines_of(fenced(source, lang)), 0) == seq![
            CodeView { lang, content: without_last_end(source) },
        ],
{
    reveal_strlit("```");
    reveal_strlit("\n");
    reveal_strlit("```\n");
    let behind = with_last_end(source);
    let code = lines_of(behind);
    reveal_strlit("\r\n");
    if !source.contains('\r') {
        lemma_occurrence_from(behind, "\r\n"@, 0);
        if holds(behind, "\r\n"@) {
            let i = choose|i: int| occurs_at(behind, "\r\n"@, i);
            assert(behind.subrange(i, i + 2)[0] == "\r\n"@[0]);
            assert(source[i] == '\r');
        }
    }
    assert forall|i: int| 0 <= i < lines_of(source).len() implies !fence_closed(
        #[trigger] lines_of(source)[i],
        ('`', 3),
    ) by {
        let t = trimmed_start(lines_of(source)[i]);
        lemma_run_length(t, '`');
        if run_length(t, '`') >= 3 {
            assert(t.take(3) =~= "```"@);
        }
    }
    let open = "```"@ + lang;
    let close = "```"@;
    let lines = seq![open] + code + seq![close];
    lemma_code_lines(source);
    lemma_lines_whole(behind);
    // The fenced text is made of these lines.
    assert(ended_lines(lines) == fenced(source, lang)) by {
        lemma_ended_sum(seq![open] + code, seq![close]);
        lemma_ended_sum(seq![open], code);
        lemma_one_ended(open);
        lemma_one_ended(close);
        assert(ended_lines(lines) =~= fenced(source, lang));
    }
    assert(without_cr(open) == open) by {
        if lang.len() > 0 {
            lemma_trimmed_last(lang);
            assert(open.last() == lang.last());
            assert(white_space('\r'));
        }
    }
    assert forall|i: int| 0 <= i < lines.len() implies one_line(#[trigger] lines[i]) && without_cr(
        lines[i],
    ) == lines[i] by {
        if i == 0 {
            assert forall|k: int| 0 <= k < open.len() implies #[trigger] open[k] != '\n' by {
                if k >= 3 {
                    assert(open[k] == lang[k - 3]);
                }
            }
        } else if i <= code.len() {
            assert(lines[i] == code[i - 1]);
            assert(one_line(code[i - 1]));
            assert(without_cr(code[i - 1]) == code[i - 1]);
        } else {
            assert(lines[i] == close);
            assert(one_line(close));
            assert(without_cr(close) == close);
        }
    }
    lemma_lines_of_ended(lines);
    assert(lines_of(ended_lines(lines)) =~= lines);
    // Its first line opens a block that its last one closes.
    assert(open[0] == '`' && open[1] == '`' && open[2] == '`');
    assert(!white_space('`'));
    assert(trimmed_start(open) == open);
    lemma_run_length(open, '`');
    assert(run_length(open, '`') == 3) by {
        assert(open.skip(1).skip(1) =~= open.skip(2));
        assert(open.skip(2).skip(1) =~= lang);
        assert(run_length(lang, '`') == 0);
        assert(run_length(open.skip(2), '`') == 1);
        assert(run_length(open.skip(1), '`') == 2);
    }
    assert(fence_opened(open) == Some(('`', 3nat)));
    assert(open.skip(3) =~= lang);
    assert(fence_lang(open, 3) == lang);
    assert(fence_closed(close, ('`', 3))) by {
        assert(trimmed_start(close) == close);
        assert(close.skip(1).skip(1) =~= close.skip(2));
        assert(close.skip(2).skip(1) =~= seq![]);
        assert(run_length(close.skip(2).skip(1), '`') == 0);
        assert(run_length(close.skip(2), '`') == 1);
        assert(run_length(close.skip(1), '`') == 2);
        assert(close.skip(3) =~= seq![]);
    }
    let at = (code.len() + 1) as int;
    assert forall|i: int| 0 <= i < code.len() implies !fence_closed(
        #[trigger] code[i],
        ('`', 3),
    ) by {
        assert(without_cr(code[i]) == code[i]);
    }
    lemma_closing_fence_at(lines, 1, ('`', 3), at, code);
    assert(lines.subrange(1, at) =~= code);
    lemma_joined_is_ended(code);
    assert(joined_lines(code) =~= behind.drop_last()) by {
        assert(joined_lines(code).push('\n').drop_last() =~= joined_lines(code));
    }
    assert(without_last_end(source) =~= behind.drop_last());
    assert(lines[0] == open);
    assert(code_blocks_from(lines, at + 1) =~= seq![]);
    let block = CodeView { lang, content: without_last_end(source) };
    assert(code_blocks_from(lines, 0) =~= seq![block]);
}

/// The lines of a source, its last one with a line end.
proof fn lemma_code_lines(source: Seq<char>)
    requires
        !holds(with_last_end(source), "\r\n"@),
        forall|i: int|
            0 <= i < lines_of(source).len() ==> !fence_closed(
                #[trigger] lines_of(source)[i],
                ('`', 3),
            ),
    ensures
        lines_of(with_last_end(source)).len() > 0,
        ended_lines(lines_of(with_last_end(source))) == with_last_end(source),
        forall|i: int|
            #![trigger lines_of(with_last_end(source))[i]]
            0 <= i < lines_of(with_last_end(source)).len() ==> without_cr(
                lines_of(with_last_end(source))[i],
            ) == lines_of(with_last_end(source))[i] && !fence_closed(
                lines_of(with_last_end(source))[i],
                ('`', 3),
            ),
{
    let behind = with_last_end(source);
    let code = lines_of(behind);
    lemma_ended_rejoined(behind);
    if code.len() == 0 {
        assert(ended_lines(code) =~= seq![]);
    }
    if source.len() == 0 {
        assert(behind =~= seq!['\n']);
        assert(position(behind, '\n') == 0);
        assert(behind.take(0) =~= seq![]);
        assert(behind.skip(1) =~= seq![]);
        assert(lines_of(behind.skip(1)) =~= seq![]);
        assert(code =~= seq![Seq::<char>::empty()]);
        assert(!fence_closed(Seq::<char>::empty(), ('`', 3)));
    } else if source.last() != '\n' {
        reveal_strlit("\r\n");
        let n = behind.len() as int;
        if source.last() == '\r' {
            assert(behind.subrange(n - 2, n) =~= "\r\n"@);
            lemma_occurrence_from(behind, "\r\n"@, 0);
            assert(occurs_at(behind, "\r\n"@, n - 2));
        }
        lemma_end_added(source);
    }
}

/// A trimmed text does not end in white space.
proof fn lemma_trimmed_last(s: Seq<char>)
    requires
        trimmed(s) == s,
        s.len() > 0,
    ensures
        !white_space(s.last()),
{
    lemma_trimmed_start_length(s);
    lemma_trimmed_end_prefix(trimmed_start(s));
    assert(trimmed_start(s) == s) by {
        if white_space(s[0]) {
            lemma_trimmed_start_length(s.skip(1));
        }
    }
    if white_space(s.last()) {
        lemma_trimmed_end_prefix(s.drop_last());
    }
}

proof fn lemma_trimmed_start_length(s: Seq<char>)
    ensures
        trimmed_start(s).len() <= s.len(),
    decreases s.len(),
{
    if s.len() > 0 && white_space(s[0]) {
        lemma_trimmed_start_length(s.skip(1));
    }
}

/// The lines that come out for the lines from `i` on.
spec fn lines_out(
    lines: Seq<Seq<char>>,
    results: Seq<Option<Seq<Seq<char>>>>,
    i: int,
    k: int,
) -> Seq<Seq<char>>
    decreases lines.len() - i,
    via lines_out_decreases
{
    if i >= lines.len() {
        seq![]
    } else {
        match block_at(lines, i) {
            Some(block) => seq![lines[i]] + code_out(lines, block, results[k]) + seq![
                lines[block.close],
            ] + lines_out(lines, results, block.close + 1, k + 1),
            None => seq![lines[i]] + lines_out(lines, results, i + 1, k),
        }
    }
}

spec fn code_out(
    lines: Seq<Seq<char>>,
    block: FencedView,
    result: Option<Seq<Seq<char>>>,
) -> Seq<Seq<char>> {
    match result {
        Some(colored) => colored,
        None => lines.subrange(block.open + 1, block.close),
    }
}

#[via_fn]
proof fn lines_out_decreases(
    lines: Seq<Seq<char>>,
    results: Seq<Option<Seq<Seq<char>>>>,
    i: int,
    k: int,
) {
    if i < lines.len() {
        lemma_close_from(lines, i + 1, fence_char_of(lines[i]));
    }
}

/// Whether the results for the blocks from the `k`th on are colored lines of their blocks.
spec fn results_colored(
    blocks: Seq<FencedView>,
    results: Seq<Option<Seq<Seq<char>>>>,
    k: int,
) -> bool {
    forall|j: int|
        0 <= j < blocks.len() ==> (results[k + j] matches Some(colored) ==> colors_of(
            (#[trigger] blocks[j]).code,
            colored,
        ))
}

proof fn lemma_one_ended(line: Seq<char>)
    ensures
        ended_lines(seq![line]) == line.push('\n'),
{
    assert(seq![line].drop_last() =~= seq![]);
    assert(ended_lines(seq![line].drop_last()) =~= seq![]);
    assert(seq![line].last() == line);
    assert(ended_lines(seq![line]) =~= line.push('\n'));
}

/// The results for the blocks behind the first one.
proof fn lemma_later_results(
    lines: Seq<Seq<char>>,
    results: Seq<Option<Seq<Seq<char>>>>,
    i: int,
    k: int,
)
    requires
        0 <= i < lines.len(),
        block_at(lines, i) is Some,
        results_colored(blocks_from(lines, i), results, k),
    ensures
        ({
            let block = block_at(lines, i)->0;
            &&& results[k] matches Some(colored) ==> colors_of(block.code, colored)
            &&& results_colored(blocks_from(lines, block.close + 1), results, k + 1)
        }),
{
    let block = block_at(lines, i)->0;
    let blocks = blocks_from(lines, i);
    let later = blocks_from(lines, block.close + 1);
    assert(blocks[0] == block);
    assert(results[k + 0] == results[k]);
    assert forall|j: int| 0 <= j < later.len() implies (results[k + 1 + j] matches Some(colored)
        ==> colors_of((#[trigger] later[j]).code, colored)) by {
        assert(blocks[j + 1] == later[j]);
        assert(results[k + (j + 1)] == results[k + 1 + j]);
    }
}

proof fn lemma_colored_whole(code: Seq<Seq<char>>, colored: Seq<Seq<char>>)
    requires
        colors_of(code, colored),
        forall|j: int| 0 <= j < code.len() ==> one_line(#[trigger] code[j]),
    ensures
        forall|j: int| 0 <= j < colored.len() ==> one_line(#[trigger] colored[j]),
{
    assert forall|j: int| 0 <= j < colored.len() implies one_line(#[trigger] colored[j]) by {
        assert(line_colored(code[j], colored[j]));
        assert(one_line(code[j]));
        assert(!code[j].contains('\n'));
        assert forall|x: int| 0 <= x < colored[j].len() implies #[trigger] colored[j][x]
            != '\n' by {
            if colored[j][x] == '\n' {
                assert(colored[j].contains('\n'));
            }
        }
    }
}

proof fn lemma_lines_out(
    lines: Seq<Seq<char>>,
    results: Seq<Option<Seq<Seq<char>>>>,
    i: int,
    k: int,
)
    requires
        0 <= i <= lines.len(),
        forall|j: int| 0 <= j < lines.len() ==> one_line(#[trigger] lines[j]),
        results_colored(blocks_from(lines, i), results, k),
    ensures
        rewritten(lines, results, i, k) == ended_lines(lines_out(lines, results, i, k)),
        lines_out(lines, results, i, k).len() == lines.len() - i,
        i < lines.len() ==> lines_out(lines, results, i, k).last() == lines.last(),
        forall|j: int|
            0 <= j < lines_out(lines, results, i, k).len() ==> one_line(
                #[trigger] lines_out(lines, results, i, k)[j],
            ),
    decreases lines.len() - i,
{
    let out = lines_out(lines, results, i, k);
    if i < lines.len() {
        lemma_close_from(lines, i + 1, fence_char_of(lines[i]));
        lemma_one_ended(lines[i]);
        assert(one_line(lines[i]));
        match block_at(lines, i) {
            Some(block) => {
                let rest = lines_out(lines, results, block.close + 1, k + 1);
                let code = code_out(lines, block, results[k]);
                lemma_later_results(lines, results, i, k);
                lemma_lines_out(lines, results, block.close + 1, k + 1);
                assert forall|j: int| 0 <= j < block.code.len() implies one_line(
                    #[trigger] block.code[j],
                ) by {
                    assert(block.code[j] == lines[block.open + 1 + j]);
                }
                if let Some(colored) = results[k] {
                    lemma_colored_whole(block.code, colored);
                }
                assert(one_line(lines[block.close]));
                lemma_one_ended(lines[block.close]);
                let a = seq![lines[i]] + code;
                let b = a + seq![lines[block.close]];
                lemma_ended_sum(seq![lines[i]], code);
                lemma_ended_sum(a, seq![lines[block.close]]);
                lemma_ended_sum(b, rest);
                assert(out == b + rest);
                assert(code.len() == block.close - i - 1);
                if block.close + 1 < lines.len() {
                    assert(out.last() == rest.last());
                } else {
                    assert(rest =~= seq![]);
                    assert(out.last() == lines[block.close]);
                }
            },
            None => {
                let rest = lines_out(lines, results, i + 1, k);
                lemma_lines_out(lines, results, i + 1, k);
                lemma_ended_sum(seq![lines[i]], rest);
                if i + 1 < lines.len() {
                    assert(out.last() == rest.last());
                } else {
                    assert(rest =~= seq![]);
                    assert(out.last() == lines[i]);
                }
            },
        }
    }
}

/// The lines of lines put together, with a line end at the end where another text has one.
proof fn lemma_ended_as_lines(out: Seq<Seq<char>>, markdown: Seq<char>)
    requires
        out.len() == lines_of(markdown).len(),
        out.len() > 0 ==> out.last() == lines_of(markdown).last(),
        forall|j: int| 0 <= j < out.len() ==> one_line(#[trigger] out[j]),
    ensures
        ({
            let text = ended_as(ended_lines(out), markdown);
            &&& lines_of(text).len() == out.len()
            &&& (text.len() > 0 && text.last() == '\n') == (markdown.len() > 0 && markdown.last()
                == '\n')
            &&& forall|j: int|
                0 <= j < out.len() ==> #[trigger] lines_of(text)[j] == out[j] || lines_of(text)[j]
                    == without_cr(out[j])
        }),
{
    let text = ended_as(ended_lines(out), markdown);
    lemma_lines_of_ended(out);
    if markdown.len() == 0 {
        assert(out =~= seq![]);
    } else if markdown.last() != '\n' {
        lemma_last_line(markdown);
        lemma_lines_of_unended(out);
        assert(ended_lines(out).last() == '\n');
        let front = ended_lines(out.drop_last());
        assert(text =~= front + out.last());
        assert(one_line(out[out.len() - 1]));
        assert(text.last() == out.last()[out.last().len() - 1]);
    } else {
        assert(lines_of(markdown).len() > 0) by {
            lemma_position(markdown, '\n');
        }
        assert(ended_lines(out).last() == '\n');
    }
}

/// Highlighting keeps the number of lines, so that line numbers of the text are those of the
/// highlighted text, and it keeps whether there is a line end at the end.
pub proof fn law_line_count_kept(markdown: Seq<char>, bg: Color)
    requires
        well_colored(blocks_from(lines_of(markdown), 0), bg),
    ensures
        lines_of(blocks_highlighted(markdown, bg)).len() == lines_of(markdown).len(),
        (blocks_highlighted(markdown, bg).len() > 0 && blocks_highlighted(markdown, bg).last()
            == '\n') == (markdown.len() > 0 && markdown.last() == '\n'),
{
    let lines = lines_of(markdown);
    let results = block_colors(blocks_from(lines, 0), bg);
    lemma_block_results(lines, bg);
    lemma_lines_whole(markdown);
    lemma_lines_out(lines, results, 0, 0);
    lemma_ended_as_lines(lines_out(lines, results, 0, 0), markdown);
}

proof fn lemma_block_results(lines: Seq<Seq<char>>, bg: Color)
    requires
        well_colored(blocks_from(lines, 0), bg),
    ensures
        results_colored(blocks_from(lines, 0), block_colors(blocks_from(lines, 0), bg), 0),
{
    let blocks = blocks_from(lines, 0);
    let results = block_colors(blocks, bg);
    assert forall|j: int| 0 <= j < blocks.len() implies (results[0 + j] matches Some(colored)
        ==> colors_of((#[trigger] blocks[j]).code, colored)) by {
        assert(block_well_colored(blocks[j], bg));
    }
}

/// Whether a line is one of the code of a block that the highlighter colors.
pub open spec fn in_colored_code(blocks: Seq<FencedView>, bg: Color, i: int) -> bool {
    exists|k: int|
        0 <= k < blocks.len() && (#[trigger] blocks[k]).open < i < blocks[k].close && colors(
            blocks[k].code,
            blocks[k].lang,
            bg,
        ) is Some
}

/// Highlighting changes the code of recognized blocks alone: every other line, the fences among
/// them, stays as and where it is, without a carriage return at its end.
pub proof fn law_other_lines_kept(markdown: Seq<char>, bg: Color, i: int)
    requires
        well_colored(blocks_from(lines_of(markdown), 0), bg),
        0 <= i < lines_of(markdown).len(),
        !in_colored_code(blocks_from(lines_of(markdown), 0), bg, i),
    ensures
        ({
            let was = lines_of(markdown)[i];
            let is = lines_of(blocks_highlighted(markdown, bg))[i];
            is == was || is == without_cr(was)
        }),
{
    let lines = lines_of(markdown);
    let blocks = blocks_from(lines, 0);
    let results = block_colors(blocks, bg);
    lemma_block_results(lines, bg);
    lemma_lines_whole(markdown);
    lemma_lines_out(lines, results, 0, 0);
    assert forall|k: int| 0 <= k < blocks.len() && (#[trigger] blocks[k]).open < i
        < blocks[k].close implies results[0 + k] is None by {
        if results[k] is Some {
            assert(in_colored_code(blocks, bg, i));
        }
    }
    lemma_line_stays(lines, results, 0, 0, i);
    lemma_ended_as_lines(lines_out(lines, results, 0, 0), markdown);
}

proof fn lemma_line_stays(
    lines: Seq<Seq<char>>,
    results: Seq<Option<Seq<Seq<char>>>>,
    i: int,
    k: int,
    at: int,
)
    requires
        0 <= i <= at < lines.len(),
        forall|j: int| 0 <= j < lines.len() ==> one_line(#[trigger] lines[j]),
        results_colored(blocks_from(lines, i), results, k),
        forall|j: int|
            0 <= j < blocks_from(lines, i).len() && (#[trigger] blocks_from(lines, i)[j]).open < at
                < blocks_from(lines, i)[j].close ==> results[k + j] is None,
    ensures
        lines_out(lines, results, i, k).len() == lines.len() - i,
        lines_out(lines, results, i, k)[at - i] == lines[at],
    decreases lines.len() - i,
{
    let out = lines_out(lines, results, i, k);
    lemma_lines_out(lines, results, i, k);
    lemma_close_from(lines, i + 1, fence_char_of(lines[i]));
    match block_at(lines, i) {
        Some(block) => {
            let blocks = blocks_from(lines, i);
            let later = blocks_from(lines, block.close + 1);
            let rest = lines_out(lines, results, block.close + 1, k + 1);
            let code = code_out(lines, block, results[k]);
            lemma_later_results(lines, results, i, k);
            lemma_lines_out(lines, results, block.close + 1, k + 1);
            assert(blocks[0] == block);
            assert(code.len() == block.close - i - 1);
            if at > block.close {
                assert forall|j: int| 0 <= j < later.len() && (#[trigger] later[j]).open < at
                    < later[j].close implies results[k + 1 + j] is None by {
                    assert(blocks[j + 1] == later[j]);
                    assert(results[k + (j + 1)] == results[k + 1 + j]);
                }
                lemma_line_stays(lines, results, block.close + 1, k + 1, at);
                assert(out[at - i] == rest[at - block.close - 1]);
            } else if i < at < block.close {
                assert(results[k + 0] is None);
                assert(out[at - i] == code[at - i - 1]);
            }
        },
        None => {
            if at > i {
                assert(blocks_from(lines, i) == blocks_from(lines, i + 1));
                lemma_line_stays(lines, results, i + 1, k, at);
                assert(out[at - i] == lines_out(lines, results, i + 1, k)[at - i - 1]);
            }
        },
    }
}

proof fn lemma_plain_line_shown(line: Seq<char>)
    requires
        !line.contains('\u{1b}'),
    ensures
        plain(line) == line,
        closes(line, Scan::Text),
    decreases line.len(),
{
    law_plain_text_unchanged(line);
    if line.len() > 0 {
        assert(line.contains(line[0]));
        assert(!line.skip(1).contains('\u{1b}')) by {
            if line.skip(1).contains('\u{1b}') {
                let i = choose|i: int| 0 <= i < line.skip(1).len() && line.skip(1)[i] == '\u{1b}';
                assert(line[i + 1] == '\u{1b}');
            }
        }
        lemma_plain_line_shown(line.skip(1));
    }
}

proof fn lemma_lines_out_shown(
    lines: Seq<Seq<char>>,
    results: Seq<Option<Seq<Seq<char>>>>,
    i: int,
    k: int,
)
    requires
        0 <= i <= lines.len(),
        forall|j: int| 0 <= j < lines.len() ==> !(#[trigger] lines[j]).contains('\u{1b}'),
        results_colored(blocks_from(lines, i), results, k),
    ensures
        show(lines_out(lines, results, i, k), lines.skip(i)),
    decreases lines.len() - i,
{
    let out = lines_out(lines, results, i, k);
    let wanted = lines.skip(i);
    if i < lines.len() {
        lemma_close_from(lines, i + 1, fence_char_of(lines[i]));
        lemma_plain_line_shown(lines[i]);
        match block_at(lines, i) {
            Some(block) => {
                let rest = lines_out(lines, results, block.close + 1, k + 1);
                let code = code_out(lines, block, results[k]);
                let was = block.code;
                lemma_later_results(lines, results, i, k);
                lemma_lines_out_shown(lines, results, block.close + 1, k + 1);
                lemma_plain_line_shown(lines[block.close]);
                assert forall|j: int| 0 <= j < was.len() implies plain(#[trigger] code[j])
                    == was[j] && closes(code[j], Scan::Text) by {
                    assert(was[j] == lines[block.open + 1 + j]);
                    if results[k] is None {
                        lemma_plain_line_shown(lines[block.open + 1 + j]);
                    } else {
                        assert(line_colored(was[j], code[j]));
                    }
                }
                let n = code.len() as int;
                assert(out.len() == wanted.len());
                assert forall|j: int| 0 <= j < wanted.len() implies plain(#[trigger] out[j])
                    == wanted[j] && closes(out[j], Scan::Text) by {
                    if j == 0 {
                    } else if j <= n {
                        assert(out[j] == code[j - 1]);
                        assert(was[j - 1] == wanted[j]);
                    } else if j == n + 1 {
                        assert(out[j] == lines[block.close]);
                    } else {
                        assert(out[j] == rest[j - n - 2]);
                        assert(lines.skip(block.close + 1)[j - n - 2] == wanted[j]);
                    }
                }
            },
            None => {
                let rest = lines_out(lines, results, i + 1, k);
                assert(blocks_from(lines, i) == blocks_from(lines, i + 1));
                lemma_lines_out_shown(lines, results, i + 1, k);
                assert forall|j: int| 0 <= j < wanted.len() implies plain(#[trigger] out[j])
                    == wanted[j] && closes(out[j], Scan::Text) by {
                    if j > 0 {
                        assert(out[j] == rest[j - 1]);
                        assert(lines.skip(i + 1)[j - 1] == wanted[j]);
                    }
                }
            },
        }
    }
}

/// Highlighting changes colors alone: what the highlighted text shows is the text, every line with
/// a plain line end, so the text itself if it has no carriage returns.
pub proof fn law_document_text_kept(markdown: Seq<char>, bg: Color)
    requires
        well_colored(blocks_from(lines_of(markdown), 0), bg),
        !markdown.contains('\u{1b}'),
    ensures
        plain(blocks_highlighted(markdown, bg)) == ended_as(
            ended_lines(lines_of(markdown)),
            markdown,
        ),
        !markdown.contains('\r') ==> plain(blocks_highlighted(markdown, bg)) == markdown,
{
    let lines = lines_of(markdown);
    let results = block_colors(blocks_from(lines, 0), bg);
    lemma_lines_whole(markdown);
    lemma_lines_without(markdown, '\u{1b}');
    if !markdown.contains('\r') {
        lemma_lines_rejoined(markdown);
    }
    lemma_block_results(lines, bg);
    lemma_lines_out(lines, results, 0, 0);
    lemma_lines_out_shown(lines, results, 0, 0);
    let out = lines_out(lines, results, 0, 0);
    assert(lines.skip(0) =~= lines);
    lemma_ended_as_shown(out, lines, markdown);
}

/// The extensions of markdown files, and of those that are opened in the editor.
pub proof fn law_extension_tables()
    ensures
        MARKDOWN_EXTS@.len() == 5 && EDITOR_PREFERRED_EXTS@.len() == 15,
        MARKDOWN_EXTS@[0]@ == "md"@ && MARKDOWN_EXTS@[1]@ == "markdown"@,
        MARKDOWN_EXTS@[2]@ == "mdown"@ && MARKDOWN_EXTS@[3]@ == "mkd"@,
        MARKDOWN_EXTS@[4]@ == "mdx"@,
        EDITOR_PREFERRED_EXTS@[0]@ == "toml"@ && EDITOR_PREFERRED_EXTS@[1]@ == "yaml"@,
        EDITOR_PREFERRED_EXTS@[2]@ == "yml"@ && EDITOR_PREFERRED_EXTS@[3]@ == "json"@,
        EDITOR_PREFERRED_EXTS@[4]@ == "jsonc"@ && EDITOR_PREFERRED_EXTS@[5]@ == "json5"@,
        EDITOR_PREFERRED_EXTS@[6]@ == "xml"@ && EDITOR_PREFERRED_EXTS@[7]@ == "svg"@,
        EDITOR_PREFERRED_EXTS@[8]@ == "ini"@ && EDITOR_PREFERRED_EXTS@[9]@ == "cfg"@,
        EDITOR_PREFERRED_EXTS@[10]@ == "conf"@ && EDITOR_PREFERRED_EXTS@[11]@ == "env"@,
        EDITOR_PREFERRED_EXTS@[12]@ == "properties"@ && EDITOR_PREFERRED_EXTS@[13]@ == "csv"@,
        EDITOR_PREFERRED_EXTS@[14]@ == "tsv"@,
{
}

/// A file is of a kind by its extension, whatever the case; a file without one is of none.
pub proof fn law_kinds_by_extension(path: Seq<char>, table: Seq<&'static str>, i: int)
    ensures
        extension(path) is None ==> !has_extension_in(path, table) && lang_of(path) is None,
        extension(path) matches Some(ext) && 0 <= i < table.len() && ascii_lowered(table[i]@)
            == ascii_lowered(ext) ==> has_extension_in(path, table),
        extension(path) matches Some(ext) && (forall|j: int|
            0 <= j < table.len() ==> ascii_lowered((#[trigger] table[j])@) != ascii_lowered(ext))
            ==> !has_extension_in(path, table),
        extension(path) matches Some(ext) ==> lang_of(path) == (if default_extension(ext)
            || defined_extension(contents(BUNDLED@), ext) {
            Some(lowercased(ext))
        } else {
            None
        }),
{
}

/// A language is looked for among the highlighter's own syntaxes first and among the viewer's then,
/// and its colors are those for a light background or a dark one.
pub proof fn law_colors(lines: Seq<Seq<char>>, lang: Seq<char>, bg: Color)
    ensures
        ({
            let theme = if light(bg) {
                "InspiredGitHub"@
            } else {
                "base16-ocean.dark"@
            };
            let own = defined_token(contents(BUNDLED@), lang);
            &&& default_token(lang) ==> colors(lines, lang, bg) == default_colors(
                lang,
                theme,
                lines,
            )
            &&& !default_token(lang) && own ==> colors(lines, lang, bg) == defined_colors(
                contents(BUNDLED@),
                lang,
                theme,
                lines,
            )
            &&& !default_token(lang) && !own ==> colors(lines, lang, bg) is None
        }),
{
}

/// The tag of a fence is what stands behind its three characters, in small letters; there is none
/// without a fence or without a text.
pub proof fn law_fence_tags(mark: char, b: Seq<char>, tag: Seq<char>, c: Seq<char>, other: Seq<char>)
    requires
        mark == '`' || mark == '~',
        blank(b),
        blank(c),
        tag.len() > 0 ==> !white_space(tag[0]) && !white_space(tag.last()),
        other.len() >= 3 ==> !(other[0] == '`' && other[1] == '`' && other[2] == '`') && !(other[0]
            == '~' && other[1] == '~' && other[2] == '~'),
    ensures
        fence_tag(seq![mark, mark, mark] + b + tag + c) == (if tag.len() == 0 {
            None
        } else {
            Some(lowercased(tag))
        }),
        fence_tag(other) is None,
{
    reveal_strlit("```");
    reveal_strlit("~~~");
    let line = seq![mark, mark, mark] + b + tag + c;
    assert(line.take(3) =~= seq![mark, mark, mark]);
    assert("```"@ =~= seq!['`', '`', '`']);
    assert("~~~"@ =~= seq!['~', '~', '~']);
    assert(line.skip(3) =~= b + tag + c);
    law_trimmed(b, tag, c);
    if begins(other, "```"@) || begins(other, "~~~"@) {
        let t = other.take(3);
        assert(t[0] == other[0] && t[1] == other[1] && t[2] == other[2]);
    }
}

/// A fence is closed by three or more of its characters with nothing but white space behind them.
pub proof fn law_closing_fence_lines(mark: char, n: nat, rest: Seq<char>)
    requires
        rest.len() > 0 ==> rest[0] != mark,
    ensures
        closes_fence(repeated(mark, n) + rest, mark) <==> n >= 3 && blank(rest),
{
    let t = repeated(mark, n) + rest;
    lemma_run_length(t, mark);
    let k = run_length(t, mark) as int;
    if k < n {
        assert(t[k] == mark);
    }
    if k > n {
        assert(t[n as int] == rest[0]);
    }
    assert(t.skip(n as int) =~= rest);
}

/// What stands between a fence with a tag and the one that closes it is the block's code; diagrams
/// are left alone.
pub proof fn law_block_comes_out(
    open: Seq<char>,
    code: Seq<Seq<char>>,
    close: Seq<char>,
    behind: Seq<Seq<char>>,
)
    requires
        fence_tag(trimmed_start(open)) is Some,
        closes_fence(trimmed_start(close), fence_char_of(open)),
        forall|i: int|
            0 <= i < code.len() ==> !closes_fence(
                trimmed_start(#[trigger] code[i]),
                fence_char_of(open),
            ),
    ensures
        ({
            let lines = seq![open] + code + seq![close] + behind;
            let lang = fence_tag(trimmed_start(open))->0;
            &&& lang != "mermaid"@ ==> {
                let found = blocks_from(lines, 0);
                &&& found.len() >= 1
                &&& found[0].lang == lang
                &&& found[0].code == code
                &&& found[0].open == 0
                &&& found[0].close == code.len() + 1
            }
            &&& lang == "mermaid"@ ==> block_at(lines, 0) is None
        }),
{
    let lines = seq![open] + code + seq![close] + behind;
    assert(lines[0] == open);
    assert forall|i: int| 1 <= i < 1 + code.len() implies #[trigger] lines[i] == code[i - 1] by {}
    assert(lines[1 + code.len() as int] == close);
    lemma_close_at(lines, 1, fence_char_of(open), 1 + code.len() as int, code);
    assert(lines.subrange(1, 1 + code.len() as int) =~= code);
}

proof fn lemma_close_at(
    lines: Seq<Seq<char>>,
    from: int,
    mark: char,
    at: int,
    code: Seq<Seq<char>>,
)
    requires
        1 <= from <= at < lines.len(),
        at == code.len() + 1,
        closes_fence(trimmed_start(lines[at]), mark),
        forall|i: int| 1 <= i < at ==> #[trigger] lines[i] == code[i - 1],
        forall|i: int| 0 <= i < code.len() ==> !closes_fence(trimmed_start(#[trigger] code[i]), mark),
    ensures
        close_from(lines, from, mark) == at,
    decreases at - from,
{
    if from < at {
        assert(lines[from] == code[from - 1]);
        assert(!closes_fence(trimmed_start(code[from - 1]), mark));
        lemma_close_at(lines, from + 1, mark, at, code);
    }
}

/// A source file is put between fences of three backquotes, with its language behind the first.
pub proof fn law_fenced(source: Seq<char>, lang: Seq<char>)
    ensures
        fenced(source.push('\n'), lang) == seq!['`', '`', '`'] + lang + seq!['\n'] + source.push(
            '\n',
        ) + seq!['`', '`', '`', '\n'],
        source.len() == 0 || source.last() != '\n' ==> fenced(source, lang) == fenced(
            source.push('\n'),
            lang,
        ),
{
    reveal_strlit("```");
    reveal_strlit("\n");
    reveal_strlit("```\n");
    assert("```"@ =~= seq!['`', '`', '`']);
    assert("\n"@ =~= seq!['\n']);
    assert("```\n"@ =~= seq!['`', '`', '`', '\n']);
}

/// A fenced block stands for its language, its code and the lines of its fences.
pub proof fn law_fenced_blocks_stand_for_their_fields(blocks: Seq<FencedBlock>, i: int)
    requires
        0 <= i < blocks.len(),
    ensures
        fenced_views(blocks).len() == blocks.len(),
        fenced_views(blocks)[i].lang == blocks[i].lang@,
        fenced_views(blocks)[i].code == texts(blocks[i].code@),
        fenced_views(blocks)[i].open == blocks[i].open,
        fenced_views(blocks)[i].close == blocks[i].close,
{
}

} // verus!
