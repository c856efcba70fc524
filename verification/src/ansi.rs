//! Rendered terminal text: rows, escape sequences and colors.

use vstd::prelude::*;

use crate::text::{
    chars_of, cut, decimal, find, holds, lemma_occurrence_from, lemma_views_push, occurrence_from,
    occurs_at, push_number, push_str, string_of, views,
};
use crate::theme::Color;

verus! {

/// The end of a row of rendered text.
pub open spec fn row_end() -> Seq<char> {
    seq!['\r', '\n']
}

/// The rows of a rendered text: its pieces between `\r\n`. There is always one.
pub open spec fn rows_of(s: Seq<char>) -> Seq<Seq<char>>
    decreases s.len(),
    via rows_of_decreases
{
    match occurrence_from(s, row_end(), 0) {
        None => seq![s],
        Some(i) => seq![s.take(i)] + rows_of(s.skip(i + 2)),
    }
}

#[via_fn]
proof fn rows_of_decreases(s: Seq<char>) {
    lemma_occurrence_from(s, row_end(), 0);
}

/// Every row but the last takes up two characters of a text for its end.
pub proof fn lemma_rows_fit(s: Seq<char>)
    ensures
        1 <= rows_of(s).len(),
        2 * rows_of(s).len() <= s.len() + 2,
    decreases s.len(),
{
    lemma_occurrence_from(s, row_end(), 0);
    if let Some(i) = occurrence_from(s, row_end(), 0) {
        lemma_rows_fit(s.skip(i + 2));
    }
}

/// An occurrence in what is left of a text is one in the text, moved.
proof fn lemma_occurrence_skip(s: Seq<char>, p: Seq<char>, start: int, from: int)
    requires
        0 <= start <= s.len(),
        0 <= from,
    ensures
        match occurrence_from(s.skip(start), p, from) {
            Some(i) => occurrence_from(s, p, start + from) == Some(start + i),
            None => occurrence_from(s, p, start + from) is None,
        },
    decreases s.len() + 1 - from,
{
    let rest = s.skip(start);
    if from + p.len() <= rest.len() {
        assert(rest.subrange(from, from + p.len()) =~= s.subrange(
            start + from,
            start + from + p.len(),
        ));
        assert(occurs_at(rest, p, from) == occurs_at(s, p, start + from));
        if !occurs_at(rest, p, from) {
            lemma_occurrence_skip(s, p, start, from + 1);
        }
    }
}

/// The rows of a rendered text.
pub fn split_rows(s: &Vec<char>) -> (rows: Vec<Vec<char>>)
    ensures
        views(rows@) == rows_of(s@),
        rows@.len() >= 1,
{
    broadcast use lemma_views_push;

    let mut end: Vec<char> = Vec::new();
    end.push('\r');
    end.push('\n');
    assert(end@ =~= row_end());
    let mut rows: Vec<Vec<char>> = Vec::new();
    let mut start: usize = 0;
    assert(s@.skip(0) =~= s@);
    assert(views(rows@) + rows_of(s@) =~= rows_of(s@));
    loop
        invariant
            start <= s@.len(),
            end@ == row_end(),
            views(rows@) + rows_of(s@.skip(start as int)) == rows_of(s@),
        decreases s@.len() - start,
    {
        let ghost rest = s@.skip(start as int);
        let ghost before = views(rows@);
        proof {
            lemma_occurrence_skip(s@, row_end(), start as int, 0);
        }
        match find(s, &end, start) {
            None => {
                let row = cut(s, start, s.len());
                assert(row@ =~= rest);
                rows.push(row);
                assert(views(rows@) =~= before + seq![rest]);
                return rows;
            },
            Some(i) => {
                let row = cut(s, start, i);
                let ghost text = row@;
                assert(text =~= rest.take(i - start));
                rows.push(row);
                assert(i + end@.len() <= s@.len() && s@.len() == s.len());
                assert(rest.skip(i - start + 2) =~= s@.skip(i + 2));
                start = i + 2;
                assert(views(rows@) + rows_of(s@.skip(start as int)) =~= before + (seq![text]
                    + rows_of(s@.skip(start as int))));
            },
        }
    }
}

// ---------------------------------------------------------------- escape sequences

/// Where in a text with escape sequences one is.
#[derive(Debug, Clone, Copy, PartialEq, Eq, Structural)]
pub enum Scan {
    /// Outside of escape sequences.
    Text,
    /// Behind the escape character that begins a sequence.
    Escape,
    /// In a control sequence, which `[` begins.
    Control,
    /// In a command such as that of a hyperlink, which `]` begins, or in a string for a device,
    /// the terminal or a program.
    Command,
    /// Behind an escape character in a command.
    CommandEscape,
}

/// Where one is behind the next character. A control sequence runs to its final byte, a command
/// to the bell or to an escape character and a backslash; any other sequence to the first
/// character behind the escape character that is not one from space to slash.
pub open spec fn scanned(at: Scan, c: char) -> Scan {
    match at {
        Scan::Text => if c == '\u{1b}' {
            Scan::Escape
        } else {
            Scan::Text
        },
        Scan::Escape => if c == '[' {
            Scan::Control
        } else if c == ']' || c == 'P' || c == 'X' || c == '^' || c == '_' {
            Scan::Command
        } else if c == '\u{1b}' || ' ' <= c <= '/' {
            Scan::Escape
        } else {
            Scan::Text
        },
        Scan::Control => if c == '\u{1b}' {
            Scan::Escape
        } else if '@' <= c <= '~' {
            Scan::Text
        } else {
            Scan::Control
        },
        Scan::Command => if c == '\u{7}' {
            Scan::Text
        } else if c == '\u{1b}' {
            Scan::CommandEscape
        } else {
            Scan::Command
        },
        Scan::CommandEscape => if c == '\\' || c == '\u{7}' {
            Scan::Text
        } else if c == '\u{1b}' {
            Scan::CommandEscape
        } else {
            Scan::Command
        },
    }
}

/// What a text shows: everything but its escape sequences. One that does not end runs to the
/// text's end.
pub open spec fn plain(s: Seq<char>) -> Seq<char> {
    shown(s, Scan::Text)
}

/// What a text shows, where its beginning may lie within an escape sequence.
pub open spec fn shown(s: Seq<char>, at: Scan) -> Seq<char>
    decreases s.len(),
{
    if s.len() == 0 {
        s
    } else if at == Scan::Text && s[0] != '\u{1b}' {
        seq![s[0]] + shown(s.skip(1), Scan::Text)
    } else {
        shown(s.skip(1), scanned(at, s[0]))
    }
}

/// Whether a text's end lies outside its escape sequences.
pub open spec fn closes(s: Seq<char>, at: Scan) -> bool
    decreases s.len(),
{
    if s.len() == 0 {
        at == Scan::Text
    } else {
        closes(s.skip(1), scanned(at, s[0]))
    }
}

fn scan(at: Scan, c: char) -> (next: Scan)
    ensures
        next == scanned(at, c),
{
    match at {
        Scan::Text => if c == '\u{1b}' {
            Scan::Escape
        } else {
            Scan::Text
        },
        Scan::Escape => if c == '[' {
            Scan::Control
        } else if c == ']' || c == 'P' || c == 'X' || c == '^' || c == '_' {
            Scan::Command
        } else if c == '\u{1b}' || (' ' <= c && c <= '/') {
            Scan::Escape
        } else {
            Scan::Text
        },
        Scan::Control => if c == '\u{1b}' {
            Scan::Escape
        } else if '@' <= c && c <= '~' {
            Scan::Text
        } else {
            Scan::Control
        },
        Scan::Command => if c == '\u{7}' {
            Scan::Text
        } else if c == '\u{1b}' {
            Scan::CommandEscape
        } else {
            Scan::Command
        },
        Scan::CommandEscape => if c == '\\' || c == '\u{7}' {
            Scan::Text
        } else if c == '\u{1b}' {
            Scan::CommandEscape
        } else {
            Scan::Command
        },
    }
}

/// What a text shows.
pub fn strip_chars(s: &Vec<char>) -> (out: Vec<char>)
    ensures
        out@ == plain(s@),
{
    let mut out: Vec<char> = Vec::new();
    let mut at = Scan::Text;
    let mut i: usize = 0;
    assert(s@.skip(0) =~= s@);
    assert(out@ + shown(s@, Scan::Text) =~= plain(s@));
    while i < s.len()
        invariant
            i <= s@.len(),
            out@ + shown(s@.skip(i as int), at) == plain(s@),
        decreases s@.len() - i,
    {
        let c: char = s[i];
        let ghost before = out@;
        assert(s@.skip(i as int).skip(1) =~= s@.skip(i + 1));
        let next = scan(at, c);
        if at == Scan::Text && c != '\u{1b}' {
            out.push(c);
            assert(out@ + shown(s@.skip(i + 1), Scan::Text) =~= before + (seq![c] + shown(
                s@.skip(i + 1),
                Scan::Text,
            )));
        }
        at = next;
        i += 1;
    }
    assert(out@ + shown(s@.skip(i as int), at) =~= out@);
    out
}

/// Strip the escape sequences from a text, leaving what it shows.
pub fn strip_ansi_codes(s: &str) -> (r: String)
    ensures
        r@ == plain(s@),
{
    let chars = chars_of(s);
    let out = strip_chars(&chars);
    string_of(&out)
}

/// A stripped text holds no escape character.
pub proof fn law_plain_has_no_escapes(s: Seq<char>, at: Scan)
    ensures
        !shown(s, at).contains('\u{1b}'),
    decreases s.len(),
{
    if s.len() > 0 {
        if at == Scan::Text && s[0] != '\u{1b}' {
            law_plain_has_no_escapes(s.skip(1), Scan::Text);
            let rest = shown(s.skip(1), Scan::Text);
            assert forall|i: int| 0 <= i < (seq![s[0]] + rest).len() implies (seq![s[0]]
                + rest)[i] != '\u{1b}' by {
                if i > 0 {
                    assert((seq![s[0]] + rest)[i] == rest[i - 1]);
                }
            }
        } else {
            law_plain_has_no_escapes(s.skip(1), scanned(at, s[0]));
        }
    }
}

/// Text without escape characters is left as it is; so stripping twice is stripping once.
pub proof fn law_plain_text_unchanged(s: Seq<char>)
    requires
        !s.contains('\u{1b}'),
    ensures
        plain(s) == s,
    decreases s.len(),
{
    if s.len() > 0 {
        assert(s.contains(s[0]));
        assert forall|i: int| 0 <= i < s.skip(1).len() implies s.skip(1)[i] != '\u{1b}' by {
            assert(s.contains(s[i + 1]));
        }
        law_plain_text_unchanged(s.skip(1));
        assert(seq![s[0]] + s.skip(1) =~= s);
    }
}

// ---------------------------------------------------------------- colors

/// The escape sequence that sets a color: kind `38` the foreground, kind `48` the background.
/// Nothing for the terminal's own colors.
pub open spec fn color_escape(kind: Seq<char>, color: Color) -> Seq<char> {
    match color {
        Color::Rgb { r, g, b } => "\u{1b}["@ + kind + ";2;"@ + decimal(r as nat) + ";"@ + decimal(
            g as nat,
        ) + ";"@ + decimal(b as nat) + "m"@,
        _ => seq![],
    }
}

fn push_color(out: &mut Vec<char>, kind: &str, color: Color)
    ensures
        final(out)@ == old(out)@ + color_escape(kind@, color),
{
    let ghost start = out@;
    if let Color::Rgb { r, g, b } = color {
        push_str(out, "\u{1b}[");
        push_str(out, kind);
        push_str(out, ";2;");
        push_number(out, r as u64);
        push_str(out, ";");
        push_number(out, g as u64);
        push_str(out, ";");
        push_number(out, b as u64);
        push_str(out, "m");
    }
    assert(out@ =~= start + color_escape(kind@, color));
}

/// Put the ANSI escape that sets the background color behind a text.
pub fn push_bg(out: &mut Vec<char>, color: Color)
    ensures
        final(out)@ == old(out)@ + color_escape("48"@, color),
{
    push_color(out, "48", color);
}

/// Put the ANSI escape that sets the foreground color behind a text.
pub fn push_fg(out: &mut Vec<char>, color: Color)
    ensures
        final(out)@ == old(out)@ + color_escape("38"@, color),
{
    push_color(out, "38", color);
}

/// Return the ANSI escape to set the background color, or an empty string for the terminal's own
/// colors.
pub fn ansi_bg(color: Color) -> (s: String)
    ensures
        s@ == color_escape("48"@, color),
{
    let mut out: Vec<char> = Vec::new();
    push_bg(&mut out, color);
    assert(out@ =~= color_escape("48"@, color));
    string_of(&out)
}

/// Return the ANSI escape to set the foreground color, or an empty string for the terminal's own
/// colors.
pub fn ansi_fg(color: Color) -> (s: String)
    ensures
        s@ == color_escape("38"@, color),
{
    let mut out: Vec<char> = Vec::new();
    push_fg(&mut out, color);
    assert(out@ =~= color_escape("38"@, color));
    string_of(&out)
}

// ---------------------------------------------------------------- blank rows

/// The first position at or after `i` that is none of a control sequence's parameters.
pub open spec fn final_byte(s: Seq<char>, i: int) -> int
    decreases s.len() - i,
{
    if i < s.len() && !('@' <= s[i] <= '~') {
        final_byte(s, i + 1)
    } else {
        i
    }
}

/// The position behind the escape character at `i`, and behind the control sequence that it
/// begins, if a bracket follows it.
pub open spec fn escape_end(s: Seq<char>, i: int) -> int {
    if i + 1 < s.len() && s[i + 1] == '[' {
        let last = final_byte(s, i + 2);
        if last < s.len() {
            last + 1
        } else {
            last
        }
    } else {
        i + 1
    }
}

/// Where the next row begins, if nothing but escape sequences, spaces and tabs stands from `i`
/// to the row's end.
pub open spec fn blank_row_end(s: Seq<char>, i: int) -> Option<int>
    decreases s.len() - i,
    via blank_row_end_decreases
{
    if i >= s.len() {
        None
    } else if s[i] == '\u{1b}' {
        blank_row_end(s, escape_end(s, i))
    } else if s[i] == '\r' && i + 1 < s.len() && s[i + 1] == '\n' {
        Some(i + 2)
    } else if s[i] == ' ' || s[i] == '\t' {
        blank_row_end(s, i + 1)
    } else {
        None
    }
}

#[via_fn]
proof fn blank_row_end_decreases(s: Seq<char>, i: int) {
    lemma_final_byte(s, i + 2);
}

proof fn lemma_final_byte(s: Seq<char>, i: int)
    ensures
        i <= final_byte(s, i),
        i <= s.len() ==> final_byte(s, i) <= s.len(),
    decreases s.len() - i,
{
    if i < s.len() && !('@' <= s[i] <= '~') {
        lemma_final_byte(s, i + 1);
    }
}

proof fn lemma_blank_row_end(s: Seq<char>, i: int)
    ensures
        blank_row_end(s, i) matches Some(n) ==> i < n <= s.len(),
    decreases s.len() - i,
{
    if i < s.len() {
        if s[i] == '\u{1b}' {
            lemma_final_byte(s, i + 2);
            lemma_blank_row_end(s, escape_end(s, i));
        } else if s[i] == ' ' || s[i] == '\t' {
            lemma_blank_row_end(s, i + 1);
        }
    }
}

/// Where the first row that is not blank begins, from the row at `i` on.
pub open spec fn content_start(s: Seq<char>, i: int) -> int
    decreases s.len() - i,
    via content_start_decreases
{
    match blank_row_end(s, i) {
        Some(next) => content_start(s, next),
        None => i,
    }
}

#[via_fn]
proof fn content_start_decreases(s: Seq<char>, i: int) {
    lemma_blank_row_end(s, i);
}

fn find_blank_row_end(s: &Vec<char>, start: usize) -> (r: Option<usize>)
    requires
        start <= s@.len(),
    ensures
        match r {
            Some(n) => blank_row_end(s@, start as int) == Some(n as int) && start < n <= s@.len(),
            None => blank_row_end(s@, start as int) is None,
        },
{
    let len: usize = s.len();
    let mut i: usize = start;
    while i < len
        invariant
            start <= i <= len,
            len == s@.len(),
            blank_row_end(s@, i as int) == blank_row_end(s@, start as int),
        decreases len - i,
    {
        let c: char = s[i];
        if c == '\u{1b}' {
            let ghost from = i as int;
            i += 1;
            if i < len && s[i] == '[' {
                i += 1;
                let ghost first = i as int;
                while i < len && !('@' <= s[i] && s[i] <= '~')
                    invariant
                        first <= i <= len,
                        len == s@.len(),
                        final_byte(s@, i as int) == final_byte(s@, first),
                    decreases len - i,
                {
                    i += 1;
                }
                if i < len {
                    i += 1;
                }
            }
            assert(i == escape_end(s@, from));
        } else if c == '\r' && len - i > 1 && s[i + 1] == '\n' {
            return Some(i + 2);
        } else if c == ' ' || c == '\t' {
            i += 1;
        } else {
            return None;
        }
    }
    None
}

/// Strip leading blank lines from ANSI text.
pub fn strip_leading_blank_lines(s: &str) -> (r: String)
    ensures
        r@ == s@.skip(content_start(s@, 0)),
        0 <= content_start(s@, 0) <= s@.len(),
{
    string_of(&strip_blank_rows(&chars_of(s)))
}

/// Strip leading blank lines from ANSI text.
///
/// The markdown renderer may emit lines that contain only escape sequences and whitespace before
/// `\r\n`. These show up as blank rows in the terminal. This function strips all such leading
/// lines so content starts immediately.
pub fn strip_blank_rows(s: &Vec<char>) -> (r: Vec<char>)
    ensures
        r@ == s@.skip(content_start(s@, 0)),
        0 <= content_start(s@, 0) <= s@.len(),
{
    let mut start: usize = 0;
    loop
        invariant
            start <= s@.len(),
            content_start(s@, start as int) == content_start(s@, 0),
        decreases s@.len() - start,
    {
        match find_blank_row_end(s, start) {
            Some(next) => {
                start = next;
            },
            None => {
                let r = cut(s, start, s.len());
                assert(r@ =~= s@.skip(start as int));
                return r;
            },
        }
    }
}

/// Text that was stripped of leading blank rows begins with none.
pub proof fn law_no_leading_blank_row(s: Seq<char>)
    requires
        0 <= content_start(s, 0) <= s.len(),
    ensures
        blank_row_end(s.skip(content_start(s, 0)), 0) is None,
{
    lemma_content_start(s, 0);
    let start = content_start(s, 0);
    lemma_blank_row_moved(s, start, 0);
}

proof fn lemma_content_start(s: Seq<char>, i: int)
    ensures
        blank_row_end(s, content_start(s, i)) is None,
    decreases s.len() - i,
{
    lemma_blank_row_end(s, i);
    if let Some(next) = blank_row_end(s, i) {
        lemma_content_start(s, next);
    }
}

proof fn lemma_final_byte_moved(s: Seq<char>, start: int, i: int)
    requires
        0 <= start <= s.len(),
        0 <= i,
    ensures
        final_byte(s.skip(start), i) == final_byte(s, start + i) - start,
    decreases s.len() - start - i,
{
    let rest = s.skip(start);
    if i < rest.len() {
        assert(rest[i] == s[start + i]);
        if !('@' <= rest[i] <= '~') {
            lemma_final_byte_moved(s, start, i + 1);
        }
    }
}

proof fn lemma_blank_row_moved(s: Seq<char>, start: int, i: int)
    requires
        0 <= start <= s.len(),
        0 <= i,
    ensures
        (blank_row_end(s.skip(start), i) is None) == (blank_row_end(s, start + i) is None),
    decreases s.len() - start - i,
{
    let rest = s.skip(start);
    if i < rest.len() {
        assert(rest[i] == s[start + i]);
        if i + 1 < rest.len() {
            assert(rest[i + 1] == s[start + i + 1]);
        }
        if rest[i] == '\u{1b}' {
            lemma_final_byte_moved(s, start, i + 2);
            lemma_final_byte(rest, i + 2);
            lemma_final_byte(s, start + i + 2);
            assert(escape_end(rest, i) == escape_end(s, start + i) - start);
            lemma_blank_row_moved(s, start, escape_end(rest, i));
        } else if rest[i] == ' ' || rest[i] == '\t' {
            lemma_blank_row_moved(s, start, i + 1);
        }
    }
}

/// A text without escape characters is kept before whatever follows it.
pub proof fn law_text_is_shown(text: Seq<char>, rest: Seq<char>)
    requires
        !text.contains('\u{1b}'),
    ensures
        plain(text + rest) == text + plain(rest),
    decreases text.len(),
{
    if text.len() == 0 {
        assert(text + rest =~= rest);
        assert(text + plain(rest) =~= plain(rest));
    } else {
        let s = text + rest;
        assert(text.contains(text[0]));
        assert(s.skip(1) =~= text.skip(1) + rest);
        assert forall|i: int| 0 <= i < text.skip(1).len() implies text.skip(1)[i] != '\u{1b}' by {
            assert(text.contains(text[i + 1]));
        }
        law_text_is_shown(text.skip(1), rest);
        assert(seq![text[0]] + (text.skip(1) + plain(rest)) =~= text + plain(rest));
    }
}

/// A control sequence is not shown: an escape character, a bracket, parameters, and a final
/// character from `@` to `~`.
pub proof fn law_control_sequences_are_not_shown(params: Seq<char>, last: char, rest: Seq<char>)
    requires
        forall|i: int|
            0 <= i < params.len() ==> !('@' <= #[trigger] params[i] <= '~') && params[i]
                != '\u{1b}',
        '@' <= last <= '~',
    ensures
        plain(seq!['\u{1b}', '['] + params + seq![last] + rest) == plain(rest),
{
    let s = seq!['\u{1b}', '['] + params + seq![last] + rest;
    let tail = params + seq![last] + rest;
    assert(s.skip(1).skip(1) =~= tail);
    assert(s.skip(1)[0] == '[');
    reveal_with_fuel(shown, 3);
    lemma_params_skipped(params, last, rest);
}

proof fn lemma_params_skipped(params: Seq<char>, last: char, rest: Seq<char>)
    requires
        forall|i: int|
            0 <= i < params.len() ==> !('@' <= #[trigger] params[i] <= '~') && params[i]
                != '\u{1b}',
        '@' <= last <= '~',
    ensures
        shown(params + seq![last] + rest, Scan::Control) == plain(rest),
    decreases params.len(),
{
    let s = params + seq![last] + rest;
    if params.len() == 0 {
        assert(s[0] == last);
        assert(s.skip(1) =~= rest);
    } else {
        assert(s[0] == params[0]);
        assert(s.skip(1) =~= params.skip(1) + seq![last] + rest);
        lemma_params_skipped(params.skip(1), last, rest);
    }
}

/// Nor is a command, as that of a hyperlink, up to the bell or the escape sequence that ends it.
pub proof fn law_commands_are_not_shown(text: Seq<char>, rest: Seq<char>)
    requires
        forall|i: int|
            0 <= i < text.len() ==> #[trigger] text[i] != '\u{1b}' && text[i] != '\u{7}',
    ensures
        plain(seq!['\u{1b}', ']'] + text + seq!['\u{7}'] + rest) == plain(rest),
        plain(seq!['\u{1b}', ']'] + text + seq!['\u{1b}', '\\'] + rest) == plain(rest),
{
    let s = seq!['\u{1b}', ']'] + text + seq!['\u{7}'] + rest;
    let t = seq!['\u{1b}', ']'] + text + seq!['\u{1b}', '\\'] + rest;
    assert(s.skip(1).skip(1) =~= text + (seq!['\u{7}'] + rest));
    assert(t.skip(1).skip(1) =~= text + (seq!['\u{1b}', '\\'] + rest));
    assert(s.skip(1)[0] == ']' && t.skip(1)[0] == ']');
    reveal_with_fuel(shown, 3);
    lemma_command_skipped(text, seq!['\u{7}'] + rest);
    lemma_command_skipped(text, seq!['\u{1b}', '\\'] + rest);
    let a = seq!['\u{7}'] + rest;
    let b = seq!['\u{1b}', '\\'] + rest;
    assert(a.skip(1) =~= rest);
    assert(b.skip(1).skip(1) =~= rest);
    assert(b.skip(1)[0] == '\\');
}

proof fn lemma_command_skipped(text: Seq<char>, rest: Seq<char>)
    requires
        forall|i: int|
            0 <= i < text.len() ==> #[trigger] text[i] != '\u{1b}' && text[i] != '\u{7}',
    ensures
        shown(text + rest, Scan::Command) == shown(rest, Scan::Command),
    decreases text.len(),
{
    let s = text + rest;
    if text.len() == 0 {
        assert(s =~= rest);
    } else {
        assert(s[0] == text[0]);
        assert(s.skip(1) =~= text.skip(1) + rest);
        lemma_command_skipped(text.skip(1), rest);
    }
}

/// A color is set by its three parts; the terminal's own ones by nothing.
pub proof fn law_color_escapes(kind: Seq<char>, r: u8, g: u8, b: u8)
    ensures
        color_escape(kind, Color::Rgb { r, g, b }) == seq!['\u{1b}', '['] + kind + seq![
            ';',
            '2',
            ';',
        ] + decimal(r as nat) + seq![';'] + decimal(g as nat) + seq![';'] + decimal(b as nat)
            + seq!['m'],
        color_escape(kind, Color::Reset).len() == 0,
        color_escape(kind, Color::White).len() == 0,
        color_escape(kind, Color::DarkGrey).len() == 0,
{
    reveal_strlit("\u{1b}[");
    reveal_strlit(";2;");
    reveal_strlit(";");
    reveal_strlit("m");
    assert("\u{1b}["@ =~= seq!['\u{1b}', '[']);
    assert(";2;"@ =~= seq![';', '2', ';']);
    assert(";"@ =~= seq![';']);
    assert("m"@ =~= seq!['m']);
}

/// The rows of a rendered text end in a carriage return and a line feed.
pub proof fn law_rows(row: Seq<char>, rest: Seq<char>)
    requires
        !holds(row, seq!['\r', '\n']),
    ensures
        rows_of(row + seq!['\r', '\n'] + rest) == seq![row] + rows_of(rest),
        rows_of(row) == seq![row],
{
    let s = row + seq!['\r', '\n'] + rest;
    let n = row.len() as int;
    lemma_occurrence_from(row, row_end(), 0);
    assert forall|j: int| 0 <= j < n implies !#[trigger] occurs_at(s, row_end(), j) by {
        if occurs_at(s, row_end(), j) {
            lemma_not_before(row, rest, j);
        }
    }
    assert(s.subrange(n, n + 2) =~= row_end());
    lemma_first_row(s, n);
    assert(s.take(n) =~= row);
    assert(s.skip(n + 2) =~= rest);
}

proof fn lemma_not_before(row: Seq<char>, rest: Seq<char>, j: int)
    requires
        0 <= j < row.len(),
        !occurs_at(row, row_end(), j),
    ensures
        !occurs_at(row + seq!['\r', '\n'] + rest, row_end(), j),
{
    let s = row + seq!['\r', '\n'] + rest;
    let t = s.subrange(j, j + 2);
    if j + 1 < row.len() {
        assert(t =~= row.subrange(j, j + 2));
    } else {
        assert(t[1] == s[j + 1]);
        assert(row_end()[1] == '\n');
    }
}

proof fn lemma_first_row(s: Seq<char>, n: int)
    requires
        0 <= n,
        occurs_at(s, row_end(), n),
        forall|j: int| 0 <= j < n ==> !#[trigger] occurs_at(s, row_end(), j),
    ensures
        rows_of(s) == seq![s.take(n)] + rows_of(s.skip(n + 2)),
{
    lemma_occurrence_from(s, row_end(), 0);
}

/// Rows of blanks before the content are taken away, and what follows begins with the first row
/// that has more.
pub proof fn law_leading_blank_rows(blanks: Seq<char>, rest: Seq<char>)
    requires
        forall|i: int| 0 <= i < blanks.len() ==> #[trigger] blanks[i] == ' ' || blanks[i] == '\t',
    ensures
        blank_row_end(blanks + seq!['\r', '\n'] + rest, 0) == Some(blanks.len() as int + 2),
        rest.len() > 0 && rest[0] != ' ' && rest[0] != '\t' && rest[0] != '\r' && rest[0]
            != '\u{1b}' ==> content_start(rest, 0) == 0,
{
    let s = blanks + seq!['\r', '\n'] + rest;
    lemma_blanks_skipped(s, blanks.len() as int, 0);
}

proof fn lemma_blanks_skipped(s: Seq<char>, n: int, i: int)
    requires
        0 <= i <= n,
        n + 1 < s.len(),
        forall|j: int| 0 <= j < n ==> #[trigger] s[j] == ' ' || s[j] == '\t',
        s[n] == '\r',
        s[n + 1] == '\n',
    ensures
        blank_row_end(s, i) == Some(n + 2),
    decreases n - i,
{
    if i < n {
        assert(s[i] == ' ' || s[i] == '\t');
        lemma_blanks_skipped(s, n, i + 1);
    }
}

/// Strings for a device, the terminal or a program are not shown either.
pub proof fn law_strings_are_not_shown(kind: char, text: Seq<char>, rest: Seq<char>)
    requires
        seq!['P', 'X', '^', '_', ']'].contains(kind),
        forall|i: int|
            0 <= i < text.len() ==> #[trigger] text[i] != '\u{1b}' && text[i] != '\u{7}',
    ensures
        plain(seq!['\u{1b}', kind] + text + seq!['\u{7}'] + rest) == plain(rest),
        plain(seq!['\u{1b}', kind] + text + seq!['\u{1b}', '\\'] + rest) == plain(rest),
        plain(seq!['\u{1b}', kind] + text).len() == 0,
{
    let s = seq!['\u{1b}', kind] + text + seq!['\u{7}'] + rest;
    let t = seq!['\u{1b}', kind] + text + seq!['\u{1b}', '\\'] + rest;
    let u = seq!['\u{1b}', kind] + text;
    let a = seq!['\u{7}'] + rest;
    let b = seq!['\u{1b}', '\\'] + rest;
    let none = Seq::<char>::empty();
    assert(s.skip(1).skip(1) =~= text + a);
    assert(t.skip(1).skip(1) =~= text + b);
    assert(u.skip(1).skip(1) =~= text + none);
    assert(s.skip(1)[0] == kind && t.skip(1)[0] == kind && u.skip(1)[0] == kind);
    reveal_with_fuel(shown, 3);
    lemma_command_skipped(text, a);
    lemma_command_skipped(text, b);
    lemma_command_skipped(text, none);
    assert(a.skip(1) =~= rest);
    assert(b.skip(1).skip(1) =~= rest);
    assert(b.skip(1)[0] == '\\');
}

/// A short escape sequence is not shown: the escape character, signs from space to slash, and one
/// character more that begins nothing longer.
pub proof fn law_short_sequences_are_not_shown(signs: Seq<char>, last: char, rest: Seq<char>)
    requires
        forall|i: int| 0 <= i < signs.len() ==> ' ' <= #[trigger] signs[i] <= '/',
        !(' ' <= last <= '/'),
        !seq!['[', 'P', 'X', '^', '_', ']', '\u{1b}'].contains(last),
    ensures
        plain(seq!['\u{1b}'] + signs + seq![last] + rest) == plain(rest),
{
    let s = seq!['\u{1b}'] + signs + seq![last] + rest;
    let special = seq!['[', 'P', 'X', '^', '_', ']', '\u{1b}'];
    assert(special[0] == '[' && special[1] == 'P' && special[2] == 'X' && special[3] == '^'
        && special[4] == '_' && special[5] == ']' && special[6] == '\u{1b}');
    assert(s.skip(1) =~= signs + (seq![last] + rest));
    lemma_signs_skipped(signs, seq![last] + rest);
    assert((seq![last] + rest).skip(1) =~= rest);
}

proof fn lemma_signs_skipped(signs: Seq<char>, rest: Seq<char>)
    requires
        forall|i: int| 0 <= i < signs.len() ==> ' ' <= #[trigger] signs[i] <= '/',
    ensures
        shown(signs + rest, Scan::Escape) == shown(rest, Scan::Escape),
    decreases signs.len(),
{
    let s = signs + rest;
    if signs.len() == 0 {
        assert(s =~= rest);
    } else {
        assert(s[0] == signs[0]);
        assert(s.skip(1) =~= signs.skip(1) + rest);
        lemma_signs_skipped(signs.skip(1), rest);
    }
}

/// An escape character within a control sequence begins another one, and so does one behind
/// another; within a command it does not, unless it ends the command.
pub proof fn law_broken_sequences(c: char, rest: Seq<char>)
    requires
        c != '\\',
        c != '\u{7}',
        c != '\u{1b}',
    ensures
        plain(seq!['\u{1b}', '[', '\u{1b}'] + rest) == plain(seq!['\u{1b}'] + rest),
        plain(seq!['\u{1b}', '\u{1b}'] + rest) == plain(seq!['\u{1b}'] + rest),
        plain(seq!['\u{1b}', ']', '\u{1b}', c] + rest) == plain(seq!['\u{1b}', ']'] + rest),
        plain(seq!['\u{1b}', ']', '\u{1b}', '\u{7}'] + rest) == plain(rest),
        plain(seq!['\u{1b}', ']', '\u{1b}', '\u{1b}'] + rest) == plain(
            seq!['\u{1b}', ']', '\u{1b}'] + rest,
        ),
{
    reveal_with_fuel(shown, 5);
    let one = seq!['\u{1b}'] + rest;
    let s = seq!['\u{1b}', '[', '\u{1b}'] + rest;
    assert(one.skip(1) =~= rest);
    assert(s.skip(1).skip(1).skip(1) =~= rest);
    assert(s.skip(1)[0] == '[' && s.skip(1).skip(1)[0] == '\u{1b}');
    let t = seq!['\u{1b}', '\u{1b}'] + rest;
    assert(t.skip(1).skip(1) =~= rest);
    assert(t.skip(1)[0] == '\u{1b}');
    let u = seq!['\u{1b}', ']', '\u{1b}', c] + rest;
    let v = seq!['\u{1b}', ']'] + rest;
    assert(v.skip(1).skip(1) =~= rest);
    assert(v.skip(1)[0] == ']');
    assert(u.skip(1).skip(1).skip(1).skip(1) =~= rest);
    assert(u.skip(1)[0] == ']' && u.skip(1).skip(1)[0] == '\u{1b}' && u.skip(1).skip(1).skip(1)[0]
        == c);
    let w = seq!['\u{1b}', ']', '\u{1b}', '\u{7}'] + rest;
    assert(w.skip(1).skip(1).skip(1).skip(1) =~= rest);
    assert(w.skip(1)[0] == ']' && w.skip(1).skip(1)[0] == '\u{1b}' && w.skip(1).skip(1).skip(1)[0]
        == '\u{7}');
    let x = seq!['\u{1b}', ']', '\u{1b}', '\u{1b}'] + rest;
    let y = seq!['\u{1b}', ']', '\u{1b}'] + rest;
    assert(x.skip(1).skip(1).skip(1).skip(1) =~= rest);
    assert(x.skip(1)[0] == ']' && x.skip(1).skip(1)[0] == '\u{1b}' && x.skip(1).skip(1).skip(1)[0]
        == '\u{1b}');
    assert(y.skip(1).skip(1).skip(1) =~= rest);
    assert(y.skip(1)[0] == ']' && y.skip(1).skip(1)[0] == '\u{1b}');
}

} // verus!
