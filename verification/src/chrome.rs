//! What is drawn around the content: header, footer, table of contents, prompt, warnings.

use vstd::prelude::*;
use vstd::utf8::{decode_utf8, encode_utf8, encode_utf8_decode_utf8, is_char_boundary};

use crate::headings::{heading_views, Heading, HeadingView};
use crate::paint::{
    all_drawn_on, capped_sum, draw, drawn_on, empty_terminal, lemma_drawn_add, lemma_drawn_push,
    paint_views, plain_pen, print, print_spaces, width, width_of, Paint, PaintView, Pen, Piece,
    Terminal,
};
use crate::search::SearchState;
use crate::text::{
    chars_of, decimal, push_chars, push_number, push_repeated, push_str, repeated, string_of,
};
use crate::theme::{tinted, Color, Theme, MIN_TERM_HEIGHT, MIN_TERM_WIDTH};

verus! {

/// Horizontal padding (spaces) on each side of header, content, and footer.
pub const SIDE_PAD: u16 = 2;

/// `n` spaces, printed.
pub open spec fn spaces(n: int) -> PaintView {
    PaintView::Print(repeated(' ', n as nat))
}

/// What is left of `a` once `b` is taken away; nothing if that is more.
pub open spec fn left_over(a: int, b: int) -> int {
    if a > b {
        a - b
    } else {
        0
    }
}

// ---------------------------------------------------------------- header

/// The columns that the header takes up before the file's name.
pub open spec fn header_used(version: Seq<char>) -> int {
    SIDE_PAD + width_of("REED"@) + width_of(version) + width_of("  \u{2502}  "@)
}

/// The columns that the header has for the file's name.
pub open spec fn name_room(cols: u16, version: Seq<char>) -> int {
    left_over(cols as int, header_used(version) + SIDE_PAD)
}

/// Whether a file's name can be cut to `room` bytes: it need not be, or a character begins
/// where the cut is.
pub open spec fn can_cut_name(filename: Seq<char>, room: int) -> bool {
    let bytes = encode_utf8(filename);
    bytes.len() > room ==> is_char_boundary(bytes, bytes.len() - room)
}

/// A file's name, or as much of its end as fits into `room` bytes.
pub open spec fn name_shown(filename: Seq<char>, room: int) -> Seq<char> {
    let bytes = encode_utf8(filename);
    if bytes.len() > room {
        decode_utf8(bytes.subrange(bytes.len() - room, bytes.len() as int))
    } else {
        filename
    }
}

/// The place of the file among the open ones, where there are several.
pub open spec fn buffer_indicator(info: Option<(usize, usize)>) -> Seq<char> {
    match info {
        Some((current, total)) => if total > 1 {
            " ["@ + decimal(current as nat) + "/"@ + decimal(total as nat) + "]"@
        } else {
            seq![]
        },
        None => seq![],
    }
}

/// The header: title, version, the file's name and its place among the open ones.
pub open spec fn header(
    cols: u16,
    theme: Theme,
    version: Seq<char>,
    filename: Seq<char>,
    info: Option<(usize, usize)>,
) -> Seq<PaintView> {
    let name = name_shown(filename, name_room(cols, version));
    let indicator = buffer_indicator(info);
    let used = header_used(version) + width_of(name) + indicator.len();
    seq![
        PaintView::MoveTo(0, 0),
        PaintView::ResetAttributes,
        PaintView::Fg(theme.header_fg),
        PaintView::Bg(theme.header_bg),
        spaces(SIDE_PAD as int),
        PaintView::Fg(theme.title),
        PaintView::Bold,
        PaintView::Print("REED"@),
        PaintView::NormalIntensity,
        PaintView::Fg(theme.header_fg),
        PaintView::Fg(theme.muted),
        PaintView::Print(version),
        PaintView::Fg(theme.header_fg),
        PaintView::Fg(theme.border),
        PaintView::Print("  \u{2502}  "@),
        PaintView::Fg(theme.header_fg),
        PaintView::Print(name),
    ] + (if indicator.len() > 0 {
        seq![
            PaintView::Fg(theme.muted),
            PaintView::Print(indicator),
            PaintView::Fg(theme.header_fg),
        ]
    } else {
        seq![]
    }) + (if used < cols {
        seq![spaces(cols - used)]
    } else {
        seq![]
    }) + seq![PaintView::ResetColor]
}

fn room_for_name(cols: u16, version: &str) -> (r: (usize, usize))
    ensures
        r.0 == if header_used(version@) > usize::MAX {
            usize::MAX as int
        } else {
            header_used(version@)
        },
        r.1 == name_room(cols, version@),
        r.1 <= cols,
{
    let a: usize = capped_sum(SIDE_PAD as usize, width("REED"));
    let b: usize = capped_sum(a, width(version));
    let used: usize = capped_sum(b, width("  \u{2502}  "));
    let taken: usize = capped_sum(used, SIDE_PAD as usize);
    let room: usize = if cols as usize > taken {
        cols as usize - taken
    } else {
        0
    };
    (used, room)
}

fn cut_name(filename: &str, room: usize) -> (name: String)
    requires
        can_cut_name(filename@, room as int),
    ensures
        name@ == name_shown(filename@, room as int),
{
    let n: usize = filename.as_bytes().len();
    if n > room {
        let (_, tail) = filename.split_at(n - room);
        proof {
            encode_utf8_decode_utf8(tail@);
        }
        tail.to_owned()
    } else {
        filename.to_owned()
    }
}

/// Whether a file's name can be cut to fit into the header.
pub fn can_draw_header(cols: u16, version: &str, filename: &str) -> (r: bool)
    ensures
        r == can_cut_name(filename@, name_room(cols, version@)),
{
    let (_, room) = room_for_name(cols, version);
    let n: usize = filename.as_bytes().len();
    n <= room || filename.is_char_boundary(n - room)
}

fn indicator_of(info: Option<(usize, usize)>) -> (s: Vec<char>)
    ensures
        s@ == buffer_indicator(info),
{
    let mut s: Vec<char> = Vec::new();
    match info {
        Some((current, total)) => {
            if total > 1 {
                push_str(&mut s, " [");
                push_number(&mut s, current as u64);
                push_str(&mut s, "/");
                push_number(&mut s, total as u64);
                push_str(&mut s, "]");
            }
        },
        None => {},
    }
    assert(s@ =~= buffer_indicator(info));
    s
}

/// Draw the header.
pub fn draw_header(
    cols: u16,
    theme: &Theme,
    version: &str,
    filename: &str,
    buffer_info: Option<(usize, usize)>,
) -> (out: Vec<Paint>)
    requires
        can_cut_name(filename@, name_room(cols, version@)),
    ensures
        paint_views(out@) == header(cols, *theme, version@, filename@, buffer_info),
{
    let mut out: Vec<Paint> = Vec::new();
    draw(&mut out, Paint::MoveTo(0, 0));
    draw(&mut out, Paint::ResetAttributes);
    draw(&mut out, Paint::Fg(theme.header_fg));
    draw(&mut out, Paint::Bg(theme.header_bg));
    print_spaces(&mut out, SIDE_PAD as usize);
    draw(&mut out, Paint::Fg(theme.title));
    draw(&mut out, Paint::Bold);
    print(&mut out, "REED");
    draw(&mut out, Paint::NormalIntensity);
    draw(&mut out, Paint::Fg(theme.header_fg));
    draw(&mut out, Paint::Fg(theme.muted));
    print(&mut out, version);
    draw(&mut out, Paint::Fg(theme.header_fg));
    draw(&mut out, Paint::Fg(theme.border));
    print(&mut out, "  \u{2502}  ");
    draw(&mut out, Paint::Fg(theme.header_fg));
    let (used, room) = room_for_name(cols, version);
    let name = cut_name(filename, room);
    print(&mut out, name.as_str());
    let indicator = indicator_of(buffer_info);
    if indicator.len() > 0 {
        draw(&mut out, Paint::Fg(theme.muted));
        print(&mut out, string_of(&indicator).as_str());
        draw(&mut out, Paint::Fg(theme.header_fg));
    }
    let with_name: usize = capped_sum(used, width(name.as_str()));
    let total: usize = capped_sum(with_name, indicator.len());
    if total < cols as usize {
        print_spaces(&mut out, cols as usize - total);
    }
    draw(&mut out, Paint::ResetColor);
    assert(paint_views(out@) =~= header(cols, *theme, version@, filename@, buffer_info));
    out
}

// ---------------------------------------------------------------- footer

/// The key hints of the footer: key, description, separator, and so on.
pub const HINTS: [&'static str; 17] = [
    "j/k ",
    "Scroll ",
    "\u{2502}",
    " / ",
    "Search ",
    "\u{2502}",
    " Tab ",
    "TOC ",
    "\u{2502}",
    " l ",
    "Links ",
    "\u{2502}",
    " t/T ",
    "Theme ",
    "\u{2502}",
    " q ",
    "Quit",
];

/// How a key hint is drawn.
pub open spec fn hint(i: int, theme: Theme) -> Seq<PaintView> {
    let text = PaintView::Print(HINTS@[i]@);
    if i % 3 == 0 {
        seq![PaintView::Fg(theme.accent), PaintView::Bold, text, PaintView::NormalIntensity]
    } else if i % 3 == 1 {
        seq![PaintView::Fg(theme.fg), text]
    } else {
        seq![PaintView::Fg(theme.muted), text]
    }
}

/// The first `n` key hints.
pub open spec fn hints(n: int, theme: Theme) -> Seq<PaintView>
    decreases n,
{
    if n <= 0 {
        seq![]
    } else {
        hints(n - 1, theme) + hint(n - 1, theme)
    }
}

/// The columns that the first `n` key hints take up.
pub open spec fn hints_width(n: int) -> int
    decreases n,
{
    if n <= 0 {
        0
    } else {
        hints_width(n - 1) + width_of(HINTS@[n - 1]@)
    }
}

/// What the footer says of the search: the query, and which of how many matches is current.
pub open spec fn search_info(search: SearchState) -> Seq<char> {
    if search.query@.len() == 0 {
        seq![]
    } else if search.match_rows@.len() == 0 {
        "[/"@ + search.query@ + ": no matches] "@
    } else {
        "[/"@ + search.query@ + ": "@ + decimal((search.current + 1) as nat) + "/"@ + decimal(
            search.match_rows@.len(),
        ) + "] "@
    }
}

/// The footer: key hints to the left, the search and the theme's name to the right.
pub open spec fn footer(row: u16, cols: u16, theme: Theme, search: SearchState) -> Seq<PaintView> {
    let info = search_info(search);
    let right = info + theme.name@ + repeated(' ', SIDE_PAD as nat);
    let used = SIDE_PAD + hints_width(17) + width_of(right);
    seq![
        PaintView::MoveTo(0, row),
        PaintView::ResetAttributes,
        PaintView::Fg(theme.fg),
        PaintView::Bg(theme.bg),
        spaces(SIDE_PAD as int),
    ] + hints(17, theme) + seq![PaintView::Fg(theme.fg), spaces(left_over(cols as int, used))] + (
    if info.len() > 0 {
        seq![PaintView::Fg(theme.accent), PaintView::Print(info)]
    } else {
        seq![]
    }) + seq![PaintView::Fg(theme.heading), PaintView::Print(right), PaintView::ResetColor]
}

proof fn lemma_hints_width(n: int)
    ensures
        hints_width(n) >= 0,
    decreases n,
{
    if n > 0 {
        lemma_hints_width(n - 1);
    }
}

fn info_of(search: &SearchState) -> (s: Vec<char>)
    requires
        search.wf(),
    ensures
        s@ == search_info(*search),
{
    let mut s: Vec<char> = Vec::new();
    if !search.query.as_str().is_empty() {
        push_str(&mut s, "[/");
        push_str(&mut s, search.query.as_str());
        if search.match_rows.len() == 0 {
            push_str(&mut s, ": no matches] ");
        } else {
            let n: usize = search.match_rows.len();
            push_str(&mut s, ": ");
            push_number(&mut s, (search.current + 1) as u64);
            push_str(&mut s, "/");
            push_number(&mut s, n as u64);
            push_str(&mut s, "] ");
        }
    }
    assert(s@ =~= search_info(*search));
    s
}

/// Draw the footer.
pub fn draw_footer(row: u16, cols: u16, theme: &Theme, search: &SearchState) -> (out: Vec<Paint>)
    requires
        search.wf(),
    ensures
        paint_views(out@) == footer(row, cols, *theme, *search),
{
    let mut out: Vec<Paint> = Vec::new();
    draw(&mut out, Paint::MoveTo(0, row));
    draw(&mut out, Paint::ResetAttributes);
    draw(&mut out, Paint::Fg(theme.fg));
    draw(&mut out, Paint::Bg(theme.bg));
    print_spaces(&mut out, SIDE_PAD as usize);
    let ghost start = paint_views(out@);
    let texts: [&'static str; 17] = HINTS;
    let mut used: usize = SIDE_PAD as usize;
    let mut i: usize = 0;
    assert(start =~= start + hints(0, *theme));
    while i < 17
        invariant
            i <= 17,
            texts == HINTS,
            paint_views(out@) == start + hints(i as int, *theme),
            used == if SIDE_PAD + hints_width(i as int) > usize::MAX {
                usize::MAX as int
            } else {
                SIDE_PAD + hints_width(i as int)
            },
        decreases 17 - i,
    {
        let ghost before = paint_views(out@);
        let text = texts[i];
        if i % 3 == 0 {
            draw(&mut out, Paint::Fg(theme.accent));
            draw(&mut out, Paint::Bold);
            print(&mut out, text);
            draw(&mut out, Paint::NormalIntensity);
        } else if i % 3 == 1 {
            draw(&mut out, Paint::Fg(theme.fg));
            print(&mut out, text);
        } else {
            draw(&mut out, Paint::Fg(theme.muted));
            print(&mut out, text);
        }
        used = capped_sum(used, width(text));
        assert(paint_views(out@) =~= before + hint(i as int, *theme));
        assert(paint_views(out@) =~= start + (hints(i as int, *theme) + hint(i as int, *theme)));
        i += 1;
    }
    let info = info_of(search);
    let mut right_chars: Vec<char> = Vec::new();
    push_chars(&mut right_chars, &info);
    push_str(&mut right_chars, theme.name.as_str());
    push_repeated(&mut right_chars, ' ', SIDE_PAD as usize);
    let right = string_of(&right_chars);
    assert(right@ =~= search_info(*search) + theme.name@ + repeated(' ', SIDE_PAD as nat));
    proof {
        lemma_hints_width(17);
    }
    let total: usize = capped_sum(used, width(right.as_str()));
    let middle: usize = if cols as usize > total {
        cols as usize - total
    } else {
        0
    };
    draw(&mut out, Paint::Fg(theme.fg));
    print_spaces(&mut out, middle);
    if info.len() > 0 {
        draw(&mut out, Paint::Fg(theme.accent));
        print(&mut out, string_of(&info).as_str());
    }
    draw(&mut out, Paint::Fg(theme.heading));
    print(&mut out, right.as_str());
    draw(&mut out, Paint::ResetColor);
    assert(paint_views(out@) =~= footer(row, cols, *theme, *search));
    out
}

// ---------------------------------------------------------------- table of contents

/// Width of the separator column between the table of contents and the content.
pub const TOC_SEP_WIDTH: usize = 1;

/// The first heading shown: the list is scrolled to keep the current heading in its middle.
pub open spec fn toc_scroll(total: int, content_rows: int, current: int) -> int {
    let half = content_rows / 2;
    if total <= content_rows || current < half {
        0
    } else if current + half >= total {
        total - content_rows
    } else {
        current - half
    }
}

/// How far a heading is indented: two columns per level below the first, six at most.
pub open spec fn toc_indent(level: int) -> int {
    if level <= 1 {
        0
    } else if level >= 4 {
        6
    } else {
        (level - 1) * 2
    }
}

/// Whether a heading's text can be cut to `room` bytes: it need not be, or a character begins
/// where the cut is.
pub open spec fn can_cut_heading(text: Seq<char>, room: int) -> bool {
    encode_utf8(text).len() > room ==> is_char_boundary(encode_utf8(text), left_over(room, 1))
}

/// A heading's text, or as much of its beginning as fits with an ellipsis into `room`.
pub open spec fn heading_shown(text: Seq<char>, room: int) -> Seq<char> {
    if encode_utf8(text).len() > room {
        decode_utf8(encode_utf8(text).subrange(0, left_over(room, 1))) + "…"@
    } else {
        text
    }
}

/// The bytes that a heading's text has in the table of contents.
pub open spec fn heading_room(h: HeadingView, toc_width: int) -> int {
    left_over(left_over(toc_width, 2), toc_indent(h.level))
}

/// The heading that a row of the table of contents is for, counted from the first; behind the
/// last one rows are empty.
pub open spec fn toc_index(
    total: int,
    screen_row: int,
    content_rows: int,
    current: Option<usize>,
) -> int {
    toc_scroll(
        total,
        content_rows,
        match current {
            Some(c) => c as int,
            None => 0,
        },
    ) + screen_row
}

/// Whether a row of the table of contents can be shown: the text of its heading, if it has one,
/// can be cut to fit.
pub open spec fn can_show_row(
    headings: Seq<HeadingView>,
    screen_row: int,
    toc_width: int,
    content_rows: int,
    current: Option<usize>,
) -> bool {
    let i = toc_index(headings.len() as int, screen_row, content_rows, current);
    i < headings.len() ==> can_cut_heading(headings[i].text, heading_room(headings[i], toc_width))
}

/// Whether every row of the table of contents that is on the screen can be shown.
pub open spec fn can_show_headings(
    headings: Seq<HeadingView>,
    toc_width: int,
    content_rows: int,
    current: Option<usize>,
) -> bool {
    forall|row: int|
        0 <= row < content_rows ==> #[trigger] can_show_row(
            headings,
            row,
            toc_width,
            content_rows,
            current,
        )
}

/// A heading in the table of contents, highlighted if it is the current one.
pub open spec fn toc_entry(h: HeadingView, is_current: bool, toc_width: int, theme: Theme) -> Seq<
    PaintView,
> {
    let inner = left_over(toc_width, TOC_SEP_WIDTH as int);
    let indent = toc_indent(h.level);
    let text = heading_shown(h.text, heading_room(h, toc_width));
    let used = 1 + indent + width_of(text);
    seq![
        PaintView::ResetAttributes,
        PaintView::Fg(
            if is_current {
                theme.accent
            } else {
                theme.muted
            },
        ),
        PaintView::Bg(
            if is_current {
                tinted(theme.bg, theme.accent, 15, (20, 18, 10))
            } else {
                theme.bg
            },
        ),
        spaces(1),
        spaces(indent),
    ] + (if is_current {
        seq![PaintView::Bold]
    } else {
        seq![]
    }) + seq![PaintView::Print(text)] + (if used < inner {
        seq![spaces(inner - used)]
    } else {
        seq![]
    })
}

/// An empty row of the table of contents.
pub open spec fn toc_blank(toc_width: int, theme: Theme) -> Seq<PaintView> {
    seq![
        PaintView::ResetAttributes,
        PaintView::Fg(theme.fg),
        PaintView::Bg(theme.bg),
        spaces(left_over(toc_width, TOC_SEP_WIDTH as int)),
    ]
}

/// The separator behind the table of contents.
pub open spec fn toc_separator(theme: Theme) -> Seq<PaintView> {
    seq![
        PaintView::ResetAttributes,
        PaintView::Fg(theme.border),
        PaintView::Bg(theme.bg),
        PaintView::Print("\u{2502}"@),
    ]
}

/// One row of the table of contents: the heading that is shown there, the current one
/// highlighted, or nothing; then the separator.
pub open spec fn toc_cell(
    headings: Seq<HeadingView>,
    screen_row: int,
    toc_width: int,
    content_rows: int,
    current: Option<usize>,
    theme: Theme,
) -> Seq<PaintView> {
    let index = toc_index(headings.len() as int, screen_row, content_rows, current);
    (if index < headings.len() {
        toc_entry(headings[index], current == Some(index as usize), toc_width, theme)
    } else {
        toc_blank(toc_width, theme)
    }) + toc_separator(theme)
}

fn cut_heading(text: &str, room: usize) -> (r: String)
    requires
        can_cut_heading(text@, room as int),
    ensures
        r@ == heading_shown(text@, room as int),
{
    if text.as_bytes().len() > room {
        let n: usize = if room > 1 {
            room - 1
        } else {
            0
        };
        let (head, _) = text.split_at(n);
        proof {
            encode_utf8_decode_utf8(head@);
        }
        let mut out = chars_of(head);
        push_str(&mut out, "…");
        string_of(&out)
    } else {
        text.to_owned()
    }
}

fn indent_of(level: u8) -> (n: usize)
    ensures
        n == toc_indent(level as int),
{
    if level <= 1 {
        0
    } else if level >= 4 {
        6
    } else {
        (level as usize - 1) * 2
    }
}

fn room_of(level: u8, toc_width: usize) -> (n: usize)
    ensures
        n == left_over(left_over(toc_width as int, 2), toc_indent(level as int)),
{
    let inner: usize = if toc_width > 2 {
        toc_width - 2
    } else {
        0
    };
    let indent: usize = indent_of(level);
    if inner > indent {
        inner - indent
    } else {
        0
    }
}

/// The heading that a row of the table of contents is for, if it is for any.
fn heading_on_row(
    total: usize,
    screen_row: usize,
    content_rows: usize,
    current_heading: Option<usize>,
) -> (index: Option<usize>)
    requires
        screen_row < content_rows,
        current_heading matches Some(c) ==> c < total,
    ensures
        match index {
            Some(i) => i < total && i == toc_index(
                total as int,
                screen_row as int,
                content_rows as int,
                current_heading,
            ),
            None => toc_index(
                total as int,
                screen_row as int,
                content_rows as int,
                current_heading,
            ) >= total,
        },
{
    let current: usize = match current_heading {
        Some(c) => c,
        None => 0,
    };
    let half: usize = content_rows / 2;
    let scroll: usize = if total <= content_rows || current < half {
        0
    } else if current >= total - half {
        total - content_rows
    } else {
        current - half
    };
    assert(scroll == toc_scroll(total as int, content_rows as int, current as int));
    if scroll < total && screen_row < total - scroll {
        Some(scroll + screen_row)
    } else {
        None
    }
}

fn can_draw_heading(h: &Heading, toc_width: usize) -> (r: bool)
    ensures
        r == can_cut_heading(h@.text, heading_room(h@, toc_width as int)),
{
    let room: usize = room_of(h.level, toc_width);
    let n: usize = if room > 1 {
        room - 1
    } else {
        0
    };
    h.text.as_str().as_bytes().len() <= room || h.text.as_str().is_char_boundary(n)
}

/// Whether every row of the table of contents that is on the screen can be shown.
pub fn can_draw_toc(
    headings: &Vec<Heading>,
    toc_width: usize,
    content_rows: usize,
    current_heading: Option<usize>,
) -> (r: bool)
    requires
        current_heading matches Some(c) ==> c < headings@.len(),
    ensures
        r == can_show_headings(
            heading_views(headings@),
            toc_width as int,
            content_rows as int,
            current_heading,
        ),
{
    let ghost all = heading_views(headings@);
    let mut row: usize = 0;
    while row < content_rows
        invariant
            row <= content_rows,
            all == heading_views(headings@),
            current_heading matches Some(c) ==> c < headings@.len(),
            forall|k: int|
                0 <= k < row ==> #[trigger] can_show_row(
                    all,
                    k,
                    toc_width as int,
                    content_rows as int,
                    current_heading,
                ),
        decreases content_rows - row,
    {
        match heading_on_row(headings.len(), row, content_rows, current_heading) {
            Some(i) => {
                assert(all[i as int] == headings@[i as int]@);
                if !can_draw_heading(&headings[i], toc_width) {
                    assert(!can_show_row(
                        all,
                        row as int,
                        toc_width as int,
                        content_rows as int,
                        current_heading,
                    ));
                    return false;
                }
            },
            None => {},
        }
        assert(can_show_row(
            all,
            row as int,
            toc_width as int,
            content_rows as int,
            current_heading,
        ));
        row += 1;
    }
    true
}

/// Draw one row of the table of contents.
pub fn draw_toc_cell(
    headings: &Vec<Heading>,
    screen_row: usize,
    toc_width: usize,
    content_rows: usize,
    current_heading: Option<usize>,
    theme: &Theme,
) -> (out: Vec<Paint>)
    requires
        screen_row < content_rows,
        current_heading matches Some(c) ==> c < headings@.len(),
        can_show_row(
            heading_views(headings@),
            screen_row as int,
            toc_width as int,
            content_rows as int,
            current_heading,
        ),
    ensures
        paint_views(out@) == toc_cell(
            heading_views(headings@),
            screen_row as int,
            toc_width as int,
            content_rows as int,
            current_heading,
            *theme,
        ),
{
    let ghost all = heading_views(headings@);
    let mut out: Vec<Paint> = match heading_on_row(
        headings.len(),
        screen_row,
        content_rows,
        current_heading,
    ) {
        Some(index) => {
            let h = &headings[index];
            assert(all[index as int] == h@);
            let is_current = match current_heading {
                Some(c) => c == index,
                None => false,
            };
            draw_entry(h, is_current, toc_width, theme)
        },
        None => draw_blank(toc_width, theme),
    };
    let ghost entry = paint_views(out@);
    draw(&mut out, Paint::ResetAttributes);
    draw(&mut out, Paint::Fg(theme.border));
    draw(&mut out, Paint::Bg(theme.bg));
    print(&mut out, "\u{2502}");
    assert(paint_views(out@) =~= entry + toc_separator(*theme));
    out
}

fn draw_entry(h: &Heading, is_current: bool, toc_width: usize, theme: &Theme) -> (out: Vec<Paint>)
    requires
        can_cut_heading(h@.text, heading_room(h@, toc_width as int)),
    ensures
        paint_views(out@) == toc_entry(h@, is_current, toc_width as int, *theme),
{
    let inner: usize = if toc_width > TOC_SEP_WIDTH {
        toc_width - TOC_SEP_WIDTH
    } else {
        0
    };
    let indent: usize = indent_of(h.level);
    let text = cut_heading(h.text.as_str(), room_of(h.level, toc_width));
    let mut out: Vec<Paint> = Vec::new();
    draw(&mut out, Paint::ResetAttributes);
    if is_current {
        draw(&mut out, Paint::Fg(theme.accent));
        draw(&mut out, Paint::Bg(theme.search_match_bg()));
    } else {
        draw(&mut out, Paint::Fg(theme.muted));
        draw(&mut out, Paint::Bg(theme.bg));
    }
    print_spaces(&mut out, 1);
    print_spaces(&mut out, indent);
    if is_current {
        draw(&mut out, Paint::Bold);
    }
    print(&mut out, text.as_str());
    let used: usize = capped_sum(1 + indent, width(text.as_str()));
    if used < inner {
        print_spaces(&mut out, inner - used);
    }
    assert(paint_views(out@) =~= toc_entry(h@, is_current, toc_width as int, *theme));
    out
}

fn draw_blank(toc_width: usize, theme: &Theme) -> (out: Vec<Paint>)
    ensures
        paint_views(out@) == toc_blank(toc_width as int, *theme),
{
    let inner: usize = if toc_width > TOC_SEP_WIDTH {
        toc_width - TOC_SEP_WIDTH
    } else {
        0
    };
    let mut out: Vec<Paint> = Vec::new();
    draw(&mut out, Paint::ResetAttributes);
    draw(&mut out, Paint::Fg(theme.fg));
    draw(&mut out, Paint::Bg(theme.bg));
    print_spaces(&mut out, inner);
    assert(paint_views(out@) =~= toc_blank(toc_width as int, *theme));
    out
}

/// The current heading is always among those that the table of contents shows.
pub proof fn law_current_heading_visible(total: int, content_rows: int, current: int)
    requires
        0 <= current < total,
        0 < content_rows,
    ensures
        0 <= toc_scroll(total, content_rows, current) <= current,
        current < toc_scroll(total, content_rows, current) + content_rows,
        total > content_rows ==> toc_scroll(total, content_rows, current) + content_rows <= total,
{
}

// ---------------------------------------------------------------- prompt and warnings

/// The search prompt: a slash and the query on a row of their own, the cursor behind them.
pub open spec fn prompt_line(
    query: Seq<char>,
    row: u16,
    cols: u16,
    fg: Color,
    bg: Color,
    accent: Color,
) -> Seq<PaintView> {
    let n = encode_utf8(query).len();
    seq![
        PaintView::MoveTo(0, row),
        PaintView::Fg(accent),
        PaintView::Bg(bg),
        PaintView::Bold,
        PaintView::Print("/"@),
        PaintView::NormalIntensity,
        PaintView::Fg(fg),
        PaintView::Print(query),
    ] + (if 1 + n < cols {
        seq![spaces(cols - (1 + n))]
    } else {
        seq![]
    }) + seq![
        PaintView::ResetColor,
        PaintView::MoveTo(
            if n < u16::MAX {
                (1 + n) as u16
            } else {
                u16::MAX
            },
            row,
        ),
        PaintView::ShowCursor,
    ]
}

/// Draw the search prompt.
pub fn draw_prompt(query: &str, row: u16, cols: u16, fg: Color, bg: Color, accent: Color) -> (out:
    Vec<Paint>)
    ensures
        paint_views(out@) == prompt_line(query@, row, cols, fg, bg, accent),
{
    let n: usize = query.as_bytes().len();
    let mut out: Vec<Paint> = Vec::new();
    draw(&mut out, Paint::MoveTo(0, row));
    draw(&mut out, Paint::Fg(accent));
    draw(&mut out, Paint::Bg(bg));
    draw(&mut out, Paint::Bold);
    print(&mut out, "/");
    draw(&mut out, Paint::NormalIntensity);
    draw(&mut out, Paint::Fg(fg));
    print(&mut out, query);
    if cols > 0 && n < cols as usize - 1 {
        print_spaces(&mut out, cols as usize - 1 - n);
    }
    draw(&mut out, Paint::ResetColor);
    let col: u16 = if n < u16::MAX as usize {
        1 + n as u16
    } else {
        u16::MAX
    };
    draw(&mut out, Paint::MoveTo(col, row));
    draw(&mut out, Paint::ShowCursor);
    assert(paint_views(out@) =~= prompt_line(query@, row, cols, fg, bg, accent));
    out
}

/// What the viewer says when the terminal is too small.
pub open spec fn size_message(cols: u16, rows: u16) -> Seq<char> {
    "Terminal too small: "@ + decimal(cols as nat) + "x"@ + decimal(rows as nat) + " (need "@
        + decimal(MIN_TERM_WIDTH as nat) + "x"@ + decimal(MIN_TERM_HEIGHT as nat)
        + "). Please resize."@
}

/// The warning that the terminal is too small, in the middle of the screen.
pub open spec fn size_warning(cols: u16, rows: u16, accent: Color) -> Seq<PaintView> {
    let message = size_message(cols, rows);
    seq![
        PaintView::Clear,
        PaintView::MoveTo(
            (left_over(cols as int, message.len() as int) / 2) as u16,
            (rows as int / 2) as u16,
        ),
        PaintView::Fg(accent),
        PaintView::Print(message),
        PaintView::ResetColor,
    ]
}

/// Draw the warning that the terminal is too small.
pub fn render_size_warning(cols: u16, rows: u16, theme: &Theme) -> (out: Vec<Paint>)
    ensures
        paint_views(out@) == size_warning(cols, rows, theme.accent),
{
    let mut message = chars_of("Terminal too small: ");
    push_number(&mut message, cols as u64);
    push_str(&mut message, "x");
    push_number(&mut message, rows as u64);
    push_str(&mut message, " (need ");
    push_number(&mut message, MIN_TERM_WIDTH as u64);
    push_str(&mut message, "x");
    push_number(&mut message, MIN_TERM_HEIGHT as u64);
    push_str(&mut message, "). Please resize.");
    let x: u16 = if cols as usize > message.len() {
        ((cols as usize - message.len()) / 2) as u16
    } else {
        0
    };
    let mut out: Vec<Paint> = Vec::new();
    draw(&mut out, Paint::Clear);
    draw(&mut out, Paint::MoveTo(x, rows / 2));
    draw(&mut out, Paint::Fg(theme.accent));
    print(&mut out, string_of(&message).as_str());
    draw(&mut out, Paint::ResetColor);
    assert(paint_views(out@) =~= size_warning(cols, rows, theme.accent));
    out
}

/// Whether the terminal is too small for the interactive viewer.
pub open spec fn too_small(cols: u16, rows: u16) -> bool {
    cols < MIN_TERM_WIDTH || rows < MIN_TERM_HEIGHT
}

/// Whether the terminal is too small for the interactive viewer.
pub fn is_too_small(cols: u16, rows: u16) -> (r: bool)
    ensures
        r == too_small(cols, rows),
{
    cols < MIN_TERM_WIDTH || rows < MIN_TERM_HEIGHT
}

// ---------------------------------------------------------------- laws

/// Whether a piece of the screen is a text in given colors, and bold or not.
pub open spec fn written(p: Piece, text: Seq<char>, fg: Color, bg: Color, bold: bool) -> bool {
    p.text == text && p.pen == (Pen {
        fg: Some(fg),
        bg: Some(bg),
        bold,
        underlined: false,
        italic: false,
    })
}

/// The header is the topmost row: two blanks, the name of the program in bold, its version, a bar
/// and the name of the file, and behind it which of several buffers it is; each in its color on the
/// header's background, and the rest of the row filled with it.
pub proof fn law_header_is_shown(
    cols: u16,
    theme: Theme,
    version: Seq<char>,
    filename: Seq<char>,
    info: Option<(usize, usize)>,
)
    ensures
        ({
            let p = all_drawn_on(empty_terminal(), header(cols, theme, version, filename, info)).pieces;
            let name = name_shown(filename, name_room(cols, version));
            let bg = theme.header_bg;
            let pair = match info {
                Some(x) => x,
                None => (0, 0),
            };
            let several = pair.1 > 1;
            let n = if several {
                6int
            } else {
                5
            };
            let used = 2 + width_of("REED"@) + width_of(version) + width_of("  \u{2502}  "@) + width_of(
                name,
            ) + (if several {
                3 + decimal(pair.0 as nat).len() + decimal(pair.1 as nat).len() + 1
            } else {
                0
            });
            &&& p.len() == n + (if used < cols {
                1int
            } else {
                0
            })
            &&& forall|i: int|
                0 <= i < p.len() ==> (#[trigger] p[i]).row == 0 && p[i].col == 0 && p[i].nth == i
            &&& written(p[0], seq![' ', ' '], theme.header_fg, bg, false)
            &&& written(p[1], "REED"@, theme.title, bg, true)
            &&& written(p[2], version, theme.muted, bg, false)
            &&& written(p[3], "  \u{2502}  "@, theme.border, bg, false)
            &&& written(p[4], name, theme.header_fg, bg, false)
            &&& several ==> written(
                p[5],
                seq![' ', '['] + decimal(pair.0 as nat) + seq!['/'] + decimal(pair.1 as nat)
                    + seq![']'],
                theme.muted,
                bg,
                false,
            )
            &&& used < cols ==> written(
                p[n],
                repeated(' ', (cols - used) as nat),
                theme.header_fg,
                bg,
                false,
            )
        }),
{
    broadcast use {lemma_drawn_push, lemma_drawn_add};

    let name = name_shown(filename, name_room(cols, version));
    let indicator = buffer_indicator(info);
    let t = empty_terminal();
    reveal_strlit(" [");
    reveal_strlit("/");
    reveal_strlit("]");
    assert(" ["@ =~= seq![' ', '[']);
    assert("/"@ =~= seq!['/']);
    assert("]"@ =~= seq![']']);
    assert(repeated(' ', 2) =~= seq![' ', ' ']);
    let first = seq![PaintView::MoveTo(0, 0), PaintView::ResetAttributes, PaintView::Fg(theme.header_fg), PaintView::Bg(theme.header_bg), spaces(SIDE_PAD as int), PaintView::Fg(theme.title), PaintView::Bold, PaintView::Print("REED"@), PaintView::NormalIntensity, PaintView::Fg(theme.header_fg), PaintView::Fg(theme.muted), PaintView::Print(version), PaintView::Fg(theme.header_fg), PaintView::Fg(theme.border), PaintView::Print("  \u{2502}  "@), PaintView::Fg(theme.header_fg), PaintView::Print(name)];
    assert(first =~= Seq::empty().push(PaintView::MoveTo(0, 0)).push(PaintView::ResetAttributes).push(PaintView::Fg(theme.header_fg)).push(PaintView::Bg(theme.header_bg)).push(spaces(SIDE_PAD as int)).push(PaintView::Fg(theme.title)).push(PaintView::Bold).push(PaintView::Print("REED"@)).push(PaintView::NormalIntensity).push(PaintView::Fg(theme.header_fg)).push(PaintView::Fg(theme.muted)).push(PaintView::Print(version)).push(PaintView::Fg(theme.header_fg)).push(PaintView::Fg(theme.border)).push(PaintView::Print("  \u{2502}  "@)).push(PaintView::Fg(theme.header_fg)).push(PaintView::Print(name)));
    let u = all_drawn_on(t, first);
    assert(all_drawn_on(t, seq![]) == t);
    assert(u.pieces.len() == 5);
    let more = if indicator.len() > 0 {
        seq![
            PaintView::Fg(theme.muted),
            PaintView::Print(indicator),
            PaintView::Fg(theme.header_fg),
        ]
    } else {
        seq![]
    };
    let shown = if indicator.len() > 0 {
        Seq::empty().push(PaintView::Fg(theme.muted)).push(PaintView::Print(indicator)).push(
            PaintView::Fg(theme.header_fg),
        )
    } else {
        seq![]
    };
    assert(more =~= shown);
    let v = all_drawn_on(u, more);
    assert(all_drawn_on(u, seq![]) == u);
    assert(v.pieces.len() == 5 + (if indicator.len() > 0 {
        1int
    } else {
        0
    }));
    let used = header_used(version) + width_of(name) + indicator.len();
    let fill = if used < cols {
        seq![spaces(cols - used)]
    } else {
        seq![]
    };
    let w = all_drawn_on(v, fill);
    assert(all_drawn_on(v, seq![]) == v);
    assert(all_drawn_on(w, seq![]) == w);
    assert(all_drawn_on(w, seq![PaintView::ResetColor]) == drawn_on(w, PaintView::ResetColor));
}

/// The name of a file is shown whole where there is room for it, else the end of it that fits.
pub proof fn law_name_shown(filename: Seq<char>, room: int)
    requires
        0 <= room,
    ensures
        encode_utf8(filename).len() <= room ==> name_shown(filename, room) == filename,
        encode_utf8(filename).len() > room ==> {
            let bytes = encode_utf8(filename);
            name_shown(filename, room) == decode_utf8(bytes.skip(bytes.len() - room))
        },
{
    let bytes = encode_utf8(filename);
    if bytes.len() > room {
        assert(bytes.subrange(bytes.len() - room, bytes.len() as int) =~= bytes.skip(
            bytes.len() - room,
        ));
    }
}

/// The footer tells the keys: for scrolling, searching, the table of contents, links, themes and
/// quitting.
pub proof fn law_hints()
    ensures
        HINTS@[0]@ == "j/k "@ && HINTS@[1]@ == "Scroll "@,
        HINTS@[3]@ == " / "@ && HINTS@[4]@ == "Search "@,
        HINTS@[6]@ == " Tab "@ && HINTS@[7]@ == "TOC "@,
        HINTS@[9]@ == " l "@ && HINTS@[10]@ == "Links "@,
        HINTS@[12]@ == " t/T "@ && HINTS@[13]@ == "Theme "@,
        HINTS@[15]@ == " q "@ && HINTS@[16]@ == "Quit"@,
        HINTS@[2]@ == "\u{2502}"@ && HINTS@[5]@ == "\u{2502}"@ && HINTS@[8]@ == "\u{2502}"@,
        HINTS@[11]@ == "\u{2502}"@ && HINTS@[14]@ == "\u{2502}"@,
{
}

/// A key is shown in bold in the accent color, what it does in the text's color, and the bars
/// between them muted.
pub proof fn law_hint_is_shown(t: Terminal, i: int, theme: Theme)
    requires
        0 <= i < 17,
    ensures
        ({
            let u = all_drawn_on(t, hint(i, theme));
            let p = u.pieces.last();
            let fg = if i == 0 || i == 3 || i == 6 || i == 9 || i == 12 || i == 15 {
                theme.accent
            } else if i == 1 || i == 4 || i == 7 || i == 10 || i == 13 || i == 16 {
                theme.fg
            } else {
                theme.muted
            };
            &&& u.pieces == t.pieces.push(p)
            &&& p.text == HINTS@[i]@
            &&& p.row == t.row && p.col == t.col && p.nth == t.nth
            &&& u.row == t.row && u.col == t.col && u.nth == t.nth + 1
            &&& p.pen.fg == Some(fg) && p.pen.bg == t.pen.bg && u.pen.bg == t.pen.bg
            &&& p.pen.bold == (t.pen.bold || fg == theme.accent && i % 3 == 0)
            &&& i % 3 == 0 ==> !u.pen.bold
            &&& i % 3 != 0 ==> u.pen.bold == t.pen.bold
            &&& p.pen.italic == t.pen.italic && p.pen.underlined == t.pen.underlined
            &&& u.pen.italic == t.pen.italic && u.pen.underlined == t.pen.underlined
        }),
{
    broadcast use {lemma_drawn_push, lemma_drawn_add};

    let text = PaintView::Print(HINTS@[i]@);
    assert(seq![PaintView::Fg(theme.accent), PaintView::Bold, text, PaintView::NormalIntensity]
        =~= Seq::empty().push(PaintView::Fg(theme.accent)).push(PaintView::Bold).push(text).push(
        PaintView::NormalIntensity,
    ));
    assert(seq![PaintView::Fg(theme.fg), text] =~= Seq::empty().push(PaintView::Fg(theme.fg)).push(
        text,
    ));
    assert(seq![PaintView::Fg(theme.muted), text] =~= Seq::empty().push(
        PaintView::Fg(theme.muted),
    ).push(text));
    assert(all_drawn_on(t, seq![]) == t);
}

/// Whether a hint is the `i`-th piece from `from` on, on a row.
pub open spec fn hint_is_at(pieces: Seq<Piece>, from: int, i: int, row: int) -> bool {
    pieces[from + i].text == HINTS@[i]@ && pieces[from + i].row == row
}

proof fn lemma_hints_drawn(t: Terminal, n: int, theme: Theme)
    requires
        0 <= n <= 17,
        !t.pen.bold,
    ensures
        ({
            let u = all_drawn_on(t, hints(n, theme));
            &&& u.pieces.len() == t.pieces.len() + n
            &&& forall|i: int| 0 <= i < t.pieces.len() ==> #[trigger] u.pieces[i] == t.pieces[i]
            &&& forall|i: int|
                0 <= i < n ==> #[trigger] hint_is_at(u.pieces, t.pieces.len() as int, i, t.row)
            &&& u.row == t.row && u.col == t.col && u.nth == t.nth + n
            &&& u.pen.bg == t.pen.bg && !u.pen.bold
            &&& u.pen.italic == t.pen.italic && u.pen.underlined == t.pen.underlined
        }),
    decreases n,
{
    broadcast use lemma_drawn_add;

    if n > 0 {
        lemma_hints_drawn(t, n - 1, theme);
        let v = all_drawn_on(t, hints(n - 1, theme));
        law_hint_is_shown(v, n - 1, theme);
        let u = all_drawn_on(t, hints(n, theme));
        assert(u == all_drawn_on(v, hint(n - 1, theme)));
        let from = t.pieces.len() as int;
        assert forall|i: int| 0 <= i < n implies #[trigger] hint_is_at(u.pieces, from, i, t.row) by {
            if i < n - 1 {
                assert(hint_is_at(v.pieces, from, i, t.row));
                assert(u.pieces[from + i] == v.pieces[from + i]);
            }
        }
    } else {
        assert(all_drawn_on(t, seq![]) == t);
    }
}

/// The footer is on its row, in the theme's colors: two blanks, the keys, then at the right edge
/// what is searched for, if anything is, and the theme's name.
pub proof fn law_footer_is_shown(row: u16, cols: u16, theme: Theme, search: SearchState)
    ensures
        ({
            let p = all_drawn_on(empty_terminal(), footer(row, cols, theme, search)).pieces;
            let info = search_info(search);
            let searching = search.query@.len() > 0;
            let used = 2 + hints_width(17) + width_of(info + theme.name@ + seq![' ', ' ']);
            &&& p.len() == (if searching {
                21int
            } else {
                20
            })
            &&& forall|i: int| 0 <= i < p.len() ==> (#[trigger] p[i]).row == row
            &&& written(p[0], seq![' ', ' '], theme.fg, theme.bg, false)
            &&& forall|i: int| 0 <= i < 17 ==> #[trigger] hint_is_at(p, 1, i, row as int)
            &&& p[18].text.len() == (if used < cols {
                cols - used
            } else {
                0
            })
            &&& forall|i: int| 0 <= i < p[18].text.len() ==> #[trigger] p[18].text[i] == ' '
            &&& searching ==> written(p[19], info, theme.accent, theme.bg, false)
            &&& written(
                p.last(),
                info + theme.name@ + seq![' ', ' '],
                theme.heading,
                theme.bg,
                false,
            )
        }),
{
    broadcast use {lemma_drawn_push, lemma_drawn_add};

    let t = empty_terminal();
    let info = search_info(search);
    law_search_info(search);
    let right = info + theme.name@ + repeated(' ', SIDE_PAD as nat);
    let used = SIDE_PAD + hints_width(17) + width_of(right);
    assert(repeated(' ', 2) =~= seq![' ', ' ']);
    let first = seq![
        PaintView::MoveTo(0, row),
        PaintView::ResetAttributes,
        PaintView::Fg(theme.fg),
        PaintView::Bg(theme.bg),
        spaces(SIDE_PAD as int),
    ];
    assert(first =~= Seq::empty().push(PaintView::MoveTo(0, row)).push(
        PaintView::ResetAttributes,
    ).push(PaintView::Fg(theme.fg)).push(PaintView::Bg(theme.bg)).push(spaces(SIDE_PAD as int)));
    assert(all_drawn_on(t, seq![]) == t);
    let u = all_drawn_on(t, first);
    assert(u.pieces.len() == 1);
    lemma_hints_drawn(u, 17, theme);
    let v = all_drawn_on(u, hints(17, theme));
    let gap = spaces(left_over(cols as int, used));
    assert(seq![PaintView::Fg(theme.fg), gap] =~= Seq::empty().push(PaintView::Fg(theme.fg)).push(
        gap,
    ));
    let w = all_drawn_on(v, seq![PaintView::Fg(theme.fg), gap]);
    assert(all_drawn_on(v, seq![]) == v);
    assert(w.pieces == v.pieces.push(w.pieces.last()));
    let more = if info.len() > 0 {
        seq![PaintView::Fg(theme.accent), PaintView::Print(info)]
    } else {
        seq![]
    };
    assert(seq![PaintView::Fg(theme.accent), PaintView::Print(info)] =~= Seq::empty().push(
        PaintView::Fg(theme.accent),
    ).push(PaintView::Print(info)));
    let x = all_drawn_on(w, more);
    assert(all_drawn_on(w, seq![]) == w);
    assert(all_drawn_on(x, seq![]) == x);
    assert(seq![PaintView::Fg(theme.heading), PaintView::Print(right), PaintView::ResetColor]
        =~= Seq::empty().push(PaintView::Fg(theme.heading)).push(PaintView::Print(right)).push(
        PaintView::ResetColor,
    ));
    let y = all_drawn_on(t, footer(row, cols, theme, search));
    assert(right =~= info + theme.name@ + seq![' ', ' ']);
    assert forall|i: int| 0 <= i < 17 implies #[trigger] hint_is_at(y.pieces, 1, i, row as int) by {
        assert(hint_is_at(v.pieces, 1, i, row as int));
        assert(y.pieces[1 + i] == v.pieces[1 + i]);
    }
    assert(y.pieces[18] == w.pieces[18]);
    assert(y.pieces[0] == v.pieces[0]);
    assert forall|i: int| 0 <= i < y.pieces.len() implies (#[trigger] y.pieces[i]).row == row by {
        if 1 <= i < 18 {
            assert(hint_is_at(y.pieces, 1, i - 1, row as int));
        }
    }
}

/// The footer tells what is searched for, and which of how many matches is the current one.
pub proof fn law_search_info(search: SearchState)
    ensures
        search.query@.len() == 0 ==> search_info(search).len() == 0,
        search.query@.len() > 0 && search.match_rows@.len() == 0 ==> search_info(search) == seq![
            '[',
            '/',
        ] + search.query@ + ": no matches] "@,
        search.query@.len() > 0 && search.match_rows@.len() > 0 ==> search_info(search) == seq![
            '[',
            '/',
        ] + search.query@ + seq![':', ' '] + decimal((search.current + 1) as nat) + seq!['/']
            + decimal(search.match_rows@.len()) + seq![']', ' '],
        search.query@.len() > 0 ==> search_info(search).len() > 0,
{
    reveal_strlit("[/");
    reveal_strlit(": ");
    reveal_strlit("/");
    reveal_strlit("] ");
    assert("[/"@ =~= seq!['[', '/']);
    assert(": "@ =~= seq![':', ' ']);
    assert("/"@ =~= seq!['/']);
    assert("] "@ =~= seq![']', ' ']);
}

/// Headings are indented by two columns for each level below the first, by six at most.
pub proof fn law_toc_indent(level: int)
    ensures
        level <= 1 ==> toc_indent(level) == 0,
        level == 2 ==> toc_indent(level) == 2,
        level == 3 ==> toc_indent(level) == 4,
        level >= 4 ==> toc_indent(level) == 6,
{
}

/// A heading that fits is shown whole, one that does not is cut and ends in an ellipsis.
pub proof fn law_heading_shown(text: Seq<char>, room: int)
    requires
        0 <= room,
    ensures
        encode_utf8(text).len() <= room ==> heading_shown(text, room) == text,
        encode_utf8(text).len() > room ==> heading_shown(text, room) == decode_utf8(
            encode_utf8(text).take(
                if room > 0 {
                    room - 1
                } else {
                    0
                },
            ),
        ) + "\u{2026}"@,
{
    reveal_strlit("…");
    reveal_strlit("\u{2026}");
    assert("…"@ =~= "\u{2026}"@);
    let bytes = encode_utf8(text);
    if bytes.len() > room {
        let n = left_over(room, 1);
        assert(bytes.subrange(0, n) =~= bytes.take(n));
    }
}

/// A row of the table of contents shows the heading that is as far behind the first one shown, muted
/// on the theme's background; the heading that the reader is under is bold, in the accent color and
/// on a tint of it. Rows behind the last heading are blank, and a bar ends every row.
pub proof fn law_toc_row_is_shown(
    t: Terminal,
    headings: Seq<HeadingView>,
    screen_row: int,
    toc_width: int,
    content_rows: int,
    current: Option<usize>,
    theme: Theme,
)
    requires
        0 <= screen_row < content_rows,
        2 <= toc_width,
        current matches Some(c) ==> c < headings.len(),
        headings.len() <= usize::MAX,
    ensures
        ({
            let u = all_drawn_on(
                t,
                toc_cell(headings, screen_row, toc_width, content_rows, current, theme),
            );
            let p = u.pieces.skip(t.pieces.len() as int);
            let index = toc_scroll(
                headings.len() as int,
                content_rows,
                match current {
                    Some(c) => c as int,
                    None => 0,
                },
            ) + screen_row;
            let here = current == Some(index as usize) && index < headings.len();
            let fg = if here {
                theme.accent
            } else {
                theme.muted
            };
            let bg = if here {
                tinted(theme.bg, theme.accent, 15, (20, 18, 10))
            } else {
                theme.bg
            };
            &&& p.len() > 0
            &&& written(p.last(), "\u{2502}"@, theme.border, theme.bg, false)
            &&& index < headings.len() ==> {
                let h = headings[index];
                let indent = toc_indent(h.level);
                let room = if toc_width - 2 > indent {
                    toc_width - 2 - indent
                } else {
                    0
                };
                let left = toc_width - 2 - indent - width_of(heading_shown(h.text, room));
                &&& p.len() == (if left > 0 {
                    5int
                } else {
                    4
                })
                &&& written(p[0], seq![' '], fg, bg, false)
                &&& written(p[1], repeated(' ', indent as nat), fg, bg, false)
                &&& written(p[2], heading_shown(h.text, room), fg, bg, here)
                &&& left > 0 ==> written(p[3], repeated(' ', left as nat), fg, bg, here)
            }
            &&& index >= headings.len() ==> p.len() == 2 && written(
                p[0],
                repeated(' ', (toc_width - 1) as nat),
                theme.fg,
                theme.bg,
                false,
            )
        }),
{
    broadcast use {lemma_drawn_push, lemma_drawn_add};

    let index = toc_index(headings.len() as int, screen_row, content_rows, current);
    assert(repeated(' ', 1) =~= seq![' ']);
    assert(all_drawn_on(t, seq![]) == t);
    let n = t.pieces.len() as int;
    let first = if index < headings.len() {
        toc_entry(headings[index], current == Some(index as usize), toc_width, theme)
    } else {
        toc_blank(toc_width, theme)
    };
    let u = all_drawn_on(t, first);
    if index < headings.len() {
        lemma_toc_entry_drawn(
            t,
            headings[index],
            current == Some(index as usize),
            toc_width,
            theme,
        );
    } else {
        let blanks = spaces(left_over(toc_width, TOC_SEP_WIDTH as int));
        assert(first =~= Seq::empty().push(PaintView::ResetAttributes).push(
            PaintView::Fg(theme.fg),
        ).push(PaintView::Bg(theme.bg)).push(blanks));
        assert(u.pieces == t.pieces.push(u.pieces.last()));
    }
    assert(toc_separator(theme) =~= Seq::empty().push(PaintView::ResetAttributes).push(
        PaintView::Fg(theme.border),
    ).push(PaintView::Bg(theme.bg)).push(PaintView::Print("\u{2502}"@)));
    assert(all_drawn_on(u, seq![]) == u);
    let v = all_drawn_on(u, toc_separator(theme));
    assert(v.pieces == u.pieces.push(v.pieces.last()));
    let p = v.pieces.skip(n);
    assert(p.last() == v.pieces.last());
    assert forall|i: int| 0 <= i < u.pieces.len() - n implies #[trigger] p[i] == u.pieces[n + i] by {}
}

proof fn lemma_toc_entry_drawn(
    t: Terminal,
    h: HeadingView,
    is_current: bool,
    toc_width: int,
    theme: Theme,
)
    ensures
        ({
            let u = all_drawn_on(t, toc_entry(h, is_current, toc_width, theme));
            let n = t.pieces.len() as int;
            let indent = toc_indent(h.level);
            let text = heading_shown(h.text, heading_room(h, toc_width));
            let used = 1 + indent + width_of(text);
            let inner = left_over(toc_width, 1);
            let fg = if is_current {
                theme.accent
            } else {
                theme.muted
            };
            let bg = if is_current {
                tinted(theme.bg, theme.accent, 15, (20, 18, 10))
            } else {
                theme.bg
            };
            &&& u.pieces.len() == n + (if used < inner {
                4int
            } else {
                3
            })
            &&& written(u.pieces[n], repeated(' ', 1), fg, bg, false)
            &&& written(u.pieces[n + 1], repeated(' ', indent as nat), fg, bg, false)
            &&& written(u.pieces[n + 2], text, fg, bg, is_current)
            &&& used < inner ==> written(
                u.pieces[n + 3],
                repeated(' ', (inner - used) as nat),
                fg,
                bg,
                is_current,
            )
        }),
{
    broadcast use {lemma_drawn_push, lemma_drawn_add};

    let indent = toc_indent(h.level);
    let fg = PaintView::Fg(
        if is_current {
            theme.accent
        } else {
            theme.muted
        },
    );
    let bg = PaintView::Bg(
        if is_current {
            tinted(theme.bg, theme.accent, 15, (20, 18, 10))
        } else {
            theme.bg
        },
    );
    let first = seq![PaintView::ResetAttributes, fg, bg, spaces(1), spaces(indent)];
    assert(first =~= Seq::empty().push(PaintView::ResetAttributes).push(fg).push(bg).push(
        spaces(1),
    ).push(spaces(indent)));
    assert(all_drawn_on(t, seq![]) == t);
    let u = all_drawn_on(t, first);
    assert(all_drawn_on(u, seq![]) == u);
    let v = if is_current {
        drawn_on(u, PaintView::Bold)
    } else {
        u
    };
    assert(all_drawn_on(v, seq![]) == v);
    let text = heading_shown(h.text, heading_room(h, toc_width));
    let w = drawn_on(v, PaintView::Print(text));
    assert(all_drawn_on(w, seq![]) == w);
}

/// The prompt shows a slash in bold and what was typed behind it, and leaves the cursor behind
/// that.
pub proof fn law_prompt_is_shown(
    t: Terminal,
    query: Seq<char>,
    row: u16,
    cols: u16,
    fg: Color,
    bg: Color,
    accent: Color,
)
    requires
        t.pieces.len() == 0,
        t.pen == plain_pen(),
    ensures
        ({
            let u = all_drawn_on(t, prompt_line(query, row, cols, fg, bg, accent));
            let n = encode_utf8(query).len();
            &&& u.pieces.len() == (if 1 + n < cols {
                3int
            } else {
                2
            })
            &&& written(u.pieces[0], seq!['/'], accent, bg, true)
            &&& written(u.pieces[1], query, fg, bg, false)
            &&& u.pieces[0].row == row && u.pieces[1].row == row
            &&& u.pieces[0].col == 0 && u.pieces[1].col == 0
            &&& 1 + n < cols ==> written(u.pieces[2], repeated(' ', (cols - 1 - n) as nat), fg, bg, false)
            &&& u.row == row
            &&& n < u16::MAX ==> u.col == 1 + n
        }),
{
    broadcast use {lemma_drawn_push, lemma_drawn_add};

    reveal_strlit("/");
    assert("/"@ =~= seq!['/']);
    let n = encode_utf8(query).len();
    let first = seq![
        PaintView::MoveTo(0, row),
        PaintView::Fg(accent),
        PaintView::Bg(bg),
        PaintView::Bold,
        PaintView::Print("/"@),
        PaintView::NormalIntensity,
        PaintView::Fg(fg),
        PaintView::Print(query),
    ];
    assert(first =~= Seq::empty().push(PaintView::MoveTo(0, row)).push(PaintView::Fg(accent)).push(
        PaintView::Bg(bg),
    ).push(PaintView::Bold).push(PaintView::Print("/"@)).push(PaintView::NormalIntensity).push(
        PaintView::Fg(fg),
    ).push(PaintView::Print(query)));
    assert(all_drawn_on(t, seq![]) == t);
    let u = all_drawn_on(t, first);
    assert(u.pieces.len() == 2);
    assert(all_drawn_on(u, seq![]) == u);
    let v = if 1 + n < cols {
        drawn_on(u, spaces(cols - (1 + n)))
    } else {
        u
    };
    let to = PaintView::MoveTo(
        if n < u16::MAX {
            (1 + n) as u16
        } else {
            u16::MAX
        },
        row,
    );
    assert(seq![PaintView::ResetColor, to, PaintView::ShowCursor] =~= Seq::empty().push(
        PaintView::ResetColor,
    ).push(to).push(PaintView::ShowCursor));
    assert(all_drawn_on(v, seq![]) == v);
}

/// A screen of less than 40 columns or 8 rows is too small, and the warning says so: the size it
/// has and the size it needs, in the accent color, in the middle of the screen.
pub proof fn law_small_screens(cols: u16, rows: u16, accent: Color)
    ensures
        too_small(cols, rows) <==> cols < 40 || rows < 8,
        size_message(cols, rows) == "Terminal too small: "@ + decimal(cols as nat) + "x"@ + decimal(
            rows as nat,
        ) + " (need "@ + decimal(40) + "x"@ + decimal(8)
            + "). Please resize."@,
        ({
            let u = all_drawn_on(empty_terminal(), size_warning(cols, rows, accent));
            let p = u.pieces[0];
            let n = size_message(cols, rows).len();
            &&& u.pieces.len() == 1
            &&& p.text == size_message(cols, rows)
            &&& p.pen.fg == Some(accent)
            &&& 2 * p.row <= rows < 2 * p.row + 2
            &&& n <= cols ==> 2 * p.col <= cols - n < 2 * p.col + 2
            &&& n > cols ==> p.col == 0
        }),
{
    broadcast use {lemma_drawn_push, lemma_drawn_add};

    let message = size_message(cols, rows);
    let to = PaintView::MoveTo(
        (left_over(cols as int, message.len() as int) / 2) as u16,
        (rows as int / 2) as u16,
    );
    assert(size_warning(cols, rows, accent) =~= Seq::empty().push(PaintView::Clear).push(to).push(
        PaintView::Fg(accent),
    ).push(PaintView::Print(message)).push(PaintView::ResetColor));
    assert(all_drawn_on(empty_terminal(), seq![]) == empty_terminal());
}

} // verus!
