//! One frame of the viewer: the content's cells between header and footer.

use vstd::prelude::*;

use crate::chrome::{
    can_cut_name, can_show_headings, can_show_row, draw_header, draw_toc_cell, header, left_over,
    name_room, spaces, toc_cell, SIDE_PAD,
};
use crate::headings::{current_heading, find_current_heading, heading_views, Heading};
use crate::paint::{
    all_drawn_on, capped_sum, draw, draw_all, drawn_on, empty_terminal, lemma_drawn_add,
    lemma_drawn_push, lemma_pieces_stay, paint_views, print, print_spaces, width, width_of, Paint,
    PaintView, Pen, Piece, Terminal,
};
use crate::search::SearchState;
use crate::text::repeated;
use crate::theme::{tinted, Color, Theme};

verus! {

/// One cell of the content: its text and how it is styled.
#[derive(Debug, Clone, PartialEq, Eq)]
pub struct Cell {
    /// The characters of the cell; empty for a blank.
    pub text: String,
    /// The cell's own foreground color.
    pub fg: Option<(u8, u8, u8)>,
    /// The cell's own background color.
    pub bg: Option<(u8, u8, u8)>,
    pub inverse: bool,
    pub bold: bool,
    pub underline: bool,
    pub italic: bool,
}

/// What a row has to do with the search.
#[derive(Debug, Clone, Copy, PartialEq, Eq, Structural)]
pub enum RowMark {
    Plain,
    /// The row shows a match.
    Match,
    /// The row shows the current match.
    Current,
}

/// What the 1-indexed row has to do with the search.
pub open spec fn row_mark(search: SearchState, row: int) -> RowMark {
    if search.query@.len() == 0 || !(exists|i: int|
        0 <= i < search.match_rows@.len() && #[trigger] search.match_rows@[i] == row) {
        RowMark::Plain
    } else if search.current < search.match_rows@.len() && search.match_rows@[search.current as int]
        == row {
        RowMark::Current
    } else {
        RowMark::Match
    }
}

/// The background that a marked row has; `own` where it is not marked.
pub open spec fn marked_bg(mark: RowMark, theme: Theme, own: Color) -> Color {
    match mark {
        RowMark::Current => tinted(theme.bg, theme.accent, 35, (40, 35, 15)),
        RowMark::Match => tinted(theme.bg, theme.accent, 15, (20, 18, 10)),
        RowMark::Plain => own,
    }
}

/// A color by its parts; `fallback` where there are none.
pub open spec fn color_or(rgb: Option<(u8, u8, u8)>, fallback: Color) -> Color {
    match rgb {
        Some((r, g, b)) => Color::Rgb { r, g, b },
        None => fallback,
    }
}

/// How a cell is drawn: its colors, swapped if it is inverse, its attributes, its text.
pub open spec fn cell_paints(cell: Cell, mark: RowMark, theme: Theme) -> Seq<PaintView> {
    let fg = color_or(cell.fg, theme.fg);
    let bg = marked_bg(mark, theme, color_or(cell.bg, theme.bg));
    seq![
        PaintView::ResetAttributes,
        PaintView::Fg(
            if cell.inverse {
                bg
            } else {
                fg
            },
        ),
        PaintView::Bg(
            if cell.inverse {
                fg
            } else {
                bg
            },
        ),
    ] + (if cell.bold {
        seq![PaintView::Bold]
    } else {
        seq![]
    }) + (if cell.underline {
        seq![PaintView::Underlined]
    } else {
        seq![]
    }) + (if cell.italic {
        seq![PaintView::Italic]
    } else {
        seq![]
    }) + seq![
        if cell.text@.len() == 0 {
            spaces(1)
        } else {
            PaintView::Print(cell.text@)
        },
    ]
}

/// The columns that a cell takes up.
pub open spec fn cell_width(cell: Cell) -> int {
    if cell.text@.len() == 0 {
        1
    } else {
        width_of(cell.text@) as int
    }
}

/// How cells are drawn one behind the other.
pub open spec fn cells_paints(cells: Seq<Cell>, mark: RowMark, theme: Theme) -> Seq<PaintView>
    decreases cells.len(),
{
    if cells.len() == 0 {
        seq![]
    } else {
        cells_paints(cells.drop_last(), mark, theme) + cell_paints(cells.last(), mark, theme)
    }
}

/// The columns that cells take up.
pub open spec fn cells_width(cells: Seq<Cell>) -> int
    decreases cells.len(),
{
    if cells.len() == 0 {
        0
    } else {
        cells_width(cells.drop_last()) + cell_width(cells.last())
    }
}

/// What a frame shows besides the content's cells.
pub struct FrameView<'a> {
    pub cols: u16,
    pub content_rows: u16,
    pub theme: &'a Theme,
    pub version: &'a str,
    pub filename: &'a str,
    pub buffer_info: Option<(usize, usize)>,
    /// The headings with their rows in the rendering.
    pub headings: &'a Vec<Heading>,
    pub search: &'a SearchState,
    pub toc_visible: bool,
    /// How many rows of the content lie above the view.
    pub viewport_top: usize,
}

/// The width of the table of contents: three tenths of the screen, at least 20 and at most 34
/// columns; none where it is not wanted, empty, or would leave the content too little.
pub open spec fn toc_width(cols: u16, visible: bool, headings: int) -> int {
    let wanted = cols as int * 30 / 100;
    let w = if wanted < 20 {
        20
    } else if wanted > 34 {
        34
    } else {
        wanted
    };
    if visible && headings > 0 && cols > w + 40 {
        w
    } else {
        0
    }
}

/// The width of the table of contents.
pub fn toc_width_for(cols: u16, visible: bool, headings: usize) -> (w: u16)
    requires
        visible && headings > 0 ==> cols * 30 <= u16::MAX,
    ensures
        w == toc_width(cols, visible, headings as int),
{
    if !visible || headings == 0 {
        return 0;
    }
    let wanted: u16 = cols * 30 / 100;
    let w: u16 = if wanted < 20 {
        20
    } else if wanted > 34 {
        34
    } else {
        wanted
    };
    if cols > w + 40 {
        w
    } else {
        0
    }
}

impl<'a> FrameView<'a> {
    /// The width of the table of contents in this frame.
    pub open spec fn toc(&self) -> int {
        toc_width(self.cols, self.toc_visible, self.headings@.len() as int)
    }

    /// The heading under which the view begins, if the table of contents is shown.
    pub open spec fn current(&self) -> Option<usize> {
        if self.toc() > 0 {
            match current_heading(heading_views(self.headings@), self.viewport_top + 1) {
                Some(i) => Some(i as usize),
                None => None,
            }
        } else {
            None
        }
    }

    /// What the sizes of a frame have to obey: they fit into the terminal's 16-bit
    /// coordinates, and texts that are cut can be cut where they have to be.
    pub open spec fn drawable(&self) -> bool {
        &&& self.toc_visible && self.headings@.len() > 0 ==> self.cols * 30 <= u16::MAX
        &&& self.content_rows < u16::MAX
        &&& self.viewport_top + u16::MAX < usize::MAX
        &&& self.search.wf()
        &&& can_cut_name(self.filename@, name_room(self.cols, self.version@))
        &&& self.toc() > 0 ==> can_show_headings(
            heading_views(self.headings@),
            self.toc(),
            self.content_rows as int,
            self.current(),
        )
    }

    /// The table of contents on a row of the screen.
    pub open spec fn toc_part(&self, screen_row: int) -> Seq<PaintView> {
        if self.toc() > 0 {
            toc_cell(
                heading_views(self.headings@),
                screen_row,
                self.toc(),
                self.content_rows as int,
                self.current(),
                *self.theme,
            )
        } else {
            seq![]
        }
    }

    /// The beginning of a row of the content: the table of contents and the padding.
    pub open spec fn row_start(&self, screen_row: int, bg: Color) -> Seq<PaintView> {
        seq![PaintView::MoveTo(0, (screen_row + 1) as u16)] + self.toc_part(screen_row) + seq![
            PaintView::ResetAttributes,
            PaintView::Fg(self.theme.fg),
            PaintView::Bg(bg),
            spaces(SIDE_PAD as int),
        ]
    }

    /// The end of a row of the content: the row's background up to the edge of the screen.
    pub open spec fn row_end(&self, filled: int, bg: Color) -> Seq<PaintView> {
        (if filled < self.cols {
            seq![
                PaintView::ResetAttributes,
                PaintView::Fg(self.theme.fg),
                PaintView::Bg(bg),
                spaces(self.cols - filled),
            ]
        } else {
            seq![]
        }) + seq![PaintView::ResetAttributes, PaintView::ResetColor]
    }

    /// A row of the content.
    pub open spec fn content_row(&self, screen_row: int, cells: Seq<Cell>) -> Seq<PaintView> {
        let mark = row_mark(*self.search, self.viewport_top + screen_row + 1);
        let bg = marked_bg(mark, *self.theme, self.theme.bg);
        self.row_start(screen_row, bg) + cells_paints(cells, mark, *self.theme) + self.row_end(
            self.toc() + SIDE_PAD + cells_width(cells),
            bg,
        )
    }

    /// A row of the screen behind the end of the content.
    pub open spec fn empty_row(&self, screen_row: int) -> Seq<PaintView> {
        seq![PaintView::MoveTo(0, (screen_row + 1) as u16)] + self.toc_part(screen_row) + seq![
            PaintView::Fg(self.theme.fg),
            PaintView::Bg(self.theme.bg),
            spaces(left_over(self.cols as int, self.toc())),
            PaintView::ResetColor,
        ]
    }

    /// The first `n` rows of the screen below the header.
    pub open spec fn screen(&self, rows: Seq<Seq<Cell>>, n: int) -> Seq<PaintView>
        decreases n,
    {
        if n <= 0 {
            seq![]
        } else {
            self.screen(rows, n - 1) + (if n - 1 < rows.len() {
                self.content_row(n - 1, rows[n - 1])
            } else {
                self.empty_row(n - 1)
            })
        }
    }

    /// Header and content of a frame.
    pub open spec fn frame(&self, rows: Seq<Seq<Cell>>) -> Seq<PaintView> {
        header(self.cols, *self.theme, self.version@, self.filename@, self.buffer_info)
            + self.screen(rows, self.content_rows as int)
    }
}

/// The contents of rows of cells.
pub open spec fn row_views(rows: Seq<Vec<Cell>>) -> Seq<Seq<Cell>> {
    rows.map_values(|row: Vec<Cell>| row@)
}

fn mark_of(search: &SearchState, row: usize) -> (mark: RowMark)
    ensures
        mark == row_mark(*search, row as int),
{
    if !search.is_match_row(row) {
        assert(search.query@.len() > 0 ==> forall|i: int|
            0 <= i < search.match_rows@.len() ==> #[trigger] search.match_rows@[i] != row) by {
            if search.query@.len() > 0 {
                assert forall|i: int| 0 <= i < search.match_rows@.len() implies
                    #[trigger] search.match_rows@[i] != row by {
                    assert(search.match_rows@.contains(search.match_rows@[i]));
                }
            }
        }
        RowMark::Plain
    } else {
        assert(exists|i: int|
            0 <= i < search.match_rows@.len() && #[trigger] search.match_rows@[i] == row);
        if search.is_current_row(row) {
            RowMark::Current
        } else {
            RowMark::Match
        }
    }
}

fn bg_of(mark: RowMark, theme: &Theme, own: Color) -> (c: Color)
    ensures
        c == marked_bg(mark, *theme, own),
{
    match mark {
        RowMark::Current => theme.search_current_bg(),
        RowMark::Match => theme.search_match_bg(),
        RowMark::Plain => own,
    }
}

/// A color by its parts; `fallback` where there are none.
pub fn rgb_to_color(rgb: Option<(u8, u8, u8)>, fallback: Color) -> (c: Color)
    ensures
        c == color_or(rgb, fallback),
{
    match rgb {
        Some((r, g, b)) => Color::Rgb { r, g, b },
        None => fallback,
    }
}

fn draw_cell(out: &mut Vec<Paint>, cell: &Cell, mark: RowMark, theme: &Theme)
    ensures
        paint_views(final(out)@) == paint_views(old(out)@) + cell_paints(*cell, mark, *theme),
{
    let ghost before = paint_views(out@);
    let fg = rgb_to_color(cell.fg, theme.fg);
    let bg = bg_of(mark, theme, rgb_to_color(cell.bg, theme.bg));
    draw(out, Paint::ResetAttributes);
    if cell.inverse {
        draw(out, Paint::Fg(bg));
        draw(out, Paint::Bg(fg));
    } else {
        draw(out, Paint::Fg(fg));
        draw(out, Paint::Bg(bg));
    }
    if cell.bold {
        draw(out, Paint::Bold);
    }
    if cell.underline {
        draw(out, Paint::Underlined);
    }
    if cell.italic {
        draw(out, Paint::Italic);
    }
    if cell.text.as_str().is_empty() {
        print_spaces(out, 1);
    } else {
        print(out, cell.text.as_str());
    }
    assert(paint_views(out@) =~= before + cell_paints(*cell, mark, *theme));
}

fn draw_cells(out: &mut Vec<Paint>, cells: &Vec<Cell>, mark: RowMark, theme: &Theme) -> (w: usize)
    ensures
        paint_views(final(out)@) == paint_views(old(out)@) + cells_paints(cells@, mark, *theme),
        w == if cells_width(cells@) > usize::MAX {
            usize::MAX as int
        } else {
            cells_width(cells@)
        },
        cells_width(cells@) >= 0,
{
    let ghost before = paint_views(out@);
    let mut w: usize = 0;
    let mut i: usize = 0;
    assert(cells@.take(0) =~= seq![]);
    assert(before + cells_paints(cells@.take(0), mark, *theme) =~= before);
    while i < cells.len()
        invariant
            i <= cells@.len(),
            paint_views(out@) == before + cells_paints(cells@.take(i as int), mark, *theme),
            cells_width(cells@.take(i as int)) >= 0,
            w == if cells_width(cells@.take(i as int)) > usize::MAX {
                usize::MAX as int
            } else {
                cells_width(cells@.take(i as int))
            },
        decreases cells@.len() - i,
    {
        assert(cells@.take(i + 1).drop_last() =~= cells@.take(i as int));
        assert(cells@.take(i + 1).last() == cells@[i as int]);
        let ghost so_far = cells_paints(cells@.take(i as int), mark, *theme);
        draw_cell(out, &cells[i], mark, theme);
        assert(paint_views(out@) =~= before + (so_far + cell_paints(
            cells@[i as int],
            mark,
            *theme,
        )));
        let own: usize = if cells[i].text.as_str().is_empty() {
            1
        } else {
            width(cells[i].text.as_str())
        };
        w = capped_sum(w, own);
        i += 1;
    }
    assert(cells@.take(i as int) =~= cells@);
    w
}

fn draw_toc_part(
    out: &mut Vec<Paint>,
    view: &FrameView,
    screen_row: u16,
    toc: u16,
    current: Option<usize>,
)
    requires
        view.drawable(),
        toc == view.toc(),
        current == view.current(),
        screen_row < view.content_rows,
        current matches Some(c) ==> c < view.headings@.len(),
    ensures
        paint_views(final(out)@) == paint_views(old(out)@) + view.toc_part(screen_row as int),
{
    if toc > 0 {
        assert(can_show_row(
            heading_views(view.headings@),
            screen_row as int,
            toc as int,
            view.content_rows as int,
            current,
        ));
        let part = draw_toc_cell(
            view.headings,
            screen_row as usize,
            toc as usize,
            view.content_rows as usize,
            current,
            view.theme,
        );
        draw_all(out, part);
    } else {
        assert(paint_views(out@) =~= paint_views(out@) + view.toc_part(screen_row as int));
    }
}

fn draw_content_row(
    out: &mut Vec<Paint>,
    view: &FrameView,
    screen_row: u16,
    toc: u16,
    current: Option<usize>,
    cells: &Vec<Cell>,
)
    requires
        view.drawable(),
        toc == view.toc(),
        current == view.current(),
        screen_row < view.content_rows,
        current matches Some(c) ==> c < view.headings@.len(),
    ensures
        paint_views(final(out)@) == paint_views(old(out)@) + view.content_row(
            screen_row as int,
            cells@,
        ),
{
    let ghost before = paint_views(out@);
    let row: usize = view.viewport_top + screen_row as usize + 1;
    let mark = mark_of(view.search, row);
    let bg = bg_of(mark, view.theme, view.theme.bg);
    draw_row_start(out, view, screen_row, toc, current, bg);
    let w: usize = draw_cells(out, cells, mark, view.theme);
    let filled: usize = capped_sum(toc as usize + SIDE_PAD as usize, w);
    draw_row_end(out, view, filled, bg);
    let ghost width = view.toc() + SIDE_PAD + cells_width(cells@);
    assert(view.row_end(filled as int, bg) == view.row_end(width, bg));
    assert(paint_views(out@) =~= before + (view.row_start(screen_row as int, bg) + cells_paints(
        cells@,
        mark,
        *view.theme,
    ) + view.row_end(width, bg)));
}

fn draw_row_start(
    out: &mut Vec<Paint>,
    view: &FrameView,
    screen_row: u16,
    toc: u16,
    current: Option<usize>,
    bg: Color,
)
    requires
        view.drawable(),
        toc == view.toc(),
        current == view.current(),
        screen_row < view.content_rows,
        current matches Some(c) ==> c < view.headings@.len(),
    ensures
        paint_views(final(out)@) == paint_views(old(out)@) + view.row_start(screen_row as int, bg),
{
    let ghost before = paint_views(out@);
    draw(out, Paint::MoveTo(0, screen_row + 1));
    draw_toc_part(out, view, screen_row, toc, current);
    draw(out, Paint::ResetAttributes);
    draw(out, Paint::Fg(view.theme.fg));
    draw(out, Paint::Bg(bg));
    print_spaces(out, SIDE_PAD as usize);
    assert(paint_views(out@) =~= before + view.row_start(screen_row as int, bg));
}

fn draw_row_end(out: &mut Vec<Paint>, view: &FrameView, filled: usize, bg: Color)
    ensures
        paint_views(final(out)@) == paint_views(old(out)@) + view.row_end(filled as int, bg),
{
    let ghost before = paint_views(out@);
    if filled < view.cols as usize {
        draw(out, Paint::ResetAttributes);
        draw(out, Paint::Fg(view.theme.fg));
        draw(out, Paint::Bg(bg));
        print_spaces(out, view.cols as usize - filled);
    }
    draw(out, Paint::ResetAttributes);
    draw(out, Paint::ResetColor);
    assert(paint_views(out@) =~= before + view.row_end(filled as int, bg));
}

fn draw_empty_row(
    out: &mut Vec<Paint>,
    view: &FrameView,
    screen_row: u16,
    toc: u16,
    current: Option<usize>,
)
    requires
        view.drawable(),
        toc == view.toc(),
        current == view.current(),
        screen_row < view.content_rows,
        current matches Some(c) ==> c < view.headings@.len(),
    ensures
        paint_views(final(out)@) == paint_views(old(out)@) + view.empty_row(screen_row as int),
{
    let ghost before = paint_views(out@);
    draw(out, Paint::MoveTo(0, screen_row + 1));
    draw_toc_part(out, view, screen_row, toc, current);
    draw(out, Paint::Fg(view.theme.fg));
    draw(out, Paint::Bg(view.theme.bg));
    let n: usize = if view.cols > toc {
        view.cols as usize - toc as usize
    } else {
        0
    };
    print_spaces(out, n);
    draw(out, Paint::ResetColor);
    assert(paint_views(out@) =~= before + view.empty_row(screen_row as int));
}

/// Draw header and content of a frame from the cells that the view shows, row by row.
pub fn draw_frame(view: &FrameView, rows: &Vec<Vec<Cell>>) -> (out: Vec<Paint>)
    requires
        view.drawable(),
    ensures
        paint_views(out@) == view.frame(row_views(rows@)),
{
    let ghost all = row_views(rows@);
    let toc: u16 = toc_width_for(view.cols, view.toc_visible, view.headings.len());
    let current: Option<usize> = if toc > 0 {
        find_current_heading(view.headings, view.viewport_top + 1)
    } else {
        None
    };
    let mut out = draw_header(
        view.cols,
        view.theme,
        view.version,
        view.filename,
        view.buffer_info,
    );
    let ghost head = paint_views(out@);
    let mut n: u16 = 0;
    assert(head + view.screen(all, 0) =~= head);
    while n < view.content_rows
        invariant
            n <= view.content_rows,
            all == row_views(rows@),
            view.drawable(),
            toc == view.toc(),
            current == view.current(),
            current matches Some(c) ==> c < view.headings@.len(),
            paint_views(out@) == head + view.screen(all, n as int),
        decreases view.content_rows - n,
    {
        let ghost before = view.screen(all, n as int);
        if (n as usize) < rows.len() {
            assert(all[n as int] == rows@[n as int]@);
            draw_content_row(&mut out, view, n, toc, current, &rows[n as usize]);
            assert(paint_views(out@) =~= head + (before + view.content_row(n as int, all[n as int])));
        } else {
            draw_empty_row(&mut out, view, n, toc, current);
            assert(paint_views(out@) =~= head + (before + view.empty_row(n as int)));
        }
        n += 1;
    }
    out
}

// ---------------------------------------------------------------- laws

/// The background of a row, where a cell has none of its own: a row with the current match is
/// tinted by about a third, one with another match by less, and others have the theme's or their
/// own.
pub open spec fn background_is(c: Option<Color>, search: SearchState, row: int, theme: Theme, own: Color) -> bool {
    let matched = search.query@.len() > 0 && exists|i: int|
        0 <= i < search.match_rows@.len() && #[trigger] search.match_rows@[i] == row;
    let current = search.current < search.match_rows@.len()
        && search.match_rows@[search.current as int] == row;
    &&& matched && current ==> c == Some(tinted(theme.bg, theme.accent, 35, (40, 35, 15)))
    &&& matched && !current ==> c == Some(tinted(theme.bg, theme.accent, 15, (20, 18, 10)))
    &&& !matched ==> c == Some(own)
}

/// Whether a cell is shown by a piece of the screen: its text, or a blank, in its own colors or else
/// the theme's, swapped where it is inverse, and with its own attributes and no others.
pub open spec fn cell_shown(cell: Cell, p: Piece, search: SearchState, row: int, theme: Theme) -> bool {
    let fg = match cell.fg {
        Some((r, g, b)) => Color::Rgb { r, g, b },
        None => theme.fg,
    };
    let bg = match cell.bg {
        Some((r, g, b)) => Color::Rgb { r, g, b },
        None => theme.bg,
    };
    &&& p.text == (if cell.text@.len() == 0 {
        seq![' ']
    } else {
        cell.text@
    })
    &&& !cell.inverse ==> p.pen.fg == Some(fg) && background_is(p.pen.bg, search, row, theme, bg)
    &&& cell.inverse ==> p.pen.bg == Some(fg) && background_is(p.pen.fg, search, row, theme, bg)
    &&& p.pen.bold == cell.bold
    &&& p.pen.underlined == cell.underline
    &&& p.pen.italic == cell.italic
}

/// Whether a row of the content is shown by the pieces from `at` on.
pub open spec fn row_is_shown<'a>(
    view: FrameView<'a>,
    rows: Seq<Seq<Cell>>,
    r: int,
    p: Seq<Piece>,
    at: int,
) -> bool {
    let cells = rows[r];
    let row = view.viewport_top + r + 1;
    let left = view.cols - view.toc() - 2 - cells_width(cells);
    &&& 0 < at
    &&& at + cells.len() <= p.len()
    &&& p[at - 1].text == seq![' ', ' ']
    &&& p[at - 1].row == r + 1
    &&& p[at - 1].col == 0
    &&& background_is(p[at - 1].pen.bg, *view.search, row, *view.theme, view.theme.bg)
    &&& forall|k: int| 0 <= k < cells.len() ==> #[trigger] cell_is_at(view, rows, r, p, at, k)
    &&& left > 0 ==> {
        let fill = p[at + cells.len()];
        &&& at + cells.len() < p.len()
        &&& fill.text == repeated(' ', left as nat)
        &&& fill.row == r + 1
        &&& fill.nth == p[at - 1].nth + 1 + cells.len()
        &&& background_is(fill.pen.bg, *view.search, row, *view.theme, view.theme.bg)
    }
}

/// Whether the `k`-th cell of a row is shown by the `k`-th piece from `at` on.
pub open spec fn cell_is_at<'a>(
    view: FrameView<'a>,
    rows: Seq<Seq<Cell>>,
    r: int,
    p: Seq<Piece>,
    at: int,
    k: int,
) -> bool {
    &&& cell_shown(rows[r][k], p[at + k], *view.search, view.viewport_top + r + 1, *view.theme)
    &&& p[at + k].row == r + 1
    &&& p[at + k].col == 0
    &&& p[at + k].nth == p[at - 1].nth + 1 + k
}

/// Every cell of the content that is on the screen is shown there: on its row, behind two blanks of
/// padding, in the order of the cells, each in its own colors and attributes. What is left of the
/// row is filled with its background.
pub proof fn law_cells_are_shown<'a>(view: FrameView<'a>, rows: Seq<Seq<Cell>>, r: int) -> (at: int)
    requires
        0 <= r < view.content_rows < u16::MAX,
        r < rows.len(),
    ensures
        row_is_shown(view, rows, r, all_drawn_on(empty_terminal(), view.frame(rows)).pieces, at),
{
    let head = header(view.cols, *view.theme, view.version@, view.filename@, view.buffer_info);
    let cells = rows[r];
    let row = view.viewport_top + r + 1;
    let mark = row_mark(*view.search, row);
    let bg = marked_bg(mark, *view.theme, view.theme.bg);
    let start = view.row_start(r, bg);
    let body = cells_paints(cells, mark, *view.theme);
    let filled = view.toc() + SIDE_PAD + cells_width(cells);
    let end = view.row_end(filled, bg);
    let h = all_drawn_on(empty_terminal(), head);
    let t0 = all_drawn_on(h, view.screen(rows, r));
    let t1 = all_drawn_on(t0, start);
    let t2 = all_drawn_on(t1, body);
    let t3 = all_drawn_on(t2, end);
    let t4 = all_drawn_on(h, view.screen(rows, view.content_rows as int));
    let at = t1.pieces.len() as int;
    lemma_row_start_drawn(t0, view, r, bg);
    lemma_cells_drawn(t1, cells, mark, *view.theme);
    lemma_end_stays(t2, view, filled, bg);
    lemma_drawn_add(h, view.screen(rows, r), start + body + end);
    lemma_drawn_add(t0, start + body, end);
    lemma_drawn_add(t0, start, body);
    assert(view.screen(rows, r + 1) == view.screen(rows, r) + (start + body + end));
    assert(t3 == all_drawn_on(h, view.screen(rows, r + 1)));
    lemma_rows_stay(h, view, rows, r + 1, view.content_rows as int);
    lemma_drawn_add(empty_terminal(), head, view.screen(rows, view.content_rows as int));
    assert(t4.pieces[at - 1] == t3.pieces[at - 1]);
    assert(t3.pieces[at - 1] == t2.pieces[at - 1]);
    assert(t2.pieces[at - 1] == t1.pieces[at - 1]);
    if filled < view.cols {
        let fill = t4.pieces[at + cells.len()];
        assert(fill == t3.pieces[at + cells.len()]);
        assert(background_is(fill.pen.bg, *view.search, row, *view.theme, view.theme.bg));
        assert(fill.text == repeated(' ', (view.cols - view.toc() - 2 - cells_width(cells)) as nat));
    }
    assert(background_is(
        t4.pieces[at - 1].pen.bg,
        *view.search,
        row,
        *view.theme,
        view.theme.bg,
    ));
    let p = t4.pieces;
    assert(all_drawn_on(empty_terminal(), view.frame(rows)).pieces == p);
    assert(p[at - 1].text == seq![' ', ' '] && p[at - 1].row == r + 1 && p[at - 1].col == 0);
    assert(p[at - 1].nth + 1 == t1.nth);
    assert(0 < at && at + cells.len() <= p.len());
    assert forall|k: int| 0 <= k < cells.len() implies #[trigger] cell_is_at(
        view,
        rows,
        r,
        p,
        at,
        k,
    ) by {
        assert(t2.pieces[at + k] == cell_piece(t1, cells[k], mark, *view.theme, k));
        assert(t3.pieces[at + k] == t2.pieces[at + k]);
        assert(t4.pieces[at + k] == t3.pieces[at + k]);
        lemma_cell_piece(t1, cells[k], *view.search, row, *view.theme, k);
    }
    let left = view.cols - view.toc() - 2 - cells_width(cells);
    if left > 0 {
        let fill = p[at + cells.len()];
        assert(at + cells.len() < p.len());
        assert(fill.row == r + 1);
        assert(fill.nth == p[at - 1].nth + 1 + cells.len());
    }
    assert(row_is_shown(view, rows, r, p, at));
    at
}

proof fn lemma_cell_piece(t: Terminal, cell: Cell, search: SearchState, row: int, theme: Theme, k: int)
    ensures
        cell_shown(cell, cell_piece(t, cell, row_mark(search, row), theme, k), search, row, theme),
{
    assert(repeated(' ', 1) =~= seq![' ']);
}

proof fn lemma_row_start_drawn<'a>(t: Terminal, view: FrameView<'a>, r: int, bg: Color)
    requires
        0 <= r < u16::MAX,
    ensures
        ({
            let u = all_drawn_on(t, view.row_start(r, bg));
            let pad = u.pieces.last();
            &&& u.pieces.len() > t.pieces.len()
            &&& u.row == r + 1
            &&& u.col == 0
            &&& pad.text == seq![' ', ' ']
            &&& pad.row == r + 1
            &&& pad.col == 0
            &&& pad.nth + 1 == u.nth
            &&& pad.pen.bg == Some(bg)
        }),
{
    broadcast use {lemma_drawn_push, lemma_drawn_add};

    let moved = drawn_on(t, PaintView::MoveTo(0, (r + 1) as u16));
    assert(all_drawn_on(t, seq![]) == t);
    lemma_toc_stays(moved, view, r);
    lemma_four_drawn(
        all_drawn_on(moved, view.toc_part(r)),
        PaintView::ResetAttributes,
        PaintView::Fg(view.theme.fg),
        PaintView::Bg(bg),
        spaces(SIDE_PAD as int),
    );
    assert(repeated(' ', 2) =~= seq![' ', ' ']);
}

/// The piece of the screen that a cell is drawn as.
spec fn cell_piece(t: Terminal, cell: Cell, mark: RowMark, theme: Theme, k: int) -> Piece {
    let fg = color_or(cell.fg, theme.fg);
    let bg = marked_bg(mark, theme, color_or(cell.bg, theme.bg));
    Piece {
        text: if cell.text@.len() == 0 {
            repeated(' ', 1)
        } else {
            cell.text@
        },
        row: t.row,
        col: t.col,
        nth: t.nth + k,
        pen: Pen {
            fg: Some(
                if cell.inverse {
                    bg
                } else {
                    fg
                },
            ),
            bg: Some(
                if cell.inverse {
                    fg
                } else {
                    bg
                },
            ),
            bold: cell.bold,
            underlined: cell.underline,
            italic: cell.italic,
        },
    }
}

proof fn lemma_cell_drawn(t: Terminal, cell: Cell, mark: RowMark, theme: Theme)
    ensures
        ({
            let u = all_drawn_on(t, cell_paints(cell, mark, theme));
            &&& u.pieces == t.pieces.push(cell_piece(t, cell, mark, theme, 0))
            &&& u.row == t.row
            &&& u.col == t.col
            &&& u.nth == t.nth + 1
        }),
{
    broadcast use {lemma_drawn_push, lemma_drawn_add};

    let fg = color_or(cell.fg, theme.fg);
    let bg = marked_bg(mark, theme, color_or(cell.bg, theme.bg));
    let first = if cell.inverse {
        bg
    } else {
        fg
    };
    let second = if cell.inverse {
        fg
    } else {
        bg
    };
    lemma_three_drawn(
        t,
        PaintView::ResetAttributes,
        PaintView::Fg(first),
        PaintView::Bg(second),
    );
}

proof fn lemma_three_drawn(t: Terminal, a: PaintView, b: PaintView, c: PaintView)
    ensures
        all_drawn_on(t, seq![a, b, c]) == drawn_on(drawn_on(drawn_on(t, a), b), c),
{
    broadcast use lemma_drawn_push;

    assert(seq![a, b, c] =~= Seq::empty().push(a).push(b).push(c));
}

proof fn lemma_four_drawn(t: Terminal, a: PaintView, b: PaintView, c: PaintView, d: PaintView)
    ensures
        all_drawn_on(t, seq![a, b, c, d]) == drawn_on(drawn_on(drawn_on(drawn_on(t, a), b), c), d),
{
    broadcast use lemma_drawn_push;

    assert(seq![a, b, c, d] =~= Seq::empty().push(a).push(b).push(c).push(d));
}

proof fn lemma_two_drawn(t: Terminal, a: PaintView, b: PaintView)
    ensures
        all_drawn_on(t, seq![a, b]) == drawn_on(drawn_on(t, a), b),
{
    broadcast use lemma_drawn_push;

    assert(seq![a, b] =~= Seq::empty().push(a).push(b));
}

proof fn lemma_cells_drawn(t: Terminal, cells: Seq<Cell>, mark: RowMark, theme: Theme)
    ensures
        ({
            let u = all_drawn_on(t, cells_paints(cells, mark, theme));
            &&& u.pieces.len() == t.pieces.len() + cells.len()
            &&& forall|i: int| 0 <= i < t.pieces.len() ==> u.pieces[i] == t.pieces[i]
            &&& forall|k: int|
                0 <= k < cells.len() ==> u.pieces[t.pieces.len() + k] == cell_piece(
                    t,
                    #[trigger] cells[k],
                    mark,
                    theme,
                    k,
                )
            &&& u.row == t.row
            &&& u.col == t.col
            &&& u.nth == t.nth + cells.len()
        }),
    decreases cells.len(),
{
    broadcast use {lemma_drawn_push, lemma_drawn_add};

    if cells.len() > 0 {
        let front = cells.drop_last();
        lemma_cells_drawn(t, front, mark, theme);
        let v = all_drawn_on(t, cells_paints(front, mark, theme));
        lemma_cell_drawn(v, cells.last(), mark, theme);
        let u = all_drawn_on(t, cells_paints(cells, mark, theme));
        assert forall|k: int| 0 <= k < cells.len() implies u.pieces[t.pieces.len() + k]
            == cell_piece(t, #[trigger] cells[k], mark, theme, k) by {
            if k < front.len() {
                assert(cells[k] == front[k]);
                assert(u.pieces[t.pieces.len() + k] == v.pieces[t.pieces.len() + k]);
            }
        }
    }
}

/// The table of contents writes on the row it is on.
proof fn lemma_toc_stays<'a>(t: Terminal, view: FrameView<'a>, r: int)
    ensures
        ({
            let u = all_drawn_on(t, view.toc_part(r));
            u.row == t.row && u.col == t.col && u.pieces.len() >= t.pieces.len() && forall|i: int|
                0 <= i < t.pieces.len() ==> u.pieces[i] == t.pieces[i]
        }),
{
    broadcast use {lemma_drawn_push, lemma_drawn_add};

    assert(toc_stays(view.toc_part(r)));
    lemma_stays(t, view.toc_part(r));
}

/// Whether commands neither move the cursor to another place nor clear anything.
spec fn toc_stays(paints: Seq<PaintView>) -> bool {
    forall|k: int|
        0 <= k < paints.len() ==> !(#[trigger] paints[k] matches PaintView::MoveTo(_, _))
            && paints[k] != PaintView::Clear
}

proof fn lemma_stays(t: Terminal, paints: Seq<PaintView>)
    requires
        toc_stays(paints),
    ensures
        ({
            let u = all_drawn_on(t, paints);
            u.row == t.row && u.col == t.col && u.pieces.len() >= t.pieces.len() && forall|i: int|
                0 <= i < t.pieces.len() ==> u.pieces[i] == t.pieces[i]
        }),
    decreases paints.len(),
{
    if paints.len() > 0 {
        assert forall|k: int| 0 <= k < paints.drop_last().len() implies !(
        #[trigger] paints.drop_last()[k] matches PaintView::MoveTo(_, _)) && paints.drop_last()[k]
            != PaintView::Clear by {
            assert(paints.drop_last()[k] == paints[k]);
        }
        lemma_stays(t, paints.drop_last());
        assert(paints.last() == paints[paints.len() - 1]);
    }
}

/// The end of a row adds its fill, if there is one.
proof fn lemma_end_stays<'a>(t: Terminal, view: FrameView<'a>, filled: int, bg: Color)
    ensures
        ({
            let u = all_drawn_on(t, view.row_end(filled, bg));
            &&& u.pieces.len() >= t.pieces.len()
            &&& forall|i: int| 0 <= i < t.pieces.len() ==> u.pieces[i] == t.pieces[i]
            &&& filled < view.cols ==> {
                let fill = u.pieces[t.pieces.len() as int];
                &&& u.pieces.len() == t.pieces.len() + 1
                &&& fill.text == repeated(' ', (view.cols - filled) as nat)
                &&& fill.row == t.row
                &&& fill.nth == t.nth
                &&& fill.pen.bg == Some(bg)
            }
        }),
{
    broadcast use {lemma_drawn_push, lemma_drawn_add};

    let blanks = spaces(view.cols - filled);
    lemma_four_drawn(
        t,
        PaintView::ResetAttributes,
        PaintView::Fg(view.theme.fg),
        PaintView::Bg(bg),
        blanks,
    );
    let fill = seq![
        PaintView::ResetAttributes,
        PaintView::Fg(view.theme.fg),
        PaintView::Bg(bg),
        blanks,
    ];
    let u = if filled < view.cols {
        all_drawn_on(t, fill)
    } else {
        t
    };
    assert(all_drawn_on(t, seq![]) == t);
    lemma_two_drawn(u, PaintView::ResetAttributes, PaintView::ResetColor);
}

/// Later rows leave what earlier ones wrote.
proof fn lemma_rows_stay<'a>(
    t: Terminal,
    view: FrameView<'a>,
    rows: Seq<Seq<Cell>>,
    m: int,
    n: int,
)
    requires
        0 <= m <= n,
    ensures
        ({
            let u = all_drawn_on(t, view.screen(rows, m));
            let v = all_drawn_on(t, view.screen(rows, n));
            u.pieces.len() <= v.pieces.len() && forall|i: int|
                0 <= i < u.pieces.len() ==> #[trigger] v.pieces[i] == u.pieces[i]
        }),
    decreases n,
{
    broadcast use {lemma_drawn_push, lemma_drawn_add};

    if m < n {
        lemma_rows_stay(t, view, rows, m, n - 1);
        let u = all_drawn_on(t, view.screen(rows, n - 1));
        let row = if n - 1 < rows.len() {
            view.content_row(n - 1, rows[n - 1])
        } else {
            view.empty_row(n - 1)
        };
        assert forall|i: int| 0 <= i < u.pieces.len() implies #[trigger] all_drawn_on(
            u,
            row,
        ).pieces[i] == u.pieces[i] && u.pieces.len() <= all_drawn_on(u, row).pieces.len() by {
            lemma_row_clears_nothing(view, rows, n - 1);
            lemma_pieces_stay(u, row, i);
        }
        lemma_row_clears_nothing(view, rows, n - 1);
        lemma_pieces_grow(u, row);
    }
}

proof fn lemma_pieces_grow(t: Terminal, paints: Seq<PaintView>)
    requires
        forall|k: int| 0 <= k < paints.len() ==> #[trigger] paints[k] != PaintView::Clear,
    ensures
        t.pieces.len() <= all_drawn_on(t, paints).pieces.len(),
    decreases paints.len(),
{
    if paints.len() > 0 {
        lemma_pieces_grow(t, paints.drop_last());
        assert(paints.last() == paints[paints.len() - 1]);
    }
}

proof fn lemma_row_clears_nothing<'a>(view: FrameView<'a>, rows: Seq<Seq<Cell>>, r: int)
    ensures
        0 <= r < rows.len() ==> forall|k: int|
            0 <= k < view.content_row(r, rows[r]).len() ==> #[trigger] view.content_row(
                r,
                rows[r],
            )[k] != PaintView::Clear,
        forall|k: int|
            0 <= k < view.empty_row(r).len() ==> #[trigger] view.empty_row(r)[k]
                != PaintView::Clear,
{
    assert(toc_stays(view.toc_part(r)));
    if 0 <= r < rows.len() {
        let mark = row_mark(*view.search, view.viewport_top + r + 1);
        lemma_cells_clear_nothing(rows[r], mark, *view.theme);
    }
}

proof fn lemma_cells_clear_nothing(cells: Seq<Cell>, mark: RowMark, theme: Theme)
    ensures
        forall|k: int|
            0 <= k < cells_paints(cells, mark, theme).len() ==> #[trigger] cells_paints(
                cells,
                mark,
                theme,
            )[k] != PaintView::Clear,
    decreases cells.len(),
{
    if cells.len() > 0 {
        lemma_cells_clear_nothing(cells.drop_last(), mark, theme);
        let last = cell_paints(cells.last(), mark, theme);
        assert(forall|k: int| 0 <= k < last.len() ==> #[trigger] last[k] != PaintView::Clear);
    }
}

/// The table of contents takes three tenths of the screen, but no less than 20 and no more than 34
/// columns, and leaves more than 40 to the content. It is not there where it is not wanted or there
/// are no headings.
pub proof fn law_toc_width(cols: u16, visible: bool, headings: int)
    ensures
        !visible || headings <= 0 ==> toc_width(cols, visible, headings) == 0,
        toc_width(cols, visible, headings) != 0 ==> {
            let w = toc_width(cols, visible, headings);
            &&& 20 <= w <= 34
            &&& w + 40 < cols
            &&& w == 20 || 10 * w <= 3 * cols
            &&& w == 34 || 10 * (w + 1) > 3 * cols
        },
        visible && headings > 0 && cols > 74 ==> toc_width(cols, visible, headings) != 0,
        visible && headings > 0 && 60 < cols <= 74 ==> toc_width(cols, visible, headings) >= 20,
{
}

} // verus!
