//! What is drawn on the terminal: commands, and the width of text.

use vstd::prelude::*;

use crate::text::{push_repeated, repeated, string_of};
use crate::theme::Color;

verus! {

/// A command to the terminal.
#[derive(Debug, Clone, PartialEq, Eq)]
pub enum Paint {
    /// Clear the screen.
    Clear,
    /// Move the cursor to a column and a row.
    MoveTo(u16, u16),
    /// Set the foreground color.
    Fg(Color),
    /// Set the background color.
    Bg(Color),
    Bold,
    /// Neither bold nor dim.
    NormalIntensity,
    Underlined,
    Italic,
    /// Reset all attributes and colors.
    ResetAttributes,
    /// Reset the colors alone.
    ResetColor,
    Print(String),
    /// Bytes for the terminal as they are.
    Raw(Vec<u8>),
    ShowCursor,
}

/// What a [`Paint`] stands for.
pub enum PaintView {
    Clear,
    MoveTo(u16, u16),
    Fg(Color),
    Bg(Color),
    Bold,
    NormalIntensity,
    Underlined,
    Italic,
    ResetAttributes,
    ResetColor,
    Print(Seq<char>),
    Raw(Seq<u8>),
    ShowCursor,
}

impl View for Paint {
    type V = PaintView;

    open spec fn view(&self) -> PaintView {
        match self {
            Paint::Clear => PaintView::Clear,
            Paint::MoveTo(x, y) => PaintView::MoveTo(*x, *y),
            Paint::Fg(c) => PaintView::Fg(*c),
            Paint::Bg(c) => PaintView::Bg(*c),
            Paint::Bold => PaintView::Bold,
            Paint::NormalIntensity => PaintView::NormalIntensity,
            Paint::Underlined => PaintView::Underlined,
            Paint::Italic => PaintView::Italic,
            Paint::ResetAttributes => PaintView::ResetAttributes,
            Paint::ResetColor => PaintView::ResetColor,
            Paint::Print(s) => PaintView::Print(s@),
            Paint::Raw(b) => PaintView::Raw(b@),
            Paint::ShowCursor => PaintView::ShowCursor,
        }
    }
}

/// What a list of commands stands for.
pub open spec fn paint_views(paints: Seq<Paint>) -> Seq<PaintView> {
    paints.map_values(|p: Paint| p@)
}

/// Put a command behind a list.
pub fn draw(out: &mut Vec<Paint>, p: Paint)
    ensures
        paint_views(final(out)@) == paint_views(old(out)@).push(p@),
{
    let ghost before = paint_views(out@);
    let ghost view = p@;
    out.push(p);
    assert(paint_views(out@) =~= before.push(view));
}

/// Put a list of commands behind another.
pub fn draw_all(out: &mut Vec<Paint>, more: Vec<Paint>)
    ensures
        paint_views(final(out)@) == paint_views(old(out)@) + paint_views(more@),
{
    let ghost before = paint_views(out@);
    let ghost view = paint_views(more@);
    let mut rest = more;
    out.append(&mut rest);
    assert(paint_views(out@) =~= before + view);
}

/// Put a text behind a list of commands.
pub fn print(out: &mut Vec<Paint>, s: &str)
    ensures
        paint_views(final(out)@) == paint_views(old(out)@).push(PaintView::Print(s@)),
{
    draw(out, Paint::Print(s.to_owned()));
}

/// Put a run of spaces behind a list of commands.
pub fn print_spaces(out: &mut Vec<Paint>, n: usize)
    ensures
        paint_views(final(out)@) == paint_views(old(out)@).push(
            PaintView::Print(repeated(' ', n as nat)),
        ),
{
    let mut spaces: Vec<char> = Vec::new();
    push_repeated(&mut spaces, ' ', n);
    assert(spaces@ =~= repeated(' ', n as nat));
    draw(out, Paint::Print(string_of(&spaces)));
}

/// How many columns a text takes up on the terminal.
pub uninterp spec fn width_of(s: Seq<char>) -> nat;

/// `UnicodeWidthStr::width`: how many columns a text takes up. In a text of printable ASCII
/// characters each takes one.
#[verifier::external_body]
pub(crate) fn width(s: &str) -> (w: usize)
    ensures
        w == width_of(s@),
        (forall|i: int| 0 <= i < s@.len() ==> ' ' <= #[trigger] s@[i] <= '~') ==> w == s@.len(),
{
    unicode_width::UnicodeWidthStr::width(s)
}

/// `a + b`, or the greatest number where that is too great.
pub fn capped_sum(a: usize, b: usize) -> (r: usize)
    ensures
        r == if a + b > usize::MAX {
            usize::MAX as int
        } else {
            a + b
        },
{
    if a > usize::MAX - b {
        usize::MAX
    } else {
        a + b
    }
}

// ---------------------------------------------------------------- what the terminal shows

/// How a terminal writes: its colors, where they were set, and attributes.
pub struct Pen {
    pub fg: Option<Color>,
    pub bg: Option<Color>,
    pub bold: bool,
    pub underlined: bool,
    pub italic: bool,
}

/// A text on the screen: where the cursor was moved to before it, how many other texts were written
/// since, and how it was written.
pub struct Piece {
    pub text: Seq<char>,
    pub row: int,
    pub col: int,
    pub nth: int,
    pub pen: Pen,
}

/// A terminal: its pen, where the cursor was moved to last, how many texts were written since, and
/// all that was written.
pub struct Terminal {
    pub pen: Pen,
    pub row: int,
    pub col: int,
    pub nth: int,
    pub pieces: Seq<Piece>,
}

/// The pen without colors and attributes.
pub open spec fn plain_pen() -> Pen {
    Pen { fg: None, bg: None, bold: false, underlined: false, italic: false }
}

/// A terminal on which nothing was written.
pub open spec fn empty_terminal() -> Terminal {
    Terminal { pen: plain_pen(), row: 0, col: 0, nth: 0, pieces: seq![] }
}

/// What a terminal does with a drawing command.
pub open spec fn drawn_on(t: Terminal, p: PaintView) -> Terminal {
    match p {
        PaintView::MoveTo(x, y) => Terminal { row: y as int, col: x as int, nth: 0, ..t },
        PaintView::Fg(c) => Terminal { pen: Pen { fg: Some(c), ..t.pen }, ..t },
        PaintView::Bg(c) => Terminal { pen: Pen { bg: Some(c), ..t.pen }, ..t },
        PaintView::Bold => Terminal { pen: Pen { bold: true, ..t.pen }, ..t },
        PaintView::NormalIntensity => Terminal { pen: Pen { bold: false, ..t.pen }, ..t },
        PaintView::Underlined => Terminal { pen: Pen { underlined: true, ..t.pen }, ..t },
        PaintView::Italic => Terminal { pen: Pen { italic: true, ..t.pen }, ..t },
        PaintView::ResetAttributes => Terminal { pen: plain_pen(), ..t },
        PaintView::ResetColor => Terminal { pen: Pen { fg: None, bg: None, ..t.pen }, ..t },
        PaintView::Print(s) => Terminal {
            nth: t.nth + 1,
            pieces: t.pieces.push(
                Piece { text: s, row: t.row, col: t.col, nth: t.nth, pen: t.pen },
            ),
            ..t
        },
        PaintView::Clear => Terminal { pieces: seq![], ..t },
        PaintView::Raw(_) | PaintView::ShowCursor => t,
    }
}

/// What a terminal shows once commands were drawn on it.
pub open spec fn all_drawn_on(t: Terminal, paints: Seq<PaintView>) -> Terminal
    decreases paints.len(),
{
    if paints.len() == 0 {
        t
    } else {
        drawn_on(all_drawn_on(t, paints.drop_last()), paints.last())
    }
}

/// One command more is drawn on what the others give.
pub broadcast proof fn lemma_drawn_push(t: Terminal, paints: Seq<PaintView>, p: PaintView)
    ensures
        #[trigger] all_drawn_on(t, paints.push(p)) == drawn_on(all_drawn_on(t, paints), p),
{
    assert(paints.push(p).drop_last() =~= paints);
}

/// Commands are drawn on what those before them give.
pub broadcast proof fn lemma_drawn_add(t: Terminal, a: Seq<PaintView>, b: Seq<PaintView>)
    ensures
        #[trigger] all_drawn_on(t, a + b) == all_drawn_on(all_drawn_on(t, a), b),
    decreases b.len(),
{
    if b.len() == 0 {
        assert(a + b =~= a);
    } else {
        lemma_drawn_add(t, a, b.drop_last());
        assert((a + b).drop_last() =~= a + b.drop_last());
    }
}

/// Commands that clear nothing leave what was written before them.
pub proof fn lemma_pieces_stay(t: Terminal, paints: Seq<PaintView>, i: int)
    requires
        forall|k: int| 0 <= k < paints.len() ==> #[trigger] paints[k] != PaintView::Clear,
        0 <= i < t.pieces.len(),
    ensures
        i < all_drawn_on(t, paints).pieces.len(),
        all_drawn_on(t, paints).pieces[i] == t.pieces[i],
        t.pieces.len() <= all_drawn_on(t, paints).pieces.len(),
    decreases paints.len(),
{
    if paints.len() > 0 {
        lemma_pieces_stay(t, paints.drop_last(), i);
        assert(paints.last() == paints[paints.len() - 1]);
    }
}

/// A command does on a terminal what its name says: it moves the cursor, sets or resets colors and
/// attributes, writes, or clears.
pub proof fn law_commands_on_a_terminal(
    t: Terminal,
    x: u16,
    y: u16,
    color: Color,
    text: String,
)
    ensures
        ({
            let moved = drawn_on(t, Paint::MoveTo(x, y)@);
            moved.row == y && moved.col == x && moved.nth == 0 && moved.pen == t.pen && moved.pieces
                == t.pieces
        }),
        ({
            let colored = drawn_on(drawn_on(t, Paint::Fg(color)@), Paint::Bg(color)@);
            &&& colored.pen.fg == Some(color) && colored.pen.bg == Some(color)
            &&& drawn_on(t, Paint::Fg(color)@).pen.bg == t.pen.bg
            &&& drawn_on(t, Paint::Bg(color)@).pen.fg == t.pen.fg
            &&& drawn_on(colored, Paint::ResetColor@).pen.fg is None
            &&& drawn_on(colored, Paint::ResetColor@).pen.bg is None
            &&& drawn_on(colored, Paint::ResetColor@).pen.bold == t.pen.bold
        }),
        drawn_on(t, Paint::Bold@).pen == (Pen { bold: true, ..t.pen }),
        drawn_on(t, Paint::NormalIntensity@).pen == (Pen { bold: false, ..t.pen }),
        drawn_on(t, Paint::Underlined@).pen == (Pen { underlined: true, ..t.pen }),
        drawn_on(t, Paint::Italic@).pen == (Pen { italic: true, ..t.pen }),
        ({
            let pen = drawn_on(t, Paint::ResetAttributes@).pen;
            pen.fg is None && pen.bg is None && !pen.bold && !pen.underlined && !pen.italic
        }),
        ({
            let written = drawn_on(t, Paint::Print(text)@);
            &&& written.pieces.len() == t.pieces.len() + 1
            &&& written.pieces.drop_last() == t.pieces
            &&& written.pieces.last() == (Piece {
                text: text@,
                row: t.row,
                col: t.col,
                nth: t.nth,
                pen: t.pen,
            })
            &&& written.nth == t.nth + 1
        }),
        drawn_on(t, Paint::Clear@).pieces.len() == 0,
        drawn_on(t, Paint::ShowCursor@) == t,
{
    assert(drawn_on(t, Paint::Print(text)@).pieces.drop_last() =~= t.pieces);
}

/// A list stands for its commands in their order; bytes for the terminal stand for themselves.
pub proof fn law_lists_of_commands(paints: Seq<Paint>, i: int, bytes: Vec<u8>)
    requires
        0 <= i < paints.len(),
    ensures
        paint_views(paints).len() == paints.len(),
        paint_views(paints)[i] == paints[i]@,
        Paint::Raw(bytes)@ == PaintView::Raw(bytes@),
        Paint::ShowCursor@ == PaintView::ShowCursor,
{
}

} // verus!
