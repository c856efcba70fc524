//! Image files by themselves: on the whole screen, or printed.

use vstd::prelude::*;
use vstd::utf8::encode_utf8;

use crate::graphics::{
    emit_kitty_image, base64_text, kitty_from, push_bytes, GraphicsProtocol, KITTY_DELETE,
    KITTY_DELETE_ALL,
};
use crate::images::{content_of, image_size, load_image, loaded_view, loads_as, size_in};
use crate::paint::{
    all_drawn_on, draw, drawn_on, lemma_drawn_push, paint_views, Paint, PaintView, Terminal,
};
use crate::paths::{file_name, name_of};
use crate::sixel::{emit_sixel_image, is_sixel_of, NotAnImage};
use crate::text::{
    chars_of, decimal, lemma_parse_decimal, parse_number, parsed_number, push_chars, push_repeated,
    push_str, repeated, string_of,
};

verus! {

/// Why an image file cannot be shown.
#[derive(Debug, Clone, Copy, PartialEq, Eq, Structural)]
pub enum ImageProblem {
    /// It cannot be loaded.
    NotLoaded,
    /// It cannot be turned into graphics for the terminal.
    NotShown,
}

/// The size of a cell in pixels, by the size of the terminal in pixels and in cells, where all of
/// that is known; else 8 by 16.
pub open spec fn cell_size(window: Option<(u16, u16, u16, u16)>) -> (int, int) {
    match window {
        Some((width, height, cols, rows)) => if width > 0 && height > 0 && cols > 0 && rows > 0 {
            (width as int / cols as int, height as int / rows as int)
        } else {
            (8, 16)
        },
        None => (8, 16),
    }
}

/// Get the terminal's cell dimensions in pixels, by its width and height in pixels and its columns
/// and rows, or a sensible default.
pub fn cell_size_px(window: Option<(u16, u16, u16, u16)>) -> (size: (u16, u16))
    ensures
        size.0 == cell_size(window).0,
        size.1 == cell_size(window).1,
{
    match window {
        Some((width, height, cols, rows)) => {
            if width > 0 && height > 0 && cols > 0 && rows > 0 {
                (width / cols, height / rows)
            } else {
                (8, 16)
            }
        },
        None => (8, 16),
    }
}

/// The lesser of two numbers.
pub open spec fn lesser(a: u16, b: u16) -> u16 {
    if a <= b {
        a
    } else {
        b
    }
}

fn min(a: u16, b: u16) -> (r: u16)
    ensures
        r == lesser(a, b),
{
    if a <= b {
        a
    } else {
        b
    }
}

/// Whether bytes are the sequence that shows an image by a protocol, in so many columns and rows.
pub open spec fn shows_image(
    bytes: Seq<u8>,
    gfx: GraphicsProtocol,
    png: Seq<u8>,
    cols: u16,
    rows: u16,
) -> bool {
    match gfx {
        GraphicsProtocol::Kitty => bytes == encode_utf8(kitty_from(base64_text(png), 0, cols, rows)),
        GraphicsProtocol::Sixel => is_sixel_of(bytes, png),
        GraphicsProtocol::NoGraphics => false,
    }
}

/// Whether there is a sequence that shows an image by a protocol.
pub open spec fn showable(gfx: GraphicsProtocol, png: Seq<u8>) -> bool {
    match gfx {
        GraphicsProtocol::Kitty => true,
        GraphicsProtocol::Sixel => image_size(png) is Some,
        GraphicsProtocol::NoGraphics => false,
    }
}

fn image_sequence(gfx: GraphicsProtocol, png: &Vec<u8>, cols: u16, rows: u16) -> (r: Result<
    Vec<u8>,
    NotAnImage,
>)
    requires
        gfx != GraphicsProtocol::NoGraphics,
    ensures
        r is Ok <==> showable(gfx, png@),
        r matches Ok(bytes) ==> shows_image(bytes@, gfx, png@, cols, rows),
{
    let mut bytes: Vec<u8> = Vec::new();
    match gfx {
        GraphicsProtocol::Sixel => match emit_sixel_image(&mut bytes, png, cols, rows) {
            Ok(_) => {
                assert(bytes@.skip(0) =~= bytes@);
                Ok(bytes)
            },
            Err(e) => Err(e),
        },
        _ => {
            emit_kitty_image(&mut bytes, png, cols, rows);
            assert(bytes@ =~= encode_utf8(kitty_from(base64_text(png@), 0, cols, rows)));
            Ok(bytes)
        },
    }
}

// ---------------------------------------------------------------- on the whole screen

/// The status line below an image: its name, and how to leave, reversed and padded to the width of
/// the terminal.
pub open spec fn image_status(path: Seq<char>, term_cols: u16) -> Seq<char> {
    let name = match file_name(path) {
        Some(n) => n,
        None => path,
    };
    let hint = " "@ + name + " \u{2014} press q to exit"@;
    let padding = if hint.len() < term_cols {
        repeated(' ', (term_cols - hint.len()) as nat)
    } else {
        seq![]
    };
    "\u{1b}[7m"@ + hint + padding + "\u{1b}[0m"@
}

fn status_line(path: &str, term_cols: u16) -> (s: String)
    ensures
        s@ == image_status(path@, term_cols),
{
    let chars = chars_of(path);
    let name = match name_of(&chars) {
        Some(n) => n,
        None => chars,
    };
    let mut hint = chars_of(" ");
    push_chars(&mut hint, &name);
    push_str(&mut hint, " \u{2014} press q to exit");
    let mut out = chars_of("\u{1b}[7m");
    push_chars(&mut out, &hint);
    if hint.len() < term_cols as usize {
        push_repeated(&mut out, ' ', term_cols as usize - hint.len());
    }
    push_str(&mut out, "\u{1b}[0m");
    assert(out@ =~= image_status(path@, term_cols));
    string_of(&out)
}

/// Whether commands show an image on the whole screen: from the top left corner on, not beyond
/// the row of the status line at the bottom.
pub open spec fn fills_screen(
    drawn: Seq<PaintView>,
    path: Seq<char>,
    image: (Seq<u8>, u16, u16),
    term_cols: u16,
    term_rows: u16,
    gfx: GraphicsProtocol,
) -> bool {
    &&& drawn.len() == 5
    &&& drawn[0] == PaintView::Clear
    &&& drawn[1] == PaintView::MoveTo(0, 0)
    &&& drawn[2] matches PaintView::Raw(bytes) && shows_image(
        bytes,
        gfx,
        image.0,
        lesser(image.1, term_cols),
        lesser(image.2, (term_rows - 1) as u16),
    )
    &&& drawn[3] == PaintView::MoveTo(0, (term_rows - 1) as u16)
    &&& drawn[4] == PaintView::Print(image_status(path, term_cols))
}

/// Draw a loaded image on the whole screen, with a status line at the bottom.
pub fn draw_image(
    path: &str,
    image: &(Vec<u8>, u16, u16),
    term_cols: u16,
    term_rows: u16,
    gfx: GraphicsProtocol,
) -> (r: Result<Vec<Paint>, NotAnImage>)
    requires
        term_rows > 0,
        gfx != GraphicsProtocol::NoGraphics,
    ensures
        r is Ok <==> showable(gfx, image.0@),
        r matches Ok(drawn) ==> fills_screen(
            paint_views(drawn@),
            path@,
            (image.0@, image.1, image.2),
            term_cols,
            term_rows,
            gfx,
        ),
{
    let cols: u16 = min(image.1, term_cols);
    let rows: u16 = min(image.2, term_rows - 1);
    let bytes = match image_sequence(gfx, &image.0, cols, rows) {
        Ok(bytes) => bytes,
        Err(e) => {
            return Err(e);
        },
    };
    let mut out: Vec<Paint> = Vec::new();
    draw(&mut out, Paint::Clear);
    draw(&mut out, Paint::MoveTo(0, 0));
    draw(&mut out, Paint::Raw(bytes));
    draw(&mut out, Paint::MoveTo(0, term_rows - 1));
    draw(&mut out, Paint::Print(status_line(path, term_cols)));
    Ok(out)
}

/// What becomes of showing an image file, once loading it gave `loaded`: it cannot be loaded, or
/// not shown, or commands show it.
pub open spec fn displayed(
    r: Result<Seq<PaintView>, ImageProblem>,
    path: Seq<char>,
    loaded: Option<(Seq<u8>, u16, u16)>,
    term_cols: u16,
    term_rows: u16,
    gfx: GraphicsProtocol,
) -> bool {
    match loaded {
        None => r == Err::<Seq<PaintView>, ImageProblem>(ImageProblem::NotLoaded),
        Some(image) => match r {
            Ok(drawn) => fills_screen(drawn, path, image, term_cols, term_rows, gfx),
            Err(e) => e == ImageProblem::NotShown && !showable(gfx, image.0),
        },
    }
}

/// What the result of drawing stands for.
pub open spec fn drawn_view(r: Result<Vec<Paint>, ImageProblem>) -> Result<
    Seq<PaintView>,
    ImageProblem,
> {
    match r {
        Ok(drawn) => Ok(paint_views(drawn@)),
        Err(e) => Err(e),
    }
}

/// Display an image file directly in the terminal. `data` is the file's content, `None` if it
/// cannot be read.
pub fn display_image(
    path: &str,
    data: Option<&Vec<u8>>,
    term_cols: u16,
    term_rows: u16,
    cell: (u16, u16),
    gfx: GraphicsProtocol,
) -> (r: Result<Vec<Paint>, ImageProblem>)
    requires
        term_rows > 0,
        gfx != GraphicsProtocol::NoGraphics,
    ensures
        exists|loaded: Option<(Seq<u8>, u16, u16)>|
            loads_as(
                content_of(data),
                size_in(path@, content_of(data)),
                loaded,
                term_cols,
                cell.0,
                cell.1,
            ) && #[trigger] displayed(drawn_view(r), path@, loaded, term_cols, term_rows, gfx),
{
    let loaded = load_image(path, data, term_cols, cell.0, cell.1);
    let ghost view = loaded_view(loaded);
    let r = match loaded {
        None => Err(ImageProblem::NotLoaded),
        Some(image) => match draw_image(path, &image, term_cols, term_rows, gfx) {
            Ok(drawn) => Ok(drawn),
            Err(_) => Err(ImageProblem::NotShown),
        },
    };
    assert(displayed(drawn_view(r), path@, view, term_cols, term_rows, gfx));
    r
}

/// What removes an image from the screen again.
pub fn image_cleanup(gfx: GraphicsProtocol) -> (bytes: Vec<u8>)
    ensures
        bytes@ == (if gfx == GraphicsProtocol::Kitty {
            encode_utf8(KITTY_DELETE@)
        } else {
            seq![]
        }),
{
    let mut bytes: Vec<u8> = Vec::new();
    if let GraphicsProtocol::Kitty = gfx {
        push_bytes(&mut bytes, KITTY_DELETE);
        assert(bytes@ =~= encode_utf8(KITTY_DELETE@));
    } else {
        assert(bytes@ =~= seq![]);
    }
    bytes
}

// ---------------------------------------------------------------- printed

/// A side of the picker's preview: what it says, if that is a number that fits, else that of the
/// terminal, else a default.
pub open spec fn preview_side(asked: Option<Seq<char>>, terminal: Option<u16>, default: u16) -> nat {
    let said: Option<nat> = match asked {
        Some(text) => match parsed_number(text) {
            Some(n) => if n <= u16::MAX {
                Some(n)
            } else {
                None
            },
            None => None,
        },
        None => None,
    };
    match said {
        Some(n) => n,
        None => match terminal {
            Some(t) => t as nat,
            None => default as nat,
        },
    }
}

/// What an optional text stands for.
pub open spec fn asked_for(s: Option<&str>) -> Option<Seq<char>> {
    match s {
        Some(t) => Some(t@),
        None => None,
    }
}

fn side(asked: Option<&str>, terminal: Option<u16>, default: u16) -> (n: u16)
    ensures
        n == preview_side(asked_for(asked), terminal, default),
{
    let said: Option<usize> = match asked {
        Some(text) => parse_number(&chars_of(text)),
        None => None,
    };
    if let Some(n) = said {
        if n <= u16::MAX as usize {
            return n as u16;
        }
    }
    match terminal {
        Some(t) => t,
        None => default,
    }
}

/// Columns and rows that an image may take when it is printed: those of the picker's preview, else
/// those of the terminal, else 80 and 24.
pub fn preview_size(cols: Option<&str>, rows: Option<&str>, terminal: Option<(u16, u16)>) -> (size: (
    u16,
    u16,
))
    ensures
        size.0 == preview_side(
            asked_for(cols),
            match terminal {
                Some((c, r)) => Some(c),
                None => None,
            },
            80,
        ),
        size.1 == preview_side(
            asked_for(rows),
            match terminal {
                Some((c, r)) => Some(r),
                None => None,
            },
            24,
        ),
{
    let (term_cols, term_rows): (Option<u16>, Option<u16>) = match terminal {
        Some((c, r)) => (Some(c), Some(r)),
        None => (None, None),
    };
    (side(cols, term_cols, 80), side(rows, term_rows, 24))
}

/// Whether bytes print an image: by the Kitty protocol all images are removed first; the image is
/// no larger than `size`; a line end follows.
pub open spec fn prints_image(
    bytes: Seq<u8>,
    image: (Seq<u8>, u16, u16),
    size: (u16, u16),
    gfx: GraphicsProtocol,
) -> bool {
    let before = if gfx == GraphicsProtocol::Kitty {
        encode_utf8(KITTY_DELETE_ALL@)
    } else {
        seq![]
    };
    exists|shown: Seq<u8>|
        #[trigger] shows_image(
            shown,
            gfx,
            image.0,
            lesser(image.1, size.0),
            lesser(image.2, size.1),
        ) && bytes == before + shown + encode_utf8("\n"@)
}

/// Print a loaded image: no larger than `size`, columns and rows.
pub fn image_bytes(image: &(Vec<u8>, u16, u16), size: (u16, u16), gfx: GraphicsProtocol) -> (r: Result<
    Vec<u8>,
    NotAnImage,
>)
    requires
        gfx != GraphicsProtocol::NoGraphics,
    ensures
        r is Ok <==> showable(gfx, image.0@),
        r matches Ok(bytes) ==> prints_image(
            bytes@,
            (image.0@, image.1, image.2),
            size,
            gfx,
        ),
{
    let cols: u16 = min(image.1, size.0);
    let rows: u16 = min(image.2, size.1);
    let shown = match image_sequence(gfx, &image.0, cols, rows) {
        Ok(shown) => shown,
        Err(e) => {
            return Err(e);
        },
    };
    let mut bytes: Vec<u8> = Vec::new();
    if let GraphicsProtocol::Kitty = gfx {
        push_bytes(&mut bytes, KITTY_DELETE_ALL);
        assert(bytes@ =~= encode_utf8(KITTY_DELETE_ALL@));
    } else {
        assert(bytes@ =~= seq![]);
    }
    let ghost view = shown@;
    let ghost before = bytes@;
    let mut more = shown;
    bytes.append(&mut more);
    push_bytes(&mut bytes, "\n");
    proof {
        let whole = (image.0@, image.1, image.2);
        assert(shows_image(view, gfx, whole.0, lesser(whole.1, size.0), lesser(whole.2, size.1)));
        assert(bytes@ =~= before + view + encode_utf8("\n"@));
        assert(prints_image(bytes@, whole, size, gfx));
    }
    Ok(bytes)
}

/// What becomes of printing an image file, once loading it gave `loaded`.
pub open spec fn printed(
    r: Result<Seq<u8>, ImageProblem>,
    loaded: Option<(Seq<u8>, u16, u16)>,
    size: (u16, u16),
    gfx: GraphicsProtocol,
) -> bool {
    match loaded {
        None => r == Err::<Seq<u8>, ImageProblem>(ImageProblem::NotLoaded),
        Some(image) => match r {
            Ok(bytes) => prints_image(bytes, image, size, gfx),
            Err(e) => e == ImageProblem::NotShown && !showable(gfx, image.0),
        },
    }
}

/// What the result of printing stands for.
pub open spec fn printed_view(r: Result<Vec<u8>, ImageProblem>) -> Result<Seq<u8>, ImageProblem> {
    match r {
        Ok(bytes) => Ok(bytes@),
        Err(e) => Err(e),
    }
}

/// Emit an image file to standard output, sized to the preview. `data` is the file's content,
/// `None` if it cannot be read.
pub fn print_image(
    path: &str,
    data: Option<&Vec<u8>>,
    size: (u16, u16),
    cell: (u16, u16),
    gfx: GraphicsProtocol,
) -> (r: Result<Vec<u8>, ImageProblem>)
    requires
        gfx != GraphicsProtocol::NoGraphics,
    ensures
        exists|loaded: Option<(Seq<u8>, u16, u16)>|
            loads_as(
                content_of(data),
                size_in(path@, content_of(data)),
                loaded,
                size.0,
                cell.0,
                cell.1,
            ) && #[trigger] printed(printed_view(r), loaded, size, gfx),
{
    let loaded = load_image(path, data, size.0, cell.0, cell.1);
    let ghost view = loaded_view(loaded);
    let r = match loaded {
        None => Err(ImageProblem::NotLoaded),
        Some(image) => match image_bytes(&image, size, gfx) {
            Ok(bytes) => Ok(bytes),
            Err(_) => Err(ImageProblem::NotShown),
        },
    };
    assert(printed(printed_view(r), view, size, gfx));
    r
}

/// A cell is as wide as the window divided by its columns and as high as that by its rows; where
/// that cannot be told, it is 8 by 16 pixels.
pub proof fn law_cell_size(width: u16, height: u16, cols: u16, rows: u16)
    ensures
        width > 0 && height > 0 && cols > 0 && rows > 0 ==> {
            let c = cell_size(Some((width, height, cols, rows)));
            &&& c.0 * cols <= width < (c.0 + 1) * cols
            &&& c.1 * rows <= height < (c.1 + 1) * rows
        },
        width == 0 || height == 0 || cols == 0 || rows == 0 ==> cell_size(
            Some((width, height, cols, rows)),
        ) == (8int, 16int),
        cell_size(None) == (8int, 16int),
{
    if width > 0 && height > 0 && cols > 0 && rows > 0 {
        let a = width as int / cols as int;
        let b = height as int / rows as int;
        assert(a * cols <= width < (a + 1) * cols) by (nonlinear_arith)
            requires
                a == width as int / cols as int,
                cols > 0,
        ;
        assert(b * rows <= height < (b + 1) * rows) by (nonlinear_arith)
            requires
                b == height as int / rows as int,
                rows > 0,
        ;
    }
}

/// An image is never shown at more columns or rows than there are.
pub proof fn law_lesser(a: u16, b: u16)
    ensures
        lesser(a, b) <= a,
        lesser(a, b) <= b,
        lesser(a, b) == a || lesser(a, b) == b,
{
}

/// A side of the preview is what was asked for, if that is a number; else what the terminal has;
/// else a default.
pub proof fn law_preview_side(n: nat, terminal: u16, default: u16, text: Seq<char>)
    ensures
        n <= u16::MAX ==> preview_side(Some(decimal(n)), Some(terminal), default) == n,
        n <= u16::MAX ==> preview_side(Some(decimal(n)), None, default) == n,
        preview_side(None, Some(terminal), default) == terminal,
        preview_side(None, None, default) == default,
        parsed_number(text) is None ==> preview_side(Some(text), Some(terminal), default)
            == terminal && preview_side(Some(text), None, default) == default,
        n > u16::MAX && n <= usize::MAX ==> preview_side(Some(decimal(n)), Some(terminal), default)
            == terminal,
{
    if n <= usize::MAX {
        lemma_parse_decimal(n);
    }
}

/// The line below an image tells the name of its file and how to leave, inverse, over the whole
/// width.
pub proof fn law_image_status(path: Seq<char>, cols: u16)
    ensures
        ({
            let name = match file_name(path) {
                Some(n) => n,
                None => path,
            };
            let hint = seq![' '] + name + " \u{2014} press q to exit"@;
            image_status(path, cols) == "\u{1b}[7m"@ + hint + repeated(
                ' ',
                if hint.len() < cols {
                    (cols - hint.len()) as nat
                } else {
                    0
                },
            ) + "\u{1b}[0m"@
        }),
{
    reveal_strlit(" ");
    assert(" "@ =~= seq![' ']);
    assert(repeated(' ', 0) =~= seq![]);
}

/// An image that was loaded and can be shown is shown: what stood on the screen is gone, the image
/// is drawn from the top left corner on, in no more cells than the screen has above its last row,
/// and that row holds the status line and nothing else is written.
pub proof fn law_image_is_displayed(
    r: Result<Seq<PaintView>, ImageProblem>,
    path: Seq<char>,
    image: (Seq<u8>, u16, u16),
    cols: u16,
    rows: u16,
    gfx: GraphicsProtocol,
    t: Terminal,
)
    requires
        displayed(r, path, Some(image), cols, rows, gfx),
        rows > 0,
    ensures
        showable(gfx, image.0) ==> r is Ok,
        r matches Err(e) ==> e == ImageProblem::NotShown,
        r matches Ok(drawn) ==> {
            let shown = all_drawn_on(t, drawn);
            &&& shown.pieces.len() == 1
            &&& shown.pieces[0].text == image_status(path, cols)
            &&& shown.pieces[0].row == rows - 1
            &&& shown.pieces[0].col == 0
            &&& shown.pieces[0].pen == t.pen
            &&& exists|bytes: Seq<u8>, w: u16, h: u16|
                #![trigger shows_image(bytes, gfx, image.0, w, h)]
                {
                    let before = all_drawn_on(t, drawn.take(2));
                    &&& before.row == 0 && before.col == 0 && before.pieces.len() == 0
                    &&& drawn[2] == PaintView::Raw(bytes)
                    &&& shows_image(bytes, gfx, image.0, w, h)
                    &&& w <= cols && w <= image.1 && (w == cols || w == image.1)
                    &&& h < rows && h <= image.2 && (h + 1 == rows || h == image.2)
                }
        },
{
    if let Ok(drawn) = r {
        let none = Seq::<PaintView>::empty();
        assert(drawn.take(2) =~= none.push(drawn[0]).push(drawn[1]));
        assert(drawn =~= none.push(drawn[0]).push(drawn[1]).push(drawn[2]).push(drawn[3]).push(
            drawn[4],
        ));
        lemma_drawn_push(t, none, drawn[0]);
        lemma_drawn_push(t, none.push(drawn[0]), drawn[1]);
        lemma_drawn_push(t, none.push(drawn[0]).push(drawn[1]), drawn[2]);
        lemma_drawn_push(t, none.push(drawn[0]).push(drawn[1]).push(drawn[2]), drawn[3]);
        lemma_drawn_push(
            t,
            none.push(drawn[0]).push(drawn[1]).push(drawn[2]).push(drawn[3]),
            drawn[4],
        );
        let w = lesser(image.1, cols);
        let h = lesser(image.2, (rows - 1) as u16);
        if let PaintView::Raw(bytes) = drawn[2] {
            assert(shows_image(bytes, gfx, image.0, w, h));
        }
    }
}

/// An image that was not loaded cannot be shown.
pub proof fn law_missing_image(
    r: Result<Seq<PaintView>, ImageProblem>,
    path: Seq<char>,
    cols: u16,
    rows: u16,
    gfx: GraphicsProtocol,
)
    requires
        displayed(r, path, None, cols, rows, gfx),
    ensures
        r matches Err(e) && e == ImageProblem::NotLoaded,
{
}

} // verus!
