//! The images that a frame shows.

use vstd::prelude::*;
use vstd::utf8::encode_utf8;

use crate::chrome::SIDE_PAD;
use crate::graphics::{
    base64_text, emit_kitty_image, kitty_from, push_bytes, GraphicsProtocol, KITTY_DELETE,
};
use crate::images::{image_size, loads_as, optional_bytes, target_size, READABLE_PIXELS};
use crate::paint::{draw, draw_all, paint_views, Paint, PaintView};
use crate::placeholders::{placement_views, ImagePlacement, PlacementView};
use crate::sixel::{emit_sixel_image, is_sixel_of, NotAnImage};

verus! {

/// Whether the whole of a placement lies on the `rows` rows of the screen that begin with row
/// `top` of the content.
pub open spec fn on_screen(p: PlacementView, top: int, rows: int) -> bool {
    top <= p.row < top + rows && top < p.row + p.rows <= top + rows
}

/// The commands for one placement: the cursor is moved to where it begins, right of the padding
/// and below the header, and the sequence that shows it follows, if there is one.
pub open spec fn image_drawn(p: PlacementView, top: int, sequence: Option<Seq<u8>>) -> Seq<PaintView> {
    let cursor = PaintView::MoveTo(SIDE_PAD, (p.row - top + 1) as u16);
    match sequence {
        Some(bytes) => seq![cursor, PaintView::Raw(bytes)],
        None => seq![cursor],
    }
}

/// The commands for the placements on the screen, `sequences` being what shows each.
pub open spec fn images_drawn(
    placements: Seq<PlacementView>,
    sequences: Seq<Option<Seq<u8>>>,
    top: int,
    rows: int,
) -> Seq<PaintView>
    decreases placements.len(),
{
    if placements.len() == 0 {
        seq![]
    } else {
        let before = images_drawn(placements.drop_last(), sequences, top, rows);
        if on_screen(placements.last(), top, rows) {
            before + image_drawn(placements.last(), top, sequences[placements.len() - 1])
        } else {
            before
        }
    }
}

/// Whether a sequence shows a placement by a protocol.
pub open spec fn shows(gfx: GraphicsProtocol, p: PlacementView, sequence: Option<Seq<u8>>) -> bool {
    match gfx {
        GraphicsProtocol::Kitty => sequence == Some(
            encode_utf8(kitty_from(base64_text(p.png), 0, p.cols, p.rows)),
        ),
        GraphicsProtocol::Sixel => sequence matches Some(bytes) && is_sixel_of(bytes, p.png),
        GraphicsProtocol::NoGraphics => sequence is None,
    }
}

/// Whether a placement can be shown: by Sixel, bytes that hold no image cannot.
pub open spec fn showable(gfx: GraphicsProtocol, p: PlacementView) -> bool {
    gfx == GraphicsProtocol::Sixel ==> image_size(p.png) is Some
}

/// Whether all placements on the screen can be shown.
pub open spec fn all_showable(
    gfx: GraphicsProtocol,
    placements: Seq<PlacementView>,
    top: int,
    rows: int,
) -> bool {
    forall|i: int|
        0 <= i < placements.len() && on_screen(#[trigger] placements[i], top, rows) ==> showable(
            gfx,
            placements[i],
        )
}

/// Whether there is a sequence for every placement, one that shows it if it is on the screen.
pub open spec fn all_shown(
    gfx: GraphicsProtocol,
    placements: Seq<PlacementView>,
    sequences: Seq<Option<Seq<u8>>>,
    top: int,
    rows: int,
) -> bool {
    &&& sequences.len() == placements.len()
    &&& forall|i: int|
        0 <= i < placements.len() && on_screen(placements[i], top, rows) ==> shows(
            gfx,
            placements[i],
            #[trigger] sequences[i],
        )
}

/// Whether commands show the placements on the screen.
pub open spec fn draws_images(
    drawn: Seq<PaintView>,
    gfx: GraphicsProtocol,
    placements: Seq<PlacementView>,
    top: int,
    rows: int,
) -> bool {
    exists|sequences: Seq<Option<Seq<u8>>>|
        all_shown(gfx, placements, sequences, top, rows) && drawn == #[trigger] images_drawn(
            placements,
            sequences,
            top,
            rows,
        )
}

fn is_on_screen(p: &ImagePlacement, viewport_top: usize, content_rows: u16) -> (r: bool)
    ensures
        r == on_screen(p@, viewport_top as int, content_rows as int),
{
    if p.content_row < viewport_top {
        return false;
    }
    let row: usize = p.content_row - viewport_top;
    row < content_rows as usize && (p.rows as usize) <= content_rows as usize - row && (row > 0
        || p.rows > 0)
}

fn sequence_for(gfx: GraphicsProtocol, p: &ImagePlacement) -> (r: Result<
    Option<Vec<u8>>,
    NotAnImage,
>)
    ensures
        r is Ok <==> showable(gfx, p@),
        r matches Ok(Some(bytes)) ==> shows(gfx, p@, Some(bytes@)),
        r matches Ok(None) ==> shows(gfx, p@, None),
{
    let mut bytes: Vec<u8> = Vec::new();
    match gfx {
        GraphicsProtocol::Kitty => {
            emit_kitty_image(&mut bytes, &p.png_data, p.cols, p.rows);
            assert(bytes@ =~= encode_utf8(kitty_from(base64_text(p.png_data@), 0, p.cols, p.rows)));
            Ok(Some(bytes))
        },
        GraphicsProtocol::Sixel => {
            match emit_sixel_image(&mut bytes, &p.png_data, p.cols, p.rows) {
                Ok(_) => {
                    assert(bytes@.skip(0) =~= bytes@);
                    Ok(Some(bytes))
                },
                Err(e) => Err(e),
            }
        },
        GraphicsProtocol::NoGraphics => Ok(None),
    }
}

/// Draw the images of all placements visible in the current viewport: `viewport_top` is the row
/// of the content at its top. Images that are partially or fully off-screen are skipped. An
/// image on the screen that cannot be shown is an error.
pub fn emit_visible_images(
    placements: &Vec<ImagePlacement>,
    viewport_top: usize,
    content_rows: u16,
    gfx: GraphicsProtocol,
) -> (r: Result<Vec<Paint>, NotAnImage>)
    ensures
        r is Ok <==> all_showable(
            gfx,
            placement_views(placements@),
            viewport_top as int,
            content_rows as int,
        ),
        r matches Ok(drawn) ==> draws_images(
            paint_views(drawn@),
            gfx,
            placement_views(placements@),
            viewport_top as int,
            content_rows as int,
        ),
{
    let ghost all = placement_views(placements@);
    let ghost top = viewport_top as int;
    let ghost rows = content_rows as int;
    let mut out: Vec<Paint> = Vec::new();
    let ghost mut sequences: Seq<Option<Seq<u8>>> = seq![];
    let mut i: usize = 0;
    assert(all.take(0) =~= seq![]);
    assert(paint_views(out@) =~= seq![]);
    while i < placements.len()
        invariant
            i <= placements@.len(),
            all == placement_views(placements@),
            top == viewport_top,
            rows == content_rows,
            all_shown(gfx, all.take(i as int), sequences, top, rows),
            all_showable(gfx, all.take(i as int), top, rows),
            paint_views(out@) == images_drawn(all.take(i as int), sequences, top, rows),
        decreases placements@.len() - i,
    {
        let p = &placements[i];
        let ghost so_far = all.take(i as int);
        let ghost more = all.take(i + 1);
        let ghost before = sequences;
        assert(more.drop_last() =~= so_far);
        assert(more.last() == p@);
        assert(forall|k: int| 0 <= k < i ==> #[trigger] more[k] == so_far[k]);
        if is_on_screen(p, viewport_top, content_rows) {
            match sequence_for(gfx, p) {
                Err(e) => {
                    assert(all[i as int] == p@);
                    return Err(e);
                },
                Ok(sequence) => {
                    let row: u16 = (p.content_row - viewport_top) as u16 + 1;
                    let ghost view = optional_bytes(sequence);
                    let ghost drawn = paint_views(out@);
                    draw(&mut out, Paint::MoveTo(SIDE_PAD, row));
                    if let Some(bytes) = sequence {
                        draw(&mut out, Paint::Raw(bytes));
                    }
                    proof {
                        sequences = sequences.push(view);
                        lemma_drawn_by(so_far, before, sequences, top, rows);
                        assert(paint_views(out@) =~= drawn + image_drawn(p@, top, view));
                    }
                },
            }
        } else {
            proof {
                sequences = sequences.push(None);
                lemma_drawn_by(so_far, before, sequences, top, rows);
            }
        }
        assert(all_shown(gfx, more, sequences, top, rows));
        assert(all_showable(gfx, more, top, rows));
        i += 1;
    }
    assert(all.take(i as int) =~= all);
    Ok(out)
}

proof fn lemma_drawn_by(
    placements: Seq<PlacementView>,
    a: Seq<Option<Seq<u8>>>,
    b: Seq<Option<Seq<u8>>>,
    top: int,
    rows: int,
)
    requires
        forall|i: int| 0 <= i < placements.len() ==> a[i] == #[trigger] b[i],
    ensures
        images_drawn(placements, a, top, rows) == images_drawn(placements, b, top, rows),
    decreases placements.len(),
{
    if placements.len() > 0 {
        lemma_drawn_by(placements.drop_last(), a, b, top, rows);
        assert(a[placements.len() - 1] == b[placements.len() - 1]);
    }
}

/// Whether commands show the images of a frame. Nothing is drawn without graphics or without
/// images; by the Kitty protocol the images of the frame before are removed first.
pub open spec fn shows_images(
    drawn: Seq<PaintView>,
    gfx: GraphicsProtocol,
    placements: Seq<PlacementView>,
    top: int,
    rows: int,
) -> bool {
    if placements.len() == 0 {
        drawn.len() == 0
    } else {
        match gfx {
            GraphicsProtocol::NoGraphics => drawn.len() == 0,
            GraphicsProtocol::Sixel => draws_images(drawn, gfx, placements, top, rows),
            GraphicsProtocol::Kitty => {
                &&& drawn.len() > 0
                &&& drawn[0] == PaintView::Raw(encode_utf8(KITTY_DELETE@))
                &&& draws_images(drawn.skip(1), gfx, placements, top, rows)
            },
        }
    }
}

/// Draw the images of a frame. By the Kitty protocol all images of the frame before are removed
/// first, to prevent ghost artifacts when scrolling.
pub fn draw_images(
    placements: &Vec<ImagePlacement>,
    viewport_top: usize,
    content_rows: u16,
    gfx: GraphicsProtocol,
) -> (r: Result<Vec<Paint>, NotAnImage>)
    ensures
        r is Ok <==> (placements@.len() == 0 || gfx == GraphicsProtocol::NoGraphics || all_showable(
            gfx,
            placement_views(placements@),
            viewport_top as int,
            content_rows as int,
        )),
        r matches Ok(drawn) ==> shows_images(
            paint_views(drawn@),
            gfx,
            placement_views(placements@),
            viewport_top as int,
            content_rows as int,
        ),
{
    let mut out: Vec<Paint> = Vec::new();
    if placements.len() == 0 {
        return Ok(out);
    }
    match gfx {
        GraphicsProtocol::NoGraphics => Ok(out),
        GraphicsProtocol::Sixel => emit_visible_images(placements, viewport_top, content_rows, gfx),
        GraphicsProtocol::Kitty => {
            match emit_visible_images(placements, viewport_top, content_rows, gfx) {
                Err(e) => Err(e),
                Ok(images) => {
                    let mut bytes: Vec<u8> = Vec::new();
                    push_bytes(&mut bytes, KITTY_DELETE);
                    assert(bytes@ =~= encode_utf8(KITTY_DELETE@));
                    let ghost drawn = paint_views(images@);
                    draw(&mut out, Paint::Raw(bytes));
                    assert(paint_views(out@).len() == 1);
                    draw_all(&mut out, images);
                    assert(paint_views(out@).skip(1) =~= drawn);
                    assert(paint_views(out@)[0] == out@[0]@);
                    Ok(out)
                },
            }
        },
    }
}

/// An image that was loaded can be shown by every protocol, unless it is too large to be decoded
/// once more.
pub proof fn law_loaded_images_can_be_shown(
    data: Option<Seq<u8>>,
    size: (u32, u32),
    image: (Seq<u8>, u16, u16),
    max_cols: u16,
    cell_w: u16,
    cell_h: u16,
    gfx: GraphicsProtocol,
    p: PlacementView,
)
    requires
        loads_as(data, Some(size), Some(image), max_cols, cell_w, cell_h),
        target_size(size, max_cols, cell_w).0 * target_size(size, max_cols, cell_w).1
            <= READABLE_PIXELS,
        p.png == image.0,
    ensures
        showable(gfx, p),
{
}

/// An image is drawn where all of its rows are in view, none of them above or below.
pub proof fn law_images_in_view(p: PlacementView, top: int, rows: int, r: int)
    ensures
        on_screen(p, top, rows) && p.row <= r < p.row + p.rows ==> top <= r < top + rows,
        p.rows > 0 && top <= p.row && p.row + p.rows <= top + rows ==> on_screen(p, top, rows),
        p.row < top || p.row + p.rows > top + rows ==> !on_screen(p, top, rows),
{
}

/// An image is drawn at the left of the content, two columns in, on the row that it has in view
/// below the header.
pub proof fn law_image_is_drawn(p: PlacementView, top: int, bytes: Seq<u8>)
    requires
        0 <= p.row - top < u16::MAX,
    ensures
        image_drawn(p, top, Some(bytes)).len() == 2,
        image_drawn(p, top, Some(bytes))[0] matches PaintView::MoveTo(x, y) && x == 2 && y == p.row
            - top + 1,
        image_drawn(p, top, Some(bytes))[1] == PaintView::Raw(bytes),
        image_drawn(p, top, None).len() == 1,
        image_drawn(p, top, None)[0] == image_drawn(p, top, Some(bytes))[0],
{
}

/// Every image in view is drawn, in the order of the placements, and no other.
pub proof fn law_images_are_drawn(
    placements: Seq<PlacementView>,
    sequences: Seq<Option<Seq<u8>>>,
    top: int,
    rows: int,
    k: int,
) -> (r: (Seq<PaintView>, Seq<PaintView>))
    requires
        0 <= k < placements.len(),
        on_screen(placements[k], top, rows),
    ensures
        images_drawn(placements, sequences, top, rows) == r.0 + image_drawn(
            placements[k],
            top,
            sequences[k],
        ) + r.1,
        r.0 == images_drawn(placements.take(k), sequences, top, rows),
    decreases placements.len(),
{
    let front = placements.drop_last();
    if k == placements.len() - 1 {
        assert(placements.take(k) =~= front);
        let a = images_drawn(front, sequences, top, rows);
        let own = image_drawn(placements[k], top, sequences[k]);
        assert(a + own =~= a + own + Seq::<PaintView>::empty());
        (a, Seq::empty())
    } else {
        let (a, b) = law_images_are_drawn(front, sequences, top, rows, k);
        assert(front.take(k) =~= placements.take(k));
        let own = image_drawn(placements[k], top, sequences[k]);
        if on_screen(placements.last(), top, rows) {
            let more = image_drawn(placements.last(), top, sequences[placements.len() - 1]);
            assert(a + own + b + more =~= a + own + (b + more));
            (a, b + more)
        } else {
            (a, b)
        }
    }
}

/// Images out of view add nothing.
pub proof fn law_images_out_of_view(
    placements: Seq<PlacementView>,
    sequences: Seq<Option<Seq<u8>>>,
    top: int,
    rows: int,
)
    requires
        forall|i: int|
            0 <= i < placements.len() ==> !on_screen(#[trigger] placements[i], top, rows),
    ensures
        images_drawn(placements, sequences, top, rows).len() == 0,
    decreases placements.len(),
{
    if placements.len() > 0 {
        assert(!on_screen(placements[placements.len() - 1], top, rows));
        assert forall|i: int| 0 <= i < placements.drop_last().len() implies !on_screen(
            #[trigger] placements.drop_last()[i],
            top,
            rows,
        ) by {
            assert(placements.drop_last()[i] == placements[i]);
        }
        law_images_out_of_view(placements.drop_last(), sequences, top, rows);
    }
}

/// By the Kitty protocol what the frame before showed is removed before the images are drawn; by
/// the Sixel one nothing but the images is drawn; without images or graphics nothing is.
pub proof fn law_images_of_a_frame(
    drawn: Seq<PaintView>,
    gfx: GraphicsProtocol,
    placements: Seq<PlacementView>,
    top: int,
    rows: int,
)
    requires
        shows_images(drawn, gfx, placements, top, rows),
    ensures
        placements.len() > 0 && gfx == GraphicsProtocol::Kitty ==> exists|images: Seq<PaintView>|
            {
                &&& #[trigger] draws_images(images, gfx, placements, top, rows)
                &&& drawn == seq![PaintView::Raw(encode_utf8("\u{1b}_Ga=d,q=2;\u{1b}\\"@))] + images
            },
        placements.len() > 0 && gfx == GraphicsProtocol::Sixel ==> draws_images(
            drawn,
            gfx,
            placements,
            top,
            rows,
        ),
        placements.len() == 0 || gfx == GraphicsProtocol::NoGraphics ==> drawn.len() == 0,
{
    if placements.len() > 0 && gfx == GraphicsProtocol::Kitty {
        assert(drawn =~= seq![drawn[0]] + drawn.skip(1));
        assert(draws_images(drawn.skip(1), gfx, placements, top, rows));
    }
}

/// Whether commands draw an image from the one at `i` on: the cursor goes to the row of the image
/// that is in view, and the image follows.
pub open spec fn image_is_at(
    drawn: Seq<PaintView>,
    i: int,
    p: PlacementView,
    top: int,
    gfx: GraphicsProtocol,
) -> bool {
    &&& 0 <= i < drawn.len() - 1
    &&& drawn[i] == PaintView::MoveTo(2, (p.row - top + 1) as u16)
    &&& drawn[i + 1] matches PaintView::Raw(bytes) && match gfx {
        GraphicsProtocol::Kitty => bytes == encode_utf8(
            kitty_from(base64_text(p.png), 0, p.cols, p.rows),
        ),
        GraphicsProtocol::Sixel => is_sixel_of(bytes, p.png),
        GraphicsProtocol::NoGraphics => false,
    }
}

/// Every image in view is drawn on its row, as the terminal's protocol has it.
pub proof fn law_each_image_is_shown(
    drawn: Seq<PaintView>,
    gfx: GraphicsProtocol,
    placements: Seq<PlacementView>,
    top: int,
    rows: int,
    k: int,
)
    requires
        draws_images(drawn, gfx, placements, top, rows),
        0 <= k < placements.len(),
        on_screen(placements[k], top, rows),
        rows < u16::MAX,
        gfx != GraphicsProtocol::NoGraphics,
    ensures
        exists|i: int| #[trigger] image_is_at(drawn, i, placements[k], top, gfx),
{
    let sequences = choose|sequences: Seq<Option<Seq<u8>>>|
        all_shown(gfx, placements, sequences, top, rows) && drawn == #[trigger] images_drawn(
            placements,
            sequences,
            top,
            rows,
        );
    let r = law_images_are_drawn(placements, sequences, top, rows, k);
    let i = r.0.len() as int;
    assert(shows(gfx, placements[k], sequences[k]));
    let here = image_drawn(placements[k], top, sequences[k]);
    assert(drawn[i] == here[0]);
    assert(drawn[i + 1] == here[1]);
    assert(image_is_at(drawn, i, placements[k], top, gfx));
}

} // verus!
