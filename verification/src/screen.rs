//! The content of the viewer, and the whole screen.

use vstd::prelude::*;

use crate::chrome::{can_draw_header, can_draw_toc, draw_footer, footer};
use crate::frame::{draw_frame, row_views, toc_width_for, Cell, FrameView};
use crate::graphics::GraphicsProtocol;
use crate::headings::find_current_heading;
use crate::highlight::{blocks_highlighted, highlight_code_blocks};
use crate::layout::{can_wrap, wraps_to};
use crate::paint::{draw_all, paint_views, Paint, PaintView};
use crate::paragraphs::{join_paragraphs, joined_paragraphs};
use crate::placeholders::{
    build_processed_markdown, placement_views, processes_to, ImagePlacement, PlacementView,
};
use crate::render::{code_lines, code_or_source, document_rows, render_code, render_document};
use crate::session::Document;
use crate::sixel::NotAnImage;
use crate::text::lines_of;
use crate::theme::Theme;
use crate::visible::{all_showable, draw_images, shows_images};

verus! {

/// Render what the viewer shows: the rows for the terminal, and the images on them.
///
/// When `code_lang` is given, the content is a source file: it is highlighted and shown directly,
/// without images. Otherwise it goes through the markdown pipeline: code blocks are highlighted,
/// images and diagrams get their blank lines, and the text is rendered. `None` where the renderer
/// cannot lay it out.
pub fn render_content(
    document: &Document,
    code_lang: Option<&str>,
    contents: &Vec<Option<Vec<u8>>>,
    rendered_mermaids: &Vec<(usize, Vec<u8>)>,
    theme: &Theme,
    inner_cols: u16,
    cell_w: u16,
    cell_h: u16,
    colors: bool,
) -> (r: Option<(String, Vec<ImagePlacement>)>)
    requires
        contents@.len() == document.images@.len(),
        forall|i: int|
            0 <= i < rendered_mermaids@.len() ==> (#[trigger] rendered_mermaids@[i]).0
                < document.diagrams@.len(),
    ensures
        code_lang matches Some(lang) ==> r is Some && (r->0).1@.len() == 0 && (r->0).0@
            == code_lines(
            lines_of(code_or_source(document.markdown@, Some(lang@), theme@.bg)),
            theme@.bg,
            "\r\n"@,
        ),
        code_lang is None ==> exists|text: Seq<char>, placements: Seq<PlacementView>|
            {
                &&& #[trigger] processes_to(
                    blocks_highlighted(document.markdown@, theme@.bg),
                    document.images@,
                    contents@,
                    document.diagrams@,
                    rendered_mermaids@,
                    (inner_cols, cell_w, cell_h),
                    text,
                    placements,
                )
                &&& r is Some <==> can_wrap(joined_paragraphs(text), inner_cols as usize)
                &&& r matches Some(shown) ==> {
                    &&& shown.0@ == document_rows(text, theme@, inner_cols as usize, colors)
                    &&& placement_views(shown.1@) == placements
                }
            },
{
    match code_lang {
        Some(lang) => Some((render_code(document.markdown.as_str(), lang, theme), Vec::new())),
        None => {
            let highlighted = highlight_code_blocks(document.markdown.as_str(), theme.bg);
            let (text, placements) = build_processed_markdown(
                highlighted.as_str(),
                &document.images,
                contents,
                &document.diagrams,
                rendered_mermaids,
                inner_cols,
                cell_w,
                cell_h,
            );
            let ghost places = placement_views(placements@);
            assert(processes_to(
                blocks_highlighted(document.markdown@, theme@.bg),
                document.images@,
                contents@,
                document.diagrams@,
                rendered_mermaids@,
                (inner_cols, cell_w, cell_h),
                text@,
                places,
            ));
            let joined = join_paragraphs(text.as_str());
            if wraps_to(joined.as_str(), inner_cols as usize) {
                Some((render_document(text.as_str(), theme, inner_cols, colors), placements))
            } else {
                None
            }
        },
    }
}

/// Draw one frame: the header, the content's cells, the images on them, and the footer. An image
/// on the screen that cannot be shown is an error.
pub fn draw_screen(
    view: &FrameView,
    rows: &Vec<Vec<Cell>>,
    placements: &Vec<ImagePlacement>,
    gfx: GraphicsProtocol,
) -> (r: Result<Vec<Paint>, NotAnImage>)
    requires
        view.drawable(),
    ensures
        r is Ok <==> (placements@.len() == 0 || gfx == GraphicsProtocol::NoGraphics || all_showable(
            gfx,
            placement_views(placements@),
            view.viewport_top as int,
            view.content_rows as int,
        )),
        r matches Ok(drawn) ==> exists|images: Seq<PaintView>|
            {
                &&& #[trigger] shows_images(
                    images,
                    gfx,
                    placement_views(placements@),
                    view.viewport_top as int,
                    view.content_rows as int,
                )
                &&& paint_views(drawn@) == view.frame(row_views(rows@)) + images + footer(
                    (view.content_rows + 1) as u16,
                    view.cols,
                    *view.theme,
                    *view.search,
                )
            },
{
    let images = match draw_images(placements, view.viewport_top, view.content_rows, gfx) {
        Ok(images) => images,
        Err(e) => {
            return Err(e);
        },
    };
    let mut out = draw_frame(view, rows);
    let ghost drawn = paint_views(images@);
    draw_all(&mut out, images);
    draw_all(&mut out, draw_footer(view.content_rows + 1, view.cols, view.theme, view.search));
    assert(shows_images(
        drawn,
        gfx,
        placement_views(placements@),
        view.viewport_top as int,
        view.content_rows as int,
    ));
    Ok(out)
}

fn can_draw(view: &FrameView) -> (r: bool)
    requires
        view.search.wf(),
    ensures
        r == view.drawable(),
{
    if view.content_rows == u16::MAX || view.viewport_top >= usize::MAX - u16::MAX as usize {
        return false;
    }
    if view.toc_visible && view.headings.len() > 0 && view.cols > u16::MAX / 30 {
        return false;
    }
    if !can_draw_header(view.cols, view.version, view.filename) {
        return false;
    }
    let toc: u16 = toc_width_for(view.cols, view.toc_visible, view.headings.len());
    if toc == 0 {
        return true;
    }
    let current: Option<usize> = find_current_heading(view.headings, view.viewport_top + 1);
    can_draw_toc(view.headings, toc as usize, view.content_rows as usize, current)
}

/// Draw one frame as [`draw_screen`] does; `None` where it cannot be drawn: the screen is too
/// wide for a table of contents, or a name or a heading would have to be cut within a character.
pub fn try_draw_screen(
    view: &FrameView,
    rows: &Vec<Vec<Cell>>,
    placements: &Vec<ImagePlacement>,
    gfx: GraphicsProtocol,
) -> (r: Option<Result<Vec<Paint>, NotAnImage>>)
    requires
        view.search.wf(),
    ensures
        r is Some <==> view.drawable(),
        r matches Some(drawn) ==> (drawn is Ok <==> (placements@.len() == 0 || gfx
            == GraphicsProtocol::NoGraphics || all_showable(
            gfx,
            placement_views(placements@),
            view.viewport_top as int,
            view.content_rows as int,
        ))),
        r matches Some(Ok(drawn)) ==> exists|images: Seq<PaintView>|
            {
                &&& #[trigger] shows_images(
                    images,
                    gfx,
                    placement_views(placements@),
                    view.viewport_top as int,
                    view.content_rows as int,
                )
                &&& paint_views(drawn@) == view.frame(row_views(rows@)) + images + footer(
                    (view.content_rows + 1) as u16,
                    view.cols,
                    *view.theme,
                    *view.search,
                )
            },
{
    if can_draw(view) {
        Some(draw_screen(view, rows, placements, gfx))
    } else {
        None
    }
}

} // verus!
