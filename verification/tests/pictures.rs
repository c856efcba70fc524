use image::{ImageBuffer, Rgba};
use reed::graphics::{
    detect_graphics_protocol, emit_kitty_image, kitty_sequence, GraphicsProtocol, TerminalEnv,
    KITTY_DELETE,
};
use reed::images::{
    estimate_image_rows, load_image, load_image_from_bytes, place_image, rows_for_size,
    scale_height,
};
use reed::mermaid::extract_mermaid_blocks;
use reed::paint::Paint;
use reed::placeholders::{
    build_processed_markdown, collect_images, collect_replacements, extract_images,
    place_replacements, replace_images, ImagePlacement, Replacement,
};
use reed::sixel::{
    emit_sixel_image, encode_sixel, quantize_to_palette, sixel_of_pixels, NotAnImage,
    SIXEL_MAX_COLORS,
};
use reed::visible::{draw_images, emit_visible_images};

#[test]
fn extract_standalone_images() {
    let md = "# Hello\n\n![photo](images/photo.png)\n\nSome text.\n";
    let refs = extract_images(md, "/docs");
    assert_eq!(refs.len(), 1);
    assert_eq!(refs[0].alt, "photo");
    assert_eq!(refs[0].path, "/docs/images/photo.png");
    assert_eq!(refs[0].source_line, 2);
}

#[test]
fn extract_multiple_images() {
    let md = "![a](a.png)\ntext\n![b](b.jpg)\n";
    let refs = extract_images(md, "/");
    assert_eq!(refs.len(), 2);
    assert_eq!(refs[0].source_line, 0);
    assert_eq!(refs[1].source_line, 2);
}

#[test]
fn skip_inline_images() {
    let md = "Check out ![this](img.png) in the text.\n";
    let refs = extract_images(md, "/");
    // The image is inline (not on its own line), should NOT match.
    // Actually our regex requires the image to be the only content on the line.
    // "Check out ![this](img.png) in the text." has other text, so no match.
    assert_eq!(refs.len(), 0);
}

#[test]
fn replace_single_image() {
    let md = "# Title\n![photo](photo.png)\nMore text.\n";
    let refs = extract_images(md, "/");
    let (replaced, rows) = replace_images(md, &refs, 3);

    // Line 1 (![photo](photo.png)) should be replaced with 3 blank lines.
    assert_eq!(rows.len(), 1);
    assert_eq!(rows[0], 1); // starts at output line 1

    let lines: Vec<&str> = replaced.lines().collect();
    // Line 0: "# Title"
    assert_eq!(lines[0], "# Title");
    // Lines 1-3: blank placeholders
    assert_eq!(lines[1], "");
    assert_eq!(lines[2], "");
    assert_eq!(lines[3], "");
    // Line 4: "More text."
    assert_eq!(lines[4], "More text.");
}

#[test]
fn absolute_path_preserved() {
    let md = "![abs](/absolute/path/img.png)\n";
    let refs = extract_images(md, "/other");
    assert_eq!(refs[0].path, "/absolute/path/img.png");
}

#[test]
fn kitty_encoding_single_chunk() {
    // Small payload that fits in one chunk.
    let data = vec![0u8; 10]; // 10 bytes → ~16 base64 chars
    let mut buf = Vec::new();
    emit_kitty_image(&mut buf, &data, 5, 3);

    let output = String::from_utf8(buf).unwrap();
    // Should contain header with m=0 (single chunk).
    assert!(output.contains("a=T,f=100,q=2,C=1,c=5,r=3,m=0;"));
    // Should end with ST.
    assert!(output.ends_with("\x1b\\"));
}

#[test]
fn kitty_encoding_multi_chunk() {
    // Large payload that requires chunking.
    let data = vec![0u8; 5000]; // > 4096 base64 chars after encoding
    let mut buf = Vec::new();
    emit_kitty_image(&mut buf, &data, 40, 20);

    let output = String::from_utf8(buf).unwrap();
    // First chunk should have m=1.
    assert!(output.contains("m=1;"));
    // Last chunk should have m=0.
    assert!(output.contains("\x1b_Gm=0;"));
}

#[test]
fn quantize_produces_palette_and_indices() {
    // 2x2 image: red, green, blue, white
    let rgba = vec![
        255, 0, 0, 255, // red
        0, 255, 0, 255, // green
        0, 0, 255, 255, // blue
        255, 255, 255, 255, // white
    ];
    let (palette, indices) = quantize_to_palette(&rgba, 2, 2);
    assert!(!palette.is_empty());
    assert!(palette.len() <= SIXEL_MAX_COLORS);
    assert_eq!(indices.len(), 4);
}

#[test]
fn quantize_transparent_pixels() {
    // 2x1: one opaque, one transparent
    let rgba = vec![
        255, 0, 0, 255, // opaque red
        0, 0, 0, 0, // fully transparent
    ];
    let (palette, indices) = quantize_to_palette(&rgba, 2, 1);
    assert!(!palette.is_empty());
    assert_eq!(indices.len(), 2);
    // Transparent pixel maps to index 0.
    assert_eq!(indices[1], 0);
}

#[test]
fn sixel_output_has_header_and_terminator() {
    // Create a tiny 2x2 PNG in memory.
    let img = image::RgbaImage::from_fn(2, 2, |x, y| {
        if (x + y) % 2 == 0 {
            image::Rgba([255, 0, 0, 255])
        } else {
            image::Rgba([0, 0, 255, 255])
        }
    });
    let mut png_bytes = Vec::new();
    let mut cursor = std::io::Cursor::new(&mut png_bytes);
    img.write_to(&mut cursor, image::ImageFormat::Png).unwrap();

    let mut buf = Vec::new();
    emit_sixel_image(&mut buf, &png_bytes, 2, 1).unwrap();

    let output = String::from_utf8(buf).unwrap();
    // Should start with DCS (Sixel header).
    assert!(
        output.starts_with("\x1bP0;0;0q"),
        "missing Sixel DCS header"
    );
    // Should end with ST (String Terminator).
    assert!(output.ends_with("\x1b\\"), "missing Sixel ST terminator");
    // Should contain at least one color definition.
    assert!(output.contains("#0;2;"), "missing palette definition");
}

#[test]
fn graphics_protocol_enum_equality() {
    assert_eq!(GraphicsProtocol::Kitty, GraphicsProtocol::Kitty);
    assert_ne!(GraphicsProtocol::Kitty, GraphicsProtocol::Sixel);
    assert_ne!(GraphicsProtocol::Sixel, GraphicsProtocol::NoGraphics);
}

/// Create a tiny valid 1x1 red PNG for testing.
fn tiny_png() -> Vec<u8> {
    let img = ImageBuffer::from_pixel(1, 1, Rgba([255u8, 0, 0, 255]));
    let mut buf = Vec::new();
    let mut cursor = std::io::Cursor::new(&mut buf);
    img.write_to(&mut cursor, image::ImageFormat::Png).unwrap();
    buf
}

#[test]
fn build_processed_md_no_replacements() {
    let md = "# Hello\n\nSome text.\n";
    let (result, placements) = build_processed_markdown(
        md,
        &vec![], // no images
        &vec![], // no contents
        &vec![], // no mermaid blocks
        &vec![], // no rendered mermaids
        80,
        8,
        16,
    );
    assert_eq!(result, md);
    assert!(placements.is_empty());
}

#[test]
fn build_processed_md_image_replacement() {
    // Markdown with one image line. Since the image file doesn't exist,
    // load_image returns None, so we get a placeholder with no PNG data
    // and thus no placement entry.
    let md = "# Title\n\n![photo](nonexistent.png)\n\nMore text.\n";
    let image_refs = extract_images(md, "/tmp");
    assert_eq!(image_refs.len(), 1);

    let (result, placements) = build_processed_markdown(md, &image_refs, &vec![None], &vec![], &vec![], 80, 8, 16);

    // The image line should have been replaced with placeholder blank line(s).
    assert!(!result.contains("![photo]"));
    // No placement because the image file doesn't exist.
    assert!(placements.is_empty());
}

#[test]
fn build_processed_md_mermaid_replacement() {
    let md = "# Title\n\n```mermaid\ngraph TD\n    A --> B\n```\n\nMore text.\n";
    let mermaid_blocks = extract_mermaid_blocks(md);
    assert_eq!(mermaid_blocks.len(), 1);

    // Provide a pre-rendered PNG for block index 0.
    let png = tiny_png();
    let rendered = vec![(0usize, png)];

    let (result, placements) =
        build_processed_markdown(md, &vec![], &vec![], &mermaid_blocks, &rendered, 80, 8, 16);

    // The mermaid fenced block should be replaced with placeholder lines.
    assert!(
        !result.contains("```mermaid"),
        "mermaid fence should be removed"
    );
    assert!(
        !result.contains("graph TD"),
        "mermaid source should be removed"
    );
    // We should have one placement for the diagram.
    assert_eq!(placements.len(), 1);
    assert_eq!(placements[0].alt, "mermaid diagram");
    // The text before and after should be preserved.
    assert!(result.contains("# Title"));
    assert!(result.contains("More text."));
}

#[test]
fn build_processed_md_mermaid_fallback_no_render() {
    // When no rendered mermaids are provided, the mermaid block stays as-is.
    let md = "```mermaid\ngraph TD\n    A --> B\n```\n";
    let mermaid_blocks = extract_mermaid_blocks(md);
    assert_eq!(mermaid_blocks.len(), 1);

    let (result, placements) = build_processed_markdown(
        md,
        &vec![],
        &vec![],
        &mermaid_blocks,
        &vec![], // no renders — fallback to code block
        80,
        8,
        16,
    );

    // Should be unchanged — mermaid source preserved as code block.
    assert_eq!(result, md);
    assert!(placements.is_empty());
}

#[test]
fn build_processed_md_mixed_image_and_mermaid() {
    let md = "\
![photo](fake.png)\n\
\n\
```mermaid\n\
graph LR\n\
X --> Y\n\
```\n\
\n\
End.\n";

    let image_refs = extract_images(md, "/tmp");
    let mermaid_blocks = extract_mermaid_blocks(md);

    let png = tiny_png();
    let rendered = vec![(0usize, png)];

    let (result, placements) =
        build_processed_markdown(md, &image_refs, &vec![None], &mermaid_blocks, &rendered, 80, 8, 16);

    // Image line and mermaid block should both be replaced.
    assert!(!result.contains("![photo]"));
    assert!(!result.contains("```mermaid"));
    assert!(!result.contains("graph LR"));
    // One placement for mermaid (image file doesn't exist, so no image placement).
    assert_eq!(placements.len(), 1);
    assert!(result.contains("End."));
}

fn png(width: u32, height: u32) -> Vec<u8> {
    let img = ImageBuffer::from_pixel(width, height, Rgba([255u8, 0, 0, 255]));
    let mut buf = Vec::new();
    let mut cursor = std::io::Cursor::new(&mut buf);
    img.write_to(&mut cursor, image::ImageFormat::Png).unwrap();
    buf
}

#[test]
fn images_are_scaled_to_the_columns() {
    // 100x50 pixels on 10 columns of 5 pixels: 50x25 pixels, so 3 rows of 10.
    assert_eq!(scale_height(100, 50, 50), 25);
    assert_eq!(rows_for_size(Some((100, 50)), 10, 5, 10), 3);
    assert_eq!(rows_for_size(Some((20, 50)), 10, 5, 10), 5);
    assert_eq!(rows_for_size(Some((0, 50)), 10, 5, 10), 1);
    assert_eq!(rows_for_size(None, 10, 5, 10), 1);
    // Half a pixel is rounded up.
    assert_eq!(scale_height(2, 1, 1), 1);
    assert_eq!(scale_height(3, 1, 1), 0);
}

#[test]
fn scaling_agrees_with_double_precision() {
    for w in [1u32, 3, 7, 640, 1021, 4000, 65_535] {
        for h in [1u32, 2, 99, 481, 1080, 100_000] {
            for max in [1u32, 2, 33, 639, 1000] {
                if w > max {
                    let scale = f64::from(max) / f64::from(w);
                    let expected = (f64::from(h) * scale).round() as u32;
                    assert_eq!(scale_height(w, h, max), expected);
                }
            }
        }
    }
}

#[test]
fn image_files_are_loaded_by_their_extension() {
    let data = png(100, 50);
    assert_eq!(estimate_image_rows("a.png", Some(&data), 10, 5, 10), 3);
    let (bytes, cols, rows) = load_image("a.png", Some(&data), 10, 5, 10).unwrap();
    assert_eq!((cols, rows), (10, 3));
    let small = image::load_from_memory(&bytes).unwrap();
    assert_eq!((small.width(), small.height()), (50, 25));
    assert!(load_image("a.txt", Some(&data), 10, 5, 10).is_none());
    assert!(load_image("a.jpg", Some(&data), 10, 5, 10).is_none());
    assert!(load_image("a.png", None, 10, 5, 10).is_none());
    assert_eq!(estimate_image_rows("a.png", None, 10, 5, 10), 1);
    let (bytes, cols, rows) = load_image_from_bytes(&data, 80, 8, 16).unwrap();
    assert_eq!((cols, rows), (13, 4));
    assert_eq!(image::load_from_memory(&bytes).unwrap().width(), 100);
    assert!(load_image_from_bytes(&vec![1, 2, 3], 80, 8, 16).is_none());
}

#[test]
fn loaded_images_are_placed() {
    assert_eq!(
        place_image(Some((100, 50)), Some(vec![7]), 10, 5, 10),
        Some((vec![7], 10, 3))
    );
    assert_eq!(place_image(Some((100, 50)), None, 10, 5, 10), None);
    assert_eq!(place_image(Some((0, 50)), Some(vec![7]), 10, 5, 10), None);
    assert_eq!(place_image(None, Some(vec![7]), 10, 5, 10), None);
}

#[test]
fn references_are_collected_from_matches() {
    let found = vec![
        vec![],
        vec![
            vec!["![a](b)".to_string(), "a".to_string(), "b".to_string()],
            vec!["![c](d)".to_string(), "c".to_string(), "d".to_string()],
        ],
    ];
    let refs = collect_images(&found, "/base");
    assert_eq!(refs.len(), 1);
    assert_eq!(refs[0].alt, "a");
    assert_eq!(refs[0].path, "/base/b");
    assert_eq!(refs[0].source_line, 1);
}

#[test]
fn replaced_text_ends_as_the_original() {
    let refs = extract_images("a\n![x](y)", "/");
    let (text, rows) = replace_images("a\n![x](y)", &refs, 2);
    assert_eq!(text, "a\n\n");
    assert_eq!(rows, vec![1]);
    let (text, rows) = replace_images("a\nb", &vec![], 2);
    assert_eq!(text, "a\nb");
    assert!(rows.is_empty());
}

fn replacement(start: usize, end: usize, rows: u16, png: Option<Vec<u8>>) -> Replacement {
    Replacement {
        start_line: start,
        end_line: end,
        placeholder_rows: rows,
        png_data: png,
        display_cols: 4,
        display_rows: rows,
        alt: "alt".to_string(),
    }
}

#[test]
fn images_stand_on_their_blank_rows() {
    let md = "0\n1\n2\n3\n4\n5\n";
    let list = vec![
        replacement(4, 4, 2, Some(vec![2])),
        replacement(1, 2, 3, Some(vec![1])),
    ];
    let (text, placements) = place_replacements(md, &list);
    assert_eq!(text, "0\n\n\n\n3\n\n\n5\n");
    assert_eq!(placements.len(), 2);
    assert_eq!((placements[0].content_row, placements[0].rows), (1, 3));
    assert_eq!((placements[1].content_row, placements[1].rows), (5, 2));
    let lines: Vec<&str> = text.lines().collect();
    for p in &placements {
        for row in 0..usize::from(p.rows) {
            assert_eq!(lines[p.content_row + row], "");
        }
    }
}

#[test]
fn overlapping_replacement_stops_the_later_ones() {
    let md = "0\n1\n2\n3\n";
    let list = vec![
        replacement(0, 2, 1, None),
        replacement(1, 1, 1, Some(vec![1])),
        replacement(3, 3, 1, Some(vec![2])),
    ];
    let (text, placements) = place_replacements(md, &list);
    assert_eq!(text, "\n3\n");
    assert!(placements.is_empty());
}

#[test]
fn replacements_follow_what_was_loaded() {
    let refs = extract_images("![a](a.png)\n![b](b.png)\n", "/");
    let blocks = extract_mermaid_blocks("```mermaid\nx\n```\n");
    let list = collect_replacements(
        &refs,
        &vec![2, 5],
        &vec![Some((vec![9], 3, 2)), None],
        &blocks,
        &vec![(0, vec![8]), (0, vec![7])],
        &vec![None, Some((vec![1], 6, 4))],
    );
    assert_eq!(list.len(), 3);
    assert_eq!(list[0].png_data, Some(vec![9]));
    assert_eq!((list[0].display_cols, list[0].display_rows), (3, 2));
    assert_eq!(list[1].png_data, None);
    assert_eq!((list[1].display_cols, list[1].display_rows), (0, 5));
    assert_eq!((list[2].start_line, list[2].end_line), (0, 2));
    assert_eq!(list[2].png_data, Some(vec![7]));
    assert_eq!(list[2].placeholder_rows, 4);
    assert_eq!(list[2].alt, "mermaid diagram");
}

#[test]
fn image_in_a_document_is_placed() {
    let md = "# T\n![a](a.png)\nend\n";
    let refs = extract_images(md, "/d");
    let contents = vec![Some(png(16, 32))];
    let (text, placements) =
        build_processed_markdown(md, &refs, &contents, &vec![], &vec![], 80, 8, 16);
    assert_eq!(text, "# T\n\n\nend\n");
    assert_eq!(placements.len(), 1);
    assert_eq!((placements[0].content_row, placements[0].cols, placements[0].rows), (1, 2, 2));
    assert_eq!(placements[0].alt, "a");
}

fn placement(row: usize, rows: u16, data: Vec<u8>) -> ImagePlacement {
    ImagePlacement {
        png_data: data,
        content_row: row,
        cols: 3,
        rows,
        alt: String::new(),
    }
}

#[test]
fn only_whole_images_are_shown() {
    let data = tiny_png();
    let list = vec![
        placement(0, 2, data.clone()),
        placement(5, 2, data.clone()),
        placement(9, 2, data.clone()),
        placement(20, 2, data.clone()),
    ];
    let drawn = emit_visible_images(&list, 1, 9, GraphicsProtocol::Kitty).unwrap();
    assert_eq!(drawn.len(), 2);
    assert_eq!(drawn[0], Paint::MoveTo(2, 5));
    let mut expected = Vec::new();
    emit_kitty_image(&mut expected, &data, 3, 2);
    assert_eq!(drawn[1], Paint::Raw(expected));
    let whole = emit_visible_images(&list, 0, 30, GraphicsProtocol::Kitty).unwrap();
    assert_eq!(whole.len(), 8);
}

#[test]
fn images_of_the_frame_before_are_removed() {
    let list = vec![placement(50, 2, tiny_png())];
    let drawn = draw_images(&list, 0, 9, GraphicsProtocol::Kitty).unwrap();
    assert_eq!(drawn, vec![Paint::Raw(KITTY_DELETE.as_bytes().to_vec())]);
    assert!(draw_images(&list, 0, 9, GraphicsProtocol::Sixel).unwrap().is_empty());
    assert!(draw_images(&list, 50, 9, GraphicsProtocol::NoGraphics).unwrap().is_empty());
    assert!(draw_images(&vec![], 0, 9, GraphicsProtocol::Kitty).unwrap().is_empty());
}

#[test]
fn bytes_without_an_image_are_an_error_for_sixel() {
    let list = vec![placement(0, 2, vec![1, 2, 3])];
    assert_eq!(
        emit_visible_images(&list, 0, 9, GraphicsProtocol::Sixel),
        Err(NotAnImage)
    );
    assert!(emit_visible_images(&list, 0, 9, GraphicsProtocol::Kitty).is_ok());
    let mut buf = vec![42];
    assert_eq!(emit_sixel_image(&mut buf, &vec![1, 2, 3], 1, 1), Err(NotAnImage));
    assert_eq!(buf, vec![42]);
}

#[test]
fn sixel_text_of_a_small_image() {
    // Two colors over seven rows: the second band has one row.
    let palette = vec![[255, 0, 0], [0, 0, 255]];
    let indices = vec![0, 0, 0, 1, 0, 0, 0, 1, 0, 0, 0, 1, 0, 0, 0, 1, 0, 0, 0, 1, 0, 0, 0, 1, 1, 1, 1, 1];
    assert_eq!(
        encode_sixel(&palette, &indices, 4, 7),
        "\x1bP0;0;0q#0;2;100;0;0#1;2;0;0;100#0!3~?$#1!3?~-#1!4@-\x1b\\"
    );
    assert_eq!(encode_sixel(&vec![], &vec![], 0, 0), "");
}

#[test]
fn sixel_of_pixels_quantizes_first() {
    let red = [255u8, 0, 0, 255];
    let clear = [0u8, 0, 0, 0];
    let pixels: Vec<u8> = [red, red, clear].concat();
    assert_eq!(
        sixel_of_pixels(&pixels, 3, 1),
        "\x1bP0;0;0q#0;2;100;0;0#0!3@-\x1b\\"
    );
    assert_eq!(sixel_of_pixels(&clear.to_vec(), 1, 1), "");
}

#[test]
fn palette_begins_with_the_most_frequent_color() {
    let red = [255u8, 0, 0, 255];
    let blue = [0u8, 0, 255, 255];
    let pixels: Vec<u8> = [blue, red, red].concat();
    let (palette, indices) = quantize_to_palette(&pixels, 3, 1);
    assert_eq!(palette, vec![[255, 0, 0], [0, 0, 255]]);
    assert_eq!(indices, vec![1, 0, 0]);
    let (palette, indices) = quantize_to_palette(&pixels, 2, 1);
    assert!(palette.is_empty() && indices.is_empty());
    // Colors of one bucket are averaged.
    let (palette, _) = quantize_to_palette(&vec![0, 0, 0, 255, 7, 5, 3, 255], 2, 1);
    assert_eq!(palette, vec![[3, 2, 1]]);
}

#[test]
fn kitty_chunks_carry_the_whole_payload() {
    let mut buf = Vec::new();
    emit_kitty_image(&mut buf, &vec![], 1, 1);
    assert!(buf.is_empty());
    let mut buf = Vec::new();
    emit_kitty_image(&mut buf, &vec![0, 0, 0], 5, 3);
    assert_eq!(buf, b"\x1b_Ga=T,f=100,q=2,C=1,c=5,r=3,m=0;AAAA\x1b\\".to_vec());
    let long = "x".repeat(5000);
    let text = kitty_sequence(&long, 1, 2);
    let expected = format!(
        "\x1b_Ga=T,f=100,q=2,C=1,c=1,r=2,m=1;{}\x1b\\\x1b_Gm=0;{}\x1b\\",
        "x".repeat(4096),
        "x".repeat(904)
    );
    assert_eq!(text, expected);
}

fn env<'a>(program: Option<&'a str>, term: Option<&'a str>) -> TerminalEnv<'a> {
    TerminalEnv {
        term_program: program,
        term,
        tmux: false,
        reed_sixel: None,
    }
}

#[test]
fn graphics_depend_on_the_terminal() {
    let kitty = GraphicsProtocol::Kitty;
    let sixel = GraphicsProtocol::Sixel;
    let no = GraphicsProtocol::NoGraphics;
    assert_eq!(detect_graphics_protocol(&env(None, Some("xterm-ghostty"))), kitty);
    assert_eq!(detect_graphics_protocol(&env(Some("WezTerm"), Some("xterm-256color"))), kitty);
    assert_eq!(detect_graphics_protocol(&env(Some("WezTerm"), Some("tmux-256color"))), no);
    assert_eq!(detect_graphics_protocol(&env(Some("foot"), Some("tmux-256color"))), sixel);
    assert_eq!(detect_graphics_protocol(&env(Some("foot"), None)), sixel);
    assert_eq!(detect_graphics_protocol(&env(None, Some("tmux-256color"))), no);
    assert_eq!(detect_graphics_protocol(&env(None, Some("screen"))), no);
    assert_eq!(detect_graphics_protocol(&env(None, Some("xterm"))), kitty);
    let mut inside = env(None, Some("xterm"));
    inside.tmux = true;
    assert_eq!(detect_graphics_protocol(&inside), no);
    let mut forced = env(None, None);
    forced.reed_sixel = Some("TRUE");
    assert_eq!(detect_graphics_protocol(&forced), sixel);
}

fn encoded(img: &image::DynamicImage, format: image::ImageFormat) -> Vec<u8> {
    let mut buf = Vec::new();
    img.write_to(&mut std::io::Cursor::new(&mut buf), format).unwrap();
    buf
}

#[test]
fn images_of_every_kind_are_loaded() {
    let kinds = [
        image::DynamicImage::new_luma8(40, 20),
        image::DynamicImage::new_luma_a8(40, 20),
        image::DynamicImage::new_rgb8(40, 20),
        image::DynamicImage::new_rgba8(40, 20),
        image::DynamicImage::new_luma16(40, 20),
        image::DynamicImage::new_luma_a16(40, 20),
        image::DynamicImage::new_rgb16(40, 20),
        image::DynamicImage::new_rgba16(40, 20),
    ];
    for img in &kinds {
        let data = encoded(img, image::ImageFormat::Png);
        let (png, cols, rows) = load_image("a.png", Some(&data), 4, 5, 10).unwrap();
        assert_eq!((cols, rows), (4, 1));
        let shown = image::load_from_memory(&png).unwrap();
        assert_eq!((shown.width(), shown.height()), (20, 10));
        assert!(load_image_from_bytes(&data, 4, 5, 10).is_some());
    }
    let rgb = &kinds[2];
    for (name, format) in [
        ("a.jpg", image::ImageFormat::Jpeg),
        ("a.gif", image::ImageFormat::Gif),
        ("a.webp", image::ImageFormat::WebP),
    ] {
        let data = encoded(rgb, format);
        assert!(load_image(name, Some(&data), 4, 5, 10).is_some());
        assert!(load_image_from_bytes(&data, 80, 8, 16).is_some());
    }
}

#[test]
fn images_without_room_are_not_loaded() {
    let data = encoded(&image::DynamicImage::new_rgb8(40, 20), image::ImageFormat::Png);
    assert!(load_image("a.png", Some(&data), 0, 5, 10).is_none());
    assert!(load_image("a.png", Some(&data), 4, 0, 10).is_none());
    assert!(load_image_from_bytes(&data, 0, 5, 10).is_none());
    assert!(load_image("a.png", Some(&data), 1, 1, 10).is_some());
}

#[test]
fn sixel_shows_the_pixels_of_the_image() {
    let pixels: Vec<u8> = (0..4 * 5 * 7u32).map(|i| (i * 37 % 256) as u8).collect();
    let img = image::RgbaImage::from_raw(5, 7, pixels.clone()).unwrap();
    let mut buf = vec![1, 2];
    let data = encoded(&image::DynamicImage::ImageRgba8(img), image::ImageFormat::Png);
    emit_sixel_image(&mut buf, &data, 1, 1).unwrap();
    assert_eq!(&buf[..2], [1, 2]);
    assert_eq!(&buf[2..], sixel_of_pixels(&pixels, 5, 7).as_bytes());
    // Gray pixels have three equal channels and are opaque.
    let gray = image::GrayImage::from_raw(3, 1, vec![0, 128, 255]).unwrap();
    let wide = vec![0, 0, 0, 255, 128, 128, 128, 255, 255, 255, 255, 255];
    let mut buf = Vec::new();
    let data = encoded(&image::DynamicImage::ImageLuma8(gray), image::ImageFormat::Png);
    emit_sixel_image(&mut buf, &data, 1, 1).unwrap();
    assert_eq!(buf, sixel_of_pixels(&wide, 3, 1).as_bytes());
}

#[test]
fn loaded_images_are_pngs_that_can_be_shown() {
    for color in [image::ColorType::Rgba8, image::ColorType::L8, image::ColorType::Rgb16] {
        let data = encoded(&image::DynamicImage::new(100, 50, color), image::ImageFormat::Png);
        let (bytes, cols, rows) = load_image_from_bytes(&data, 10, 5, 10).unwrap();
        assert_eq!(&bytes[..8], [137, 80, 78, 71, 13, 10, 26, 10]);
        let small = image::load_from_memory(&bytes).unwrap();
        assert_eq!((small.width(), small.height()), (50, 25));
        let mut buf = Vec::new();
        assert!(emit_sixel_image(&mut buf, &bytes, cols, rows).is_ok());
    }
}

#[test]
fn rows_are_set_aside_as_images_take_them_up() {
    let img = image::DynamicImage::new_rgb8(61, 47);
    for (name, format) in [
        ("a.png", image::ImageFormat::Png),
        ("a.jpg", image::ImageFormat::Jpeg),
        ("a.gif", image::ImageFormat::Gif),
        ("a.webp", image::ImageFormat::WebP),
    ] {
        let data = encoded(&img, format);
        for cols in 1..20 {
            let (_, _, rows) = load_image(name, Some(&data), cols, 5, 10).unwrap();
            assert_eq!(rows, estimate_image_rows(name, Some(&data), cols, 5, 10));
            let md = format!("x\n![a]({name})\ny\n");
            let refs = extract_images(&md, "/d");
            let contents = vec![Some(data.clone())];
            let (text, placed) =
                build_processed_markdown(&md, &refs, &contents, &vec![], &vec![], cols, 5, 10);
            assert_eq!(text, format!("x\n{}y\n", "\n".repeat(rows as usize)));
            assert_eq!((placed[0].content_row, placed[0].rows), (1, rows));
        }
    }
}

#[test]
fn images_that_fit_keep_their_pixels() {
    let pixels: Vec<u8> = (0..4 * 5 * 7u32).map(|i| (i * 37 % 256) as u8).collect();
    let rgba = image::RgbaImage::from_raw(5, 7, pixels).unwrap();
    let img = image::DynamicImage::ImageRgba8(rgba);
    for img in [
        image::DynamicImage::ImageLuma8(img.to_luma8()),
        image::DynamicImage::ImageLumaA16(img.to_luma_alpha16()),
        image::DynamicImage::ImageRgb16(img.to_rgb16()),
        img,
    ] {
        let data = encoded(&img, image::ImageFormat::Png);
        let shown = |bytes: &Vec<u8>| image::load_from_memory(bytes).unwrap().to_rgba8();
        let (same, _, _) = load_image("a.png", Some(&data), 1, 5, 10).unwrap();
        assert_eq!(shown(&same), shown(&data));
        let (same, _, _) = load_image_from_bytes(&data, 10, 5, 10).unwrap();
        assert_eq!(shown(&same), shown(&data));
        let (scaled, _, _) = load_image_from_bytes(&data, 1, 4, 10).unwrap();
        assert_eq!(shown(&scaled).width(), 4);
    }
}

#[test]
fn kitty_payload_is_base64() {
    for (data, text) in [
        (vec![77u8, 97, 110], "TWFu"),
        (vec![77], "TQ=="),
        (vec![255, 255], "//8="),
        (vec![0, 16, 131, 255, 239, 190], "ABCD/+++"),
    ] {
        let mut buf = Vec::new();
        emit_kitty_image(&mut buf, &data, 1, 2);
        let expected = format!("\x1b_Ga=T,f=100,q=2,C=1,c=1,r=2,m=0;{text}\x1b\\");
        assert_eq!(String::from_utf8(buf).unwrap(), expected);
    }
}
