use image::{ImageBuffer, Rgba};
use reed::citations::extract_case_citations;
use reed::code_blocks::extract_code_blocks;
use reed::file_picker::{
    default_command, file_picker_args, listing_command, picked_file, shell_escape, BufferRing,
};
use reed::graphics::{emit_kitty_image, GraphicsProtocol, KITTY_DELETE, KITTY_DELETE_ALL};
use reed::headings::extract_headings;
use reed::image_view::{
    cell_size_px, display_image, draw_image, image_bytes, image_cleanup, preview_size, print_image,
    ImageProblem,
};
use reed::launch::{
    detect_editor, editor_probes, first_shown, is_binary, is_document_path, is_image_path, mode,
    open_as, open_in_editor, output_for, stdin_output, Mode, Opening, Output, Request, Surroundings,
};
use reed::links::extract_links;
use reed::paint::Paint;
use reed::pickers::{
    can_list_blocks, case_picked, case_ref_pick, code_block_picked, fzf_code_block_picker,
    fzf_heading_picker, fzf_link_picker, heading_picked, link_picked, overlay_row,
};
use reed::session::ViewerExit;
use reed::sixel::NotAnImage;
use reed::zmd::{
    detect_zmd_root, is_case_file, load_zmd_collections, references_in, resolve_case_to_file,
    resolve_zmd_ref_to_path, shell_escape_str, zmd_get_content, zmd_picked, zmd_search_pick,
    ZmdChoice,
};

// ---------------------------------------------------------------- pickers

#[test]
fn heading_picked_is_the_heading_listed() {
    let headings = extract_headings("# A\n\n### B: c\n");
    let request = fzf_heading_picker(&headings).unwrap();
    assert_eq!(request.input, "1:A\n3:    B: c\n");
    assert!(request.args.contains(&"Heading> ".to_string()));
    assert_eq!(heading_picked(true, "3:    B: c\n"), Some(3));
    assert_eq!(heading_picked(false, "3:B\n"), None);
    assert_eq!(heading_picked(true, "\n"), None);
    assert!(fzf_heading_picker(&vec![]).is_none());
    assert_eq!(overlay_row(24), 7);
}

#[test]
fn link_picked_is_the_link_listed() {
    let links = extract_links("[a b](https://x.y/z)\n");
    let request = fzf_link_picker(&links).unwrap();
    assert_eq!(request.input, "https://x.y/z\ta b\n");
    assert_eq!(link_picked(true, &request.input), Some("https://x.y/z".to_string()));
    assert_eq!(link_picked(false, ""), None);
    assert!(fzf_link_picker(&vec![]).is_none());
}

#[test]
fn code_block_picked_is_the_block_listed() {
    let blocks = extract_code_blocks("```rust\n\nfn a() {}\nb\n```\n```\n```\n");
    assert!(can_list_blocks(&blocks));
    let request = fzf_code_block_picker(&blocks).unwrap();
    let lines: Vec<&str> = request.input.lines().collect();
    assert_eq!(lines.len(), 2);
    assert!(lines[0].starts_with("0\t") && lines[0].contains("fn a() {}"));
    assert!(lines[1].starts_with("1\t") && lines[1].contains("(empty)"));
    assert_eq!(code_block_picked(true, lines[1], 2), Some(1));
    assert_eq!(code_block_picked(true, "2\tx", 2), None);
    assert_eq!(code_block_picked(true, "x", 2), None);
    assert_eq!(code_block_picked(false, "0\tx", 2), None);
    assert!(fzf_code_block_picker(&vec![]).is_none());
    let wide = extract_code_blocks(&format!("```\na{}\n```\n", "\u{e9}".repeat(40)));
    let even = extract_code_blocks(&format!("```\n{}\n```\n", "\u{e9}".repeat(40)));
    assert!(can_list_blocks(&wide));
    assert!(!can_list_blocks(&even));
}

#[test]
fn case_picked_is_the_case_listed() {
    let refs = extract_case_citations("## 참조판례\n\n대법원 2000. 6. 27. 선고 2000다11621 판결\n");
    let request = case_ref_pick(&refs).unwrap();
    assert_eq!(
        request.input,
        "2000다11621\t[참조판례] 대법원 2000. 6. 27. 선고 2000다11621\n"
    );
    assert_eq!(case_picked(true, &request.input), Some("2000다11621".to_string()));
    assert_eq!(case_picked(true, " "), None);
    assert_eq!(case_picked(false, "x"), None);
    assert!(case_ref_pick(&vec![]).is_none());
}

// ---------------------------------------------------------------- notes

#[test]
fn shell_text_is_quoted_where_needed() {
    assert_eq!(shell_escape_str("/a/b"), "/a/b");
    assert_eq!(shell_escape_str("a b"), "'a b'");
    assert_eq!(shell_escape_str("it's"), "'it'\\''s'");
    assert_eq!(shell_escape("a b"), "'a b'");
    assert_eq!(shell_escape_str(""), "''");
    assert_eq!(shell_escape_str("a;b"), "'a;b'");
    assert_eq!(shell_escape_str("$HOME"), "'$HOME'");
    assert_eq!(shell_escape_str("a\nb"), "'a\nb'");
    assert_eq!(shell_escape_str("~/a"), "'~/a'");
    assert_eq!(shell_escape_str("a=b"), "'a=b'");
    assert_eq!(shell_escape_str("\u{e9}"), "'\u{e9}'");
    assert_eq!(shell_escape_str("'"), "''\\'''");
    assert_eq!(shell_escape("*.md"), "'*.md'");
    assert_eq!(shell_escape_str("A-z_0.9/:,@%+"), "A-z_0.9/:,@%+");
}

#[test]
fn notes_are_searched_and_opened() {
    let args = zmd_search_pick("/notes", "/bin/reed", " label ");
    assert!(args.contains(&" label ".to_string()));
    assert!(args.iter().any(|a| a.starts_with("change:transform:")));
    assert_eq!(zmd_picked(true, "\nc/p.md\ttitle\n"), ZmdChoice::Open("c/p.md".to_string()));
    assert_eq!(
        zmd_picked(true, "ctrl-r\nc/p.md\ttitle\n"),
        ZmdChoice::References("c/p.md".to_string())
    );
    assert_eq!(zmd_picked(true, "\n"), ZmdChoice::Nothing);
    assert_eq!(zmd_picked(false, "\nc/p.md\n"), ZmdChoice::Nothing);
    assert_eq!(zmd_get_content(true, "x".to_string()), Some("x".to_string()));
    assert_eq!(zmd_get_content(true, String::new()), None);
    assert_eq!(zmd_get_content(false, "x".to_string()), None);
    assert!(references_in(Some("none")).is_none());
    assert!(references_in(None).is_none());
    assert_eq!(
        references_in(Some("(대법원 1997. 11. 14. 선고 97다26425 판결 참조)")).unwrap().len(),
        1
    );
}

#[test]
fn notes_are_resolved_to_files() {
    let list = load_zmd_collections("Collections:\n  laws: data/laws\n  abs: /x\nnone\n", "/root");
    let place = resolve_zmd_ref_to_path(&list, "laws/a/b.md").unwrap();
    assert_eq!(place.file, Some("/root/data/laws/a/b.md".to_string()));
    assert_eq!(place.uri, "zmd://laws/a/b.md");
    assert_eq!(place.temp_name, "reed-zmd-a_b.md");
    let place = resolve_zmd_ref_to_path(&list, "abs/y.md").unwrap();
    assert_eq!(place.file, Some("/x/y.md".to_string()));
    assert_eq!(resolve_zmd_ref_to_path(&list, "other/y.md").unwrap().file, None);
    assert!(resolve_zmd_ref_to_path(&list, "y.md").is_none());
}

#[test]
fn cases_are_resolved_to_files() {
    let places = resolve_case_to_file("2000다1, 2");
    assert_eq!(places.needle, "2000다1_2");
    assert_eq!(places.uris.len(), 12);
    assert_eq!(places.uris[0], "zmd://precedent-kr/민사/대법원/2000다1_2");
    assert_eq!(places.uris[3], "zmd://precedent-kr/형사/헌법재판소/2000다1_2");
    assert_eq!(places.temp_name, "reed-case-2000다1_2.md");
    assert!(is_case_file("/a/2000다1_2.md", "2000다1_2"));
    assert!(is_case_file("/a/2000다1_2_3.md", "2000다1_2"));
    assert!(!is_case_file("/a/2000다1_23.md", "2000다1_2"));
    assert!(!is_case_file("/a/2000다1_2.txt", "2000다1_2"));
}

#[test]
fn roots_are_the_directories_above() {
    let places = detect_zmd_root("/a/b");
    let roots: Vec<&str> = places.iter().map(|p| p.root.as_str()).collect();
    assert_eq!(roots, vec!["/a/b", "/a", "/"]);
    assert_eq!(places[0].index, "/a/b/.qmd/data.db");
    assert_eq!(places[2].index, "/.qmd/data.db");
}

// ---------------------------------------------------------------- the file picker

#[test]
fn vendor_directories_are_filtered() {
    assert_eq!(
        listing_command(Some("fd"), true),
        "fd --type f --hidden --exclude node_modules --exclude vendor --exclude .git --exclude \
         target --exclude build --exclude dist --exclude .next --exclude __pycache__ --exclude \
         .venv --exclude venv"
    );
    assert_eq!(listing_command(Some("fdfind"), false), "fdfind --type f --hidden");
    assert_eq!(listing_command(None, true), "find . -type f");
    assert_eq!(default_command(Some("fd"), false), Some(listing_command(Some("fd"), true)));
    assert_eq!(default_command(Some("fd"), true), None);
    assert_eq!(default_command(None, false), None);
}

#[test]
fn picker_previews_with_this_program() {
    let args = file_picker_args("/my bin/reed", "HEAD", Some("fd"), false);
    assert_eq!(args[3], "'/my bin/reed' --preview {}");
    assert_eq!(args[7], "HEAD");
    assert_eq!(
        args[11],
        "ctrl-n:execute-silent('/my bin/reed' --next-theme)+refresh-preview+transform-header('/my bin/reed' --print-header)"
    );
    assert_eq!(args.len(), 18);
    assert_eq!(args[15], "filtered> ");
    assert_eq!(
        args[17],
        format!(
            "ctrl-v:transform:[[ {{fzf:prompt}} =~ filtered ]] && echo \"change-prompt(all> )+reload({})\" || echo \"change-prompt(filtered> )+reload({})\"",
            listing_command(Some("fd"), false),
            listing_command(Some("fd"), true)
        )
    );
    assert_eq!(file_picker_args("reed", "", Some("fd"), true).len(), 14);
    assert_eq!(file_picker_args("reed", "", None, false).len(), 14);
}

#[test]
fn nothing_picked_quits() {
    assert_eq!(picked_file(true, " a b.md \n"), Some("a b.md".to_string()));
    assert_eq!(picked_file(true, " \n"), None);
    assert_eq!(picked_file(false, "a.md"), None);
}

#[test]
fn buffers_form_a_ring() {
    let mut ring = BufferRing::new();
    ring.open("a".to_string());
    assert_eq!(ring.info(), None);
    assert!(ring.turn(ViewerExit::BufferNext));
    assert_eq!(ring.current(), "a");
    ring.open("a".to_string());
    ring.open("b".to_string());
    ring.open("a".to_string());
    assert_eq!(ring.files, vec!["a", "b", "a"]);
    assert_eq!(ring.info(), Some((3, 3)));
    assert!(ring.turn(ViewerExit::BufferNext));
    assert_eq!(ring.index, 0);
    assert!(ring.turn(ViewerExit::BufferPrev));
    assert_eq!(ring.index, 2);
    assert!(!ring.turn(ViewerExit::Quit));
    assert_eq!(ring.index, 2);
}

// ---------------------------------------------------------------- opening files

const PLAIN: Surroundings = Surroundings {
    pandoc: true,
    binary: false,
    gfx: GraphicsProtocol::Kitty,
    hexyl: true,
    editor: true,
};

#[test]
fn kinds_of_files() {
    assert!(is_document_path("a.DOCX") && !is_document_path("a.md"));
    assert!(is_image_path("a.jpeg") && !is_image_path("a.svg"));
    assert!(is_binary(&[1, 0]) && !is_binary(&[1, 2]));
    let mut late = vec![1u8; 9000];
    late[8192] = 0;
    assert!(!is_binary(&late));
    late[8191] = 0;
    assert!(is_binary(&late));
}

#[test]
fn files_are_opened_by_what_they_are() {
    assert_eq!(open_as("a.docx", &PLAIN), Opening::Converted);
    let binary = Surroundings { binary: true, ..PLAIN };
    assert_eq!(open_as("a.png", &binary), Opening::Image);
    assert_eq!(open_as("a.bin", &binary), Opening::Hex);
    let no_graphics = Surroundings { gfx: GraphicsProtocol::NoGraphics, ..binary };
    assert_eq!(open_as("a.png", &no_graphics), Opening::Hex);
    assert_eq!(
        open_as("a.png", &Surroundings { hexyl: false, ..no_graphics }),
        Opening::Unviewable
    );
    assert_eq!(open_as("a.rs", &PLAIN), Opening::Editor);
    assert_eq!(
        open_as("a.md", &PLAIN),
        Opening::Text { markdown: true, code_lang: None }
    );
    let no_editor = Surroundings { editor: false, pandoc: false, ..PLAIN };
    assert_eq!(
        open_as("a.rs", &no_editor),
        Opening::Text { markdown: false, code_lang: Some("rs".to_string()) }
    );
    assert_eq!(
        open_as("a.docx", &no_editor),
        Opening::Text { markdown: false, code_lang: None }
    );
}

#[test]
fn editors_are_tried_in_order() {
    let probes = editor_probes(Some("code --wait"));
    let commands: Vec<&str> = probes.iter().map(|p| p.command.as_str()).collect();
    assert_eq!(commands, vec!["emacs", "nvim", "code"]);
    assert_eq!(
        detect_editor(&probes, &vec![false, false, true]),
        Some("code --wait".to_string())
    );
    assert_eq!(
        detect_editor(&probes, &vec![false, true, true]),
        Some("nvim".to_string())
    );
    assert_eq!(detect_editor(&probes, &vec![false, false, false]), None);
    assert_eq!(editor_probes(None).len(), 2);
    assert_eq!(editor_probes(Some(" "))[2].command, " ");
    assert_eq!(
        open_in_editor(" code  --wait ", "a b.rs"),
        Some(vec!["code".to_string(), "--wait".to_string(), "a b.rs".to_string()])
    );
    assert_eq!(open_in_editor(" ", "a"), None);
}

fn request() -> Request {
    Request {
        file: None,
        print: false,
        preview: false,
        next_theme: false,
        prev_theme: false,
        editor: false,
        print_header: false,
    }
}

#[test]
fn command_line_decides() {
    assert_eq!(mode(&request()), Mode::Pick);
    assert_eq!(mode(&Request { print: true, ..request() }), Mode::FileMissing);
    assert_eq!(mode(&Request { preview: true, ..request() }), Mode::FileMissing);
    assert_eq!(
        mode(&Request { prev_theme: true, print_header: true, ..request() }),
        Mode::CycleTheme { forward: false }
    );
    assert_eq!(
        mode(&Request { next_theme: true, prev_theme: true, ..request() }),
        Mode::CycleTheme { forward: true }
    );
    assert_eq!(mode(&Request { print_header: true, ..request() }), Mode::PrintHeader);
    let file = |name: &str| Request { file: Some(name.to_string()), ..request() };
    assert_eq!(mode(&file("-")), Mode::Stdin);
    assert_eq!(mode(&file("a")), Mode::File);
    assert_eq!(mode(&Request { editor: true, ..file("a") }), Mode::Editor);
}

#[test]
fn output_goes_one_way() {
    assert_eq!(output_for(true, true), Output::Print);
    assert_eq!(output_for(false, true), Output::Preview);
    assert_eq!(output_for(false, false), Output::View);
    assert_eq!(first_shown(Output::Print, Some(3)), None);
    assert_eq!(first_shown(Output::View, Some(3)), Some(3));
    assert_eq!(stdin_output("", true, false), None);
    assert_eq!(stdin_output("x", false, false), Some(Output::View));
}

// ---------------------------------------------------------------- image files

fn png(width: u32, height: u32) -> Vec<u8> {
    let img = ImageBuffer::from_pixel(width, height, Rgba([255u8, 0, 0, 255]));
    let mut buf = Vec::new();
    let mut cursor = std::io::Cursor::new(&mut buf);
    img.write_to(&mut cursor, image::ImageFormat::Png).unwrap();
    buf
}

#[test]
fn cells_have_a_size() {
    assert_eq!(cell_size_px(Some((800, 480, 80, 24))), (10, 20));
    assert_eq!(cell_size_px(Some((0, 480, 80, 24))), (8, 16));
    assert_eq!(cell_size_px(None), (8, 16));
}

#[test]
fn image_fills_the_screen_above_the_status() {
    let image = (png(4, 4), 30, 99);
    let drawn = draw_image("/x/cat.png", &image, 20, 10, GraphicsProtocol::Kitty).unwrap();
    let mut expected = Vec::new();
    emit_kitty_image(&mut expected, &image.0, 20, 9);
    assert_eq!(
        drawn,
        vec![
            Paint::Clear,
            Paint::MoveTo(0, 0),
            Paint::Raw(expected),
            Paint::MoveTo(0, 9),
            Paint::Print("\x1b[7m cat.png \u{2014} press q to exit\x1b[0m".to_string()),
        ]
    );
    let wide = draw_image("c", &image, 40, 10, GraphicsProtocol::Kitty).unwrap();
    assert_eq!(
        wide[4],
        Paint::Print(format!("\x1b[7m{:<40}\x1b[0m", " c \u{2014} press q to exit"))
    );
    let broken = (vec![1, 2], 1, 1);
    assert_eq!(
        draw_image("c", &broken, 40, 10, GraphicsProtocol::Sixel),
        Err(NotAnImage)
    );
}

#[test]
fn image_files_are_displayed_or_refused() {
    let data = png(16, 32);
    let cell = (8, 16);
    let kitty = GraphicsProtocol::Kitty;
    assert_eq!(
        display_image("a.png", None, 80, 24, cell, kitty),
        Err(ImageProblem::NotLoaded)
    );
    assert_eq!(display_image("a.png", Some(&data), 80, 24, cell, kitty).unwrap().len(), 5);
    assert_eq!(image_cleanup(kitty), KITTY_DELETE.as_bytes().to_vec());
    assert!(image_cleanup(GraphicsProtocol::Sixel).is_empty());
}

#[test]
fn printed_images_fit_the_preview() {
    assert_eq!(preview_size(Some("30"), Some("x"), Some((80, 24))), (30, 24));
    assert_eq!(preview_size(Some("70000"), None, None), (80, 24));
    let image = (png(4, 4), 30, 99);
    let bytes = image_bytes(&image, (10, 5), GraphicsProtocol::Kitty).unwrap();
    let mut expected = KITTY_DELETE_ALL.as_bytes().to_vec();
    emit_kitty_image(&mut expected, &image.0, 10, 5);
    expected.push(b'\n');
    assert_eq!(bytes, expected);
    let sixel = image_bytes(&image, (10, 5), GraphicsProtocol::Sixel).unwrap();
    assert!(sixel.starts_with(b"\x1bP0;0;0q") && sixel.ends_with(b"\x1b\\\n"));
    assert_eq!(
        print_image("a.png", Some(&vec![0]), (10, 5), (8, 16), GraphicsProtocol::Kitty),
        Err(ImageProblem::NotLoaded)
    );
    assert!(print_image("a.png", Some(&image.0), (10, 5), (8, 16), GraphicsProtocol::Kitty).is_ok());
}
