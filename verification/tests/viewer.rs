use reed::ansi::{ansi_bg, ansi_fg, strip_ansi_codes};
use reed::chrome::{
    can_draw_header, can_draw_toc, draw_footer, draw_header, draw_prompt, draw_toc_cell,
    is_too_small, render_size_warning,
};
use reed::frame::{draw_frame, rgb_to_color, toc_width_for, Cell, FrameView};
use reed::graphics::GraphicsProtocol;
use reed::headings::{extract_headings, Heading};
use reed::keys::{
    after_case_pick, after_heading_pick, after_mark, after_note_pick, ends_image, poll,
    read_mark_char, search_prompt, wait_for_resize_or_quit, Action, Event, Key, PromptStep, Scroll,
    Step, Wait, CONTROL, NONE, SHIFT,
};
use reed::layout::{lays_out, row_fits_widths, wraps_to, CellShape, LineShape};
use reed::paint::Paint;
use reed::placeholders::ImagePlacement;
use reed::render::{
    build_skin, finish, preview, preview_code, preview_width, print_to_stdout, render_code,
    render_document, try_preview, try_print_to_stdout, Align, Emphasis,
};
use reed::screen::{draw_screen, render_content, try_draw_screen};
use reed::search::SearchState;
use reed::session::{
    file_changed, is_interactive, loop_exit, rendered_diagrams, watches, After, Document, LoopExit,
    Session, ViewerExit,
};
use reed::theme::{builtin_themes, Color, Theme};

fn theme() -> Theme {
    builtin_themes().remove(0)
}

fn printed(drawn: &[Paint]) -> String {
    drawn
        .iter()
        .map(|p| match p {
            Paint::Print(s) => s.as_str(),
            _ => "",
        })
        .collect()
}

// ---------------------------------------------------------------- keys

fn key(c: char, held: u8) -> Step {
    poll(Some(Event::Key(Key::Char(c), held)), 20, true)
}

#[test]
fn keys_do_what_the_manual_says() {
    assert_eq!(key('q', NONE), Step::Do(Action::Quit));
    assert_eq!(key('c', CONTROL), Step::Do(Action::Quit));
    assert_eq!(key('j', NONE), Step::Move(Scroll::Delta(1)));
    assert_eq!(key('k', NONE), Step::Move(Scroll::Delta(-1)));
    assert_eq!(key(' ', NONE), Step::Move(Scroll::Delta(20)));
    assert_eq!(key('u', CONTROL), Step::Move(Scroll::Delta(-10)));
    assert_eq!(key('g', NONE), Step::Move(Scroll::Top));
    assert_eq!(key('G', SHIFT), Step::Move(Scroll::Bottom));
    assert_eq!(key('t', NONE), Step::Do(Action::NextTheme));
    assert_eq!(key('T', SHIFT), Step::Do(Action::PrevTheme));
    assert_eq!(key('s', NONE), Step::PickHeading);
    assert_eq!(key('S', SHIFT), Step::SearchNotes);
    assert_eq!(key('r', NONE), Step::PickCase);
    assert_eq!(key('m', NONE), Step::AskMark(true));
    assert_eq!(key('\'', NONE), Step::AskMark(false));
    assert_eq!(key('x', NONE), Step::Do(Action::Continue));
    assert_eq!(poll(None, 20, true), Step::Do(Action::Continue));
    assert_eq!(
        poll(Some(Event::Key(Key::Char('S'), SHIFT)), 20, false),
        Step::Do(Action::Continue)
    );
    assert_eq!(
        poll(Some(Event::Resize(80, 24)), 20, true),
        Step::Do(Action::Resize(80, 24))
    );
    assert_eq!(
        poll(Some(Event::WheelDown), 20, true),
        Step::Move(Scroll::Delta(3))
    );
    assert_eq!(
        poll(Some(Event::Key(Key::PageUp, NONE)), 20, true),
        Step::Move(Scroll::Delta(-20))
    );
}

#[test]
fn marks_are_letters() {
    assert_eq!(read_mark_char(Some(Event::Key(Key::Char('B'), SHIFT))), Some('b'));
    assert_eq!(read_mark_char(Some(Event::Key(Key::Char('1'), NONE))), None);
    assert_eq!(read_mark_char(None), None);
    assert_eq!(after_mark(true, Some('b')), Action::SetMark('b'));
    assert_eq!(after_mark(false, Some('b')), Action::JumpToMark('b'));
    assert_eq!(after_mark(true, None), Action::Continue);
}

#[test]
fn cancelled_picks_redraw() {
    assert_eq!(after_heading_pick(Some(7), 3), Action::GotoLine(7));
    assert_eq!(after_heading_pick(None, 3), Action::Redraw(3));
    assert_eq!(
        after_note_pick(Some("n".to_string()), 3),
        Action::ZmdOpen("n".to_string())
    );
    assert_eq!(after_note_pick(None, 3), Action::Redraw(3));
    assert_eq!(
        after_case_pick(Some("c".to_string()), 3),
        Action::OpenCaseRef("c".to_string())
    );
    assert_eq!(after_case_pick(None, 3), Action::Redraw(3));
}

#[test]
fn prompt_is_edited_and_ended() {
    let typed = |q: &str, k: Key, held: u8| search_prompt(q, Event::Key(k, held));
    assert_eq!(typed("a", Key::Char('b'), NONE), PromptStep::Edit("ab".to_string()));
    assert_eq!(typed("ab", Key::Backspace, NONE), PromptStep::Edit("a".to_string()));
    assert_eq!(typed("", Key::Backspace, NONE), PromptStep::Edit(String::new()));
    assert_eq!(typed("a", Key::Enter, NONE), PromptStep::Finish(Some("a".to_string())));
    assert_eq!(typed("", Key::Enter, NONE), PromptStep::Finish(None));
    assert_eq!(typed("a", Key::Esc, NONE), PromptStep::Finish(None));
    assert_eq!(typed("a", Key::Char('c'), CONTROL), PromptStep::Finish(None));
    assert_eq!(
        search_prompt("a", Event::Resize(1, 1)),
        PromptStep::Edit("a".to_string())
    );
}

#[test]
fn small_terminal_waits() {
    assert_eq!(wait_for_resize_or_quit(Event::Resize(80, 24)), Wait::Resized(80, 24));
    assert_eq!(wait_for_resize_or_quit(Event::Key(Key::Esc, NONE)), Wait::Quit);
    assert_eq!(
        wait_for_resize_or_quit(Event::Key(Key::Char('c'), CONTROL | SHIFT)),
        Wait::Quit
    );
    assert_eq!(
        wait_for_resize_or_quit(Event::Key(Key::Char('c'), NONE)),
        Wait::Keep
    );
    assert!(ends_image(Event::Key(Key::Enter, NONE)));
    assert!(!ends_image(Event::Key(Key::Char('x'), NONE)));
}

// ---------------------------------------------------------------- chrome

#[test]
fn header_shows_the_end_of_a_long_name() {
    let theme = theme();
    let drawn = draw_header(40, &theme, " v1", "a/very/long/path/to/some/file/that/does/not/fit.md", None);
    let text = printed(&drawn);
    assert_eq!(text.chars().count(), 40);
    assert!(text.starts_with("  REED v1  \u{2502}  "));
    assert!(text.ends_with("fit.md  "));
    let drawn = draw_header(60, &theme, " v1", "a.md", Some((2, 3)));
    assert!(printed(&drawn).contains("a.md [2/3]"));
    // One character of two bytes: a cut within it is not possible.
    let name = "\u{e9}".repeat(40);
    assert_ne!(
        can_draw_header(40, " v1", &name),
        can_draw_header(41, " v1", &name)
    );
}

#[test]
fn footer_counts_matches() {
    let theme = theme();
    let mut search = SearchState::new();
    let plain = printed(&draw_footer(23, 100, &theme, &search));
    assert_eq!(plain.chars().count(), 100);
    assert!(plain.ends_with("Default  "));
    search.query = "a".to_string();
    assert!(printed(&draw_footer(23, 100, &theme, &search)).contains("[/a: no matches] "));
    search.find_matches("a\r\na");
    assert!(printed(&draw_footer(23, 100, &theme, &search)).contains("[/a: 1/2] "));
}

#[test]
fn prompt_clears_its_row() {
    let drawn = draw_prompt("ab", 5, 10, Color::White, Color::Reset, Color::DarkGrey);
    assert_eq!(printed(&drawn), "/ab       ");
    assert!(drawn.contains(&Paint::MoveTo(3, 5)));
}

#[test]
fn warning_stands_in_the_middle() {
    let theme = theme();
    assert!(is_too_small(39, 24));
    assert!(is_too_small(80, 7));
    assert!(!is_too_small(40, 8));
    let drawn = render_size_warning(30, 7, &theme);
    assert_eq!(drawn[1], Paint::MoveTo(0, 3));
    assert_eq!(
        printed(&drawn),
        "Terminal too small: 30x7 (need 40x8). Please resize."
    );
    let drawn = render_size_warning(100, 7, &theme);
    assert_eq!(drawn[1], Paint::MoveTo(23, 3));
}

#[test]
fn contents_follow_the_current_heading() {
    let theme = theme();
    let headings: Vec<Heading> = (1..=30)
        .map(|i| Heading {
            text: format!("H{i}"),
            level: 1,
            line: i,
        })
        .collect();
    assert!(can_draw_toc(&headings, 24, 10, Some(20)));
    let shown = |row: usize| printed(&draw_toc_cell(&headings, row, 24, 10, Some(20), &theme));
    let all: Vec<String> = (0..10).map(shown).collect();
    assert!(all.iter().any(|t| t.contains("H21 ")));
    assert!(all.iter().all(|t| t.chars().count() == 24));
}

#[test]
fn headings_that_are_not_on_the_screen_need_no_room() {
    let theme = theme();
    let search = SearchState::new();
    // Cutting this heading would cut through a character.
    let long = "\u{d55c}\u{ad6d}\u{c5b4} \u{c81c}\u{baa9}\u{c774} \u{c544}\u{c8fc} \u{ae38}\u{b2e4}";
    let lengths: Vec<String> = (0..3).map(|n| format!("{}{long}", "a".repeat(n))).collect();
    let cut = |text: &String, at: usize| -> Vec<Heading> {
        (0..30)
            .map(|i| Heading {
                text: if i == at { text.clone() } else { format!("H{i}") },
                level: 1,
                line: i,
            })
            .collect()
    };
    let bad: Vec<&String> =
        lengths.iter().filter(|t| !can_draw_toc(&cut(t, 0), 20, 5, Some(0))).collect();
    assert_eq!(bad.len(), 2);
    let headings = cut(bad[0], 0);
    assert!(!can_draw_toc(&headings, 20, 5, None));
    assert!(can_draw_toc(&headings, 20, 5, Some(29)));
    assert!(can_draw_toc(&headings, 20, 0, Some(0)));
    for row in 0..5 {
        let drawn = draw_toc_cell(&headings, row, 20, 5, Some(29), &theme);
        assert_eq!(printed(&drawn).chars().count(), 20);
    }
    let headings = cut(bad[0], 29);
    let mut v = view(&theme, &headings, &search, "a.md");
    v.toc_visible = true;
    v.cols = 66;
    v.content_rows = 5;
    assert_eq!(toc_width_for(66, true, 30), 20);
    assert!(try_draw_screen(&v, &vec![], &vec![], GraphicsProtocol::Kitty).is_some());
    v.content_rows = 40;
    assert!(try_draw_screen(&v, &vec![], &vec![], GraphicsProtocol::Kitty).is_none());
}

// ---------------------------------------------------------------- frames

fn cell(text: &str) -> Cell {
    Cell {
        text: text.to_string(),
        fg: None,
        bg: None,
        inverse: false,
        bold: false,
        underline: false,
        italic: false,
    }
}

fn view<'a>(
    theme: &'a Theme,
    headings: &'a Vec<Heading>,
    search: &'a SearchState,
    filename: &'a str,
) -> FrameView<'a> {
    FrameView {
        cols: 80,
        content_rows: 2,
        theme,
        version: " v1",
        filename,
        buffer_info: None,
        headings,
        search,
        toc_visible: false,
        viewport_top: 0,
    }
}

#[test]
fn frame_fills_every_row() {
    let theme = theme();
    let headings = vec![];
    let search = SearchState::new();
    let v = view(&theme, &headings, &search, "a.md");
    let rows = vec![vec![cell("h"), cell(""), cell("\u{d55c}")]];
    let drawn = draw_frame(&v, &rows);
    let text = printed(&drawn);
    // Header, a row with a cell of two columns, an empty row.
    assert_eq!(text.chars().count(), 80 + 79 + 80);
    assert!(text.contains("  h \u{d55c}"));
    assert!(drawn.contains(&Paint::MoveTo(0, 2)));
}

#[test]
fn matches_are_marked_by_their_background() {
    let theme = theme();
    let headings = vec![];
    let mut search = SearchState::new();
    search.query = "h".to_string();
    search.find_matches("h\r\nh");
    let v = view(&theme, &headings, &search, "a.md");
    let drawn = draw_frame(&v, &vec![vec![cell("h")], vec![cell("h")]]);
    assert!(drawn.contains(&Paint::Bg(theme.search_current_bg())));
    assert!(drawn.contains(&Paint::Bg(theme.search_match_bg())));
}

#[test]
fn whole_screen_has_images_and_footer() {
    let theme = theme();
    let headings = extract_headings("# A\n");
    let search = SearchState::new();
    let v = view(&theme, &headings, &search, "a.md");
    let image = ImagePlacement {
        png_data: vec![1, 2, 3],
        content_row: 0,
        cols: 1,
        rows: 1,
        alt: String::new(),
    };
    let plain = draw_screen(&v, &vec![], &vec![], GraphicsProtocol::Kitty).unwrap();
    let with_image = draw_screen(&v, &vec![], &vec![image.clone()], GraphicsProtocol::Kitty).unwrap();
    assert_eq!(with_image.len(), plain.len() + 3);
    assert!(printed(&plain).ends_with("Default  "));
    assert!(plain.contains(&Paint::MoveTo(0, 3)));
    assert!(draw_screen(&v, &vec![], &vec![image], GraphicsProtocol::Sixel).is_err());
}

#[test]
fn frames_that_cannot_be_drawn_are_told() {
    let theme = theme();
    let headings = vec![];
    let search = SearchState::new();
    let mut v = view(&theme, &headings, &search, "a.md");
    assert!(try_draw_screen(&v, &vec![], &vec![], GraphicsProtocol::Kitty).is_some());
    v.cols = 5000;
    assert!(try_draw_screen(&v, &vec![], &vec![], GraphicsProtocol::Kitty).is_some());
    v.toc_visible = true;
    assert!(try_draw_screen(&v, &vec![], &vec![], GraphicsProtocol::Kitty).is_some());
    let some = extract_headings("# Title\n");
    v.headings = &some;
    assert!(try_draw_screen(&v, &vec![], &vec![], GraphicsProtocol::Kitty).is_none());
    v.cols = 2184;
    assert!(try_draw_screen(&v, &vec![], &vec![], GraphicsProtocol::Kitty).is_some());
    v.toc_visible = false;
    v.headings = &headings;
    let long = format!("a{}", "\u{e9}".repeat(100));
    let longer = format!("aa{}", "\u{e9}".repeat(100));
    v.cols = 80;
    v.filename = &long;
    let first = try_draw_screen(&v, &vec![], &vec![], GraphicsProtocol::Kitty).is_some();
    v.cols = 81;
    let second = try_draw_screen(&v, &vec![], &vec![], GraphicsProtocol::Kitty).is_some();
    assert_ne!(first, second);
    v.filename = &longer;
    assert_eq!(
        try_draw_screen(&v, &vec![], &vec![], GraphicsProtocol::Kitty).is_some(),
        second
    );
}

#[test]
fn contents_take_three_tenths() {
    assert_eq!(toc_width_for(100, true, 3), 30);
    assert_eq!(toc_width_for(200, true, 3), 34);
    assert_eq!(toc_width_for(62, true, 3), 20);
    assert_eq!(toc_width_for(60, true, 3), 0);
    assert_eq!(toc_width_for(100, false, 3), 0);
    assert_eq!(toc_width_for(100, true, 0), 0);
    assert_eq!(rgb_to_color(Some((1, 2, 3)), Color::Reset), Color::Rgb { r: 1, g: 2, b: 3 });
    assert_eq!(rgb_to_color(None, Color::White), Color::White);
}

// ---------------------------------------------------------------- rendering

#[test]
fn colors_have_escape_sequences() {
    let color = Color::Rgb { r: 1, g: 20, b: 255 };
    assert_eq!(ansi_bg(color), "\x1b[48;2;1;20;255m");
    assert_eq!(ansi_fg(color), "\x1b[38;2;1;20;255m");
    assert_eq!(ansi_bg(Color::Reset), "");
    assert_eq!(ansi_fg(Color::White), "");
}

#[test]
fn narrow_text_is_not_wrapped() {
    assert!((0..81).all(|width| wraps_to("x", width)));
    assert!(!wraps_to("x", usize::MAX));
    let theme = theme();
    for (item, room) in [("* a b", 3), (" * a b", 3), ("  * a b", 4), ("   * a b", 5)] {
        for width in 0..8 {
            assert_eq!(wraps_to(item, width), width < 3 || width >= room);
            if wraps_to(item, width) {
                assert!(render_document(item, &theme, width as u16, true).contains('a'));
            }
        }
    }
    assert!(wraps_to("```\n  * a\n```\n", 3));
    assert!(render_document("```\n  * a\n```\n", &theme, 3, true).contains('a'));
    assert!(render_document("|a|b|\n|c|d|\n", &theme, 3, true).contains("\r\n"));
    let item = "   * an item that is long";
    assert!(render_document(item, &theme, 5, true).matches("\r\n").count() > 3);
    assert!(render_document("a long line of text", &theme, 2, true).contains("a long line of text"));
}

#[test]
fn rows_end_in_carriage_returns() {
    assert_eq!(finish("\n \na\nb\n"), "a\r\nb\r\n");
}

#[test]
fn markdown_is_rendered_in_the_skin() {
    let theme = theme();
    let rows = render_document("# Title\n\nsome **bold**\ntext\n", &theme, 40, true);
    assert!(rows.contains("Title"));
    assert!(rows.contains("\r\n"));
    assert!(rows.contains("\x1b["));
    assert!(!rows.contains("**"));
    let Color::Rgb { r, g, b } = build_skin(&theme).heading else {
        panic!("the heading has a color");
    };
    assert!(rows.contains(&format!("38;2;{r};{g};{b}")));
    let skin = build_skin(&theme);
    assert_eq!((skin.heading_emphasis, skin.heading_align), (Emphasis::Bold, Align::Left));
    let title = rows.split("\r\n").find(|row| row.contains("Title")).unwrap();
    assert!(title.contains("\x1b[1m") && !title.contains("\x1b[4m"));
    assert!(strip_ansi_codes(title).starts_with("Title"));
    let wrapped = render_document(&"word ".repeat(20), &theme, 40, true);
    assert!(wrapped.matches("\r\n").count() >= 3);
}

#[test]
fn code_has_the_background_of_the_theme() {
    let mut theme = theme();
    theme.bg = Color::Rgb { r: 1, g: 2, b: 3 };
    assert_eq!(
        render_code("x\ny", "xyzlang", &theme),
        "\x1b[48;2;1;2;3mx\x1b[K\x1b[0m\r\n\x1b[48;2;1;2;3my\x1b[K\x1b[0m\r\n"
    );
    assert!(render_code("fn a() {}", "rust", &theme).contains("\x1b[38;2;"));
    assert_eq!(
        preview_code("x\ny\nz\n", None, &theme, Some(3)),
        "\x1b[48;2;1;2;3mz\x1b[K\x1b[0m\n"
    );
    assert_eq!(preview_code("x\n", None, &theme, Some(9)), "");
    theme.bg = Color::Reset;
    assert_eq!(preview_code("x", Some("xyz"), &theme, Some(0)), "x\x1b[K\x1b[0m\n");
}

#[test]
fn previews_begin_at_a_line() {
    let theme = theme();
    let whole = preview("# A\n\nb\n", &theme, 40, true, None);
    let rest = preview("# A\n\nb\n", &theme, 40, true, Some(2));
    assert!(whole.ends_with(&rest));
    assert_eq!(whole.lines().count(), rest.lines().count() + 1);
    let printed = print_to_stdout("# A\n", &theme, 80, true);
    let Color::Rgb { r, g, b } = build_skin(&theme).heading else {
        panic!("the heading has a color");
    };
    assert!(printed.contains('A') && printed.contains(&format!("38;2;{r};{g};{b}")));
}

#[test]
fn preview_width_has_an_order() {
    assert_eq!(preview_width(Some("33"), Some(90)), 33);
    assert_eq!(preview_width(Some("x"), Some(90)), 90);
    assert_eq!(preview_width(None, None), 80);
}

#[test]
fn content_is_code_or_markdown() {
    let theme = theme();
    let document = Document::read("# A\n\n![x](y.png)\n".to_string(), "/d", true);
    assert_eq!(document.headings.len(), 1);
    assert_eq!(document.images[0].path, "/d/y.png");
    let (rows, placements) =
        render_content(&document, None, &vec![None], &vec![], &theme, 76, 8, 16, true).unwrap();
    assert!(rows.contains('A') && !rows.contains("y.png"));
    assert!(placements.is_empty());
    let (rows, placements) =
        render_content(&document, Some("xyz"), &vec![None], &vec![], &theme, 76, 8, 16, true)
            .unwrap();
    assert!(rows.contains("![x](y.png)"));
    assert!(placements.is_empty());
    let plain = Document::read("![x](y.png)\n".to_string(), "/d", false);
    assert!(plain.images.is_empty());
}

#[test]
fn tables_have_to_fit() {
    let theme = theme();
    let wide = "|a|b|c|d|e|f|g|h|\n|-|-|-|-|-|-|-|-|\n|x|a long cell|\n";
    assert!(wraps_to(wide, 33));
    assert!(!wraps_to(wide, 32));
    assert!(render_document(wide, &theme, 33, true).contains("lon"));
    let item = "|  * a|\n";
    assert!((6..80).all(|width| wraps_to(item, width)) && !wraps_to(item, 5));
    assert!(render_document(item, &theme, 6, true).contains('a'));
    assert!(wraps_to("|  * \u{e9}|\n", 80));
    let deep = "|  * a|a cell that is as long as this one|\n|b|\n";
    for width in 9..80 {
        if wraps_to(deep, width) {
            assert!(render_document(deep, &theme, width as u16, true).contains('a'));
        }
    }
    assert!(wraps_to(deep, 60));
    assert!(wraps_to(" |  * a|\n| * a|\n", 80));
    // Short rows lose no columns, and cells of one piece need no further row.
    for table in [
        "|a|b|`f`|\n",
        "|a|b|c|\n|d   e|\n",
        "|a|b|c|\n|d|\n",
        "|a|b|c|\n|-|\n|d|e|f|\n",
        "|a|b|c|\n||\n",
    ] {
        for width in 3..40 {
            assert!(wraps_to(table, width));
            // With less than five, no column is left.
            let shown = render_document(table, &theme, width as u16, true);
            assert_eq!(shown.contains('a'), width >= 5);
        }
    }
    // Rows that are all long enough lose columns.
    let equal = "|a long cell|b|\n|c|d|\n";
    assert!((0..40).all(|width| wraps_to(equal, width)));
    assert!(render_document(equal, &theme, 5, true).contains("lon"));
    assert!(try_preview(equal, &theme, 5, true, None).is_some());
    assert!(wraps_to("|a|b|c|\n|a long cell|b|\n", 9));
    assert!(render_document("|a|b|c|\n|a long cell|b|\n", &theme, 9, true).contains("lon"));
    // A short row of another table does not matter, one behind an empty block of code does.
    assert!(wraps_to("|a|b|c|\n\n|a long cell|\n", 9));
    assert!(render_document("|a|b|c|\n\n|a long cell|\n", &theme, 9, true).contains("lon"));
    assert!(!wraps_to("|a|b|c|\n```\n```\n|a long cell|\n", 9));
    assert!(wraps_to("|a|b|c|\n```\n|a long cell|\n```\n", 9));
    assert!(try_preview(wide, &theme, 32, true, None).is_none());
    assert_eq!(
        try_preview(wide, &theme, 33, true, None),
        Some(preview(wide, &theme, 33, true, None))
    );
    let document = Document::read(wide.to_string(), "/d", false);
    let show = |cols: u16| {
        render_content(&document, None, &vec![], &vec![], &theme, cols, 8, 16, true).is_some()
    };
    assert!(show(33) && !show(32));
}

#[test]
fn shapes_of_lines_decide_what_can_be_laid_out() {
    let pieces = |width: usize| width / 3 + usize::from(width % 3 > 0);
    let cell = |width: usize| CellShape { depth: None, width, pieces: pieces(width) };
    let item = |depth: u8, width: usize| CellShape {
        depth: Some(depth),
        width,
        pieces: pieces(width),
    };
    let row = |widths: &[usize]| LineShape::Row(widths.iter().map(|w| cell(*w)).collect());
    assert!(lays_out(&vec![], 3) && lays_out(&vec![LineShape::Divider], 3));
    // An item needs room for its bullet and its indentation.
    let text = vec![LineShape::Text(cell(50)), LineShape::Text(item(2, 9))];
    assert!(lays_out(&text, 4) && !lays_out(&text, 3) && lays_out(&text, 2));
    // Two of three columns are left at a width of nine.
    assert!(lays_out(&vec![row(&[1, 1, 9]), row(&[9, 9])], 9));
    assert!(!lays_out(&vec![row(&[1, 1, 9]), row(&[4])], 9));
    assert!(lays_out(&vec![row(&[1, 1, 9]), row(&[3])], 9));
    let blanks = CellShape { depth: None, width: 5, pieces: 1 };
    assert!(lays_out(&vec![row(&[1, 1, 9]), LineShape::Row(vec![blanks])], 9));
    assert!(lays_out(&vec![row(&[1, 1, 9]), row(&[4])], 13));
    assert!(!lays_out(&vec![LineShape::Rule(3), row(&[4])], 9));
    assert!(lays_out(&vec![row(&[1, 1, 9]), LineShape::Divider, row(&[4])], 9));
    // Widths have to be added up.
    assert!(!lays_out(&vec![row(&[usize::MAX]), row(&[1])], 80));
    assert!(lays_out(&vec![row(&[usize::MAX])], 80));
    assert!(!lays_out(&vec![row(&[usize::MAX / 2, usize::MAX / 2])], 80));
    let cells = LineShape::Row(vec![item(2, 9), item(1, 9)]);
    assert!(row_fits_widths(&cells, &vec![4, 3]));
    assert!(!row_fits_widths(&cells, &vec![3, 3]) && !row_fits_widths(&cells, &vec![4, 2]));
    assert!(row_fits_widths(&cells, &vec![4]) && row_fits_widths(&LineShape::Rule(1), &vec![0]));
    let table = vec![LineShape::Row(vec![item(4, 20), cell(20)])];
    assert!(lays_out(&table, 43) && !lays_out(&table, 9));
}

#[test]
fn documents_that_cannot_be_printed_are_told() {
    let theme = theme();
    let wide = "|a|b|c|\n|a long cell|\n";
    assert_eq!(try_print_to_stdout(wide, &theme, 9, true), None);
    assert_eq!(
        try_print_to_stdout(wide, &theme, 13, true),
        Some(print_to_stdout(wide, &theme, 13, true))
    );
}

// ---------------------------------------------------------------- the session

#[test]
fn actions_leave_the_loop() {
    assert_eq!(loop_exit(&Action::Quit), Some(LoopExit::Quit));
    assert_eq!(loop_exit(&Action::Resize(1, 2)), Some(LoopExit::Resize(1, 2)));
    assert_eq!(loop_exit(&Action::Redraw(3)), Some(LoopExit::Redraw(3)));
    assert_eq!(loop_exit(&Action::Continue), None);
    assert_eq!(loop_exit(&Action::ToggleZen), None);
}

#[test]
fn file_is_watched() {
    assert!(watches(60) && watches(120) && !watches(61));
    let mut last = None;
    assert!(!file_changed(&mut last, Some(5)));
    assert!(!file_changed(&mut last, Some(5)));
    assert!(!file_changed(&mut last, None));
    assert!(file_changed(&mut last, Some(6)));
    assert_eq!(last, Some(6));
}

#[test]
fn themes_go_around_and_back() {
    let mut s = Session::new(80, 24, 13, None);
    assert_eq!(s.step(LoopExit::NextTheme, 0, 14), After::SaveTheme(0));
    assert_eq!(s.step(LoopExit::PrevTheme, 0, 14), After::SaveTheme(13));
    assert_eq!(s.theme_index, 13);
}

#[test]
fn overlays_come_back_to_the_same_row() {
    let mut s = Session::new(80, 24, 0, Some(5));
    assert_eq!(s.take_scroll(), Some(4));
    assert_eq!(s.take_scroll(), None);
    assert_eq!(s.step(LoopExit::OpenLink, 7, 14), After::PickLink);
    assert_eq!(s.take_scroll(), Some(7));
    assert_eq!(s.step(LoopExit::CopyBlock, 8, 14), After::PickCodeBlock);
    assert_eq!(s.take_scroll(), Some(8));
    assert_eq!(s.step(LoopExit::Redraw(9), 0, 14), After::Render);
    assert_eq!(s.take_scroll(), Some(9));
    assert_eq!(s.step(LoopExit::ToggleToc, 3, 14), After::Render);
    assert!(s.toc_visible);
    assert_eq!(s.take_scroll(), Some(3));
    assert_eq!(s.step(LoopExit::GotoLine(12), 0, 14), After::Render);
    assert_eq!(s.take_scroll(), Some(11));
    assert_eq!(s.step(LoopExit::Reload, 2, 14), After::ReadFile);
    s.reloaded(2);
    assert_eq!(s.take_scroll(), Some(2));
}

#[test]
fn search_goes_to_the_next_match() {
    let mut s = Session::new(80, 24, 0, None);
    assert_eq!(s.step(LoopExit::StartSearch, 0, 14), After::AskQuery);
    s.search_for(None, "a\r\nb\r\na", 1);
    assert_eq!(s.goto_line, None);
    s.search_for(Some("a".to_string()), "a\r\nb\r\na", 1);
    assert_eq!(s.goto_line, Some(3));
    assert_eq!(s.step(LoopExit::NextMatch, 0, 14), After::Render);
    assert_eq!(s.goto_line, Some(1));
    assert_eq!(s.step(LoopExit::PrevMatch, 0, 14), After::Render);
    assert_eq!(s.goto_line, Some(3));
}

#[test]
fn viewer_is_left_and_resized() {
    let mut s = Session::new(80, 24, 0, None);
    assert_eq!(s.step(LoopExit::Quit, 0, 14), After::Leave(ViewerExit::Quit));
    assert_eq!(
        s.step(LoopExit::BufferNext, 0, 14),
        After::Leave(ViewerExit::BufferNext)
    );
    assert_eq!(
        s.step(LoopExit::BufferPrev, 0, 14),
        After::Leave(ViewerExit::BufferPrev)
    );
    assert_eq!((s.content_rows(), s.inner_cols()), (22, 76));
    assert_eq!(s.step(LoopExit::Resize(3, 2), 0, 14), After::Render);
    assert_eq!((s.content_rows(), s.inner_cols()), (1, 1));
    assert!(is_interactive(true, 80, 24));
    assert!(!is_interactive(false, 80, 24));
    assert!(!is_interactive(true, 0, 24));
}

#[test]
fn failed_diagrams_are_left_out() {
    let rendered = rendered_diagrams(vec![None, Some(vec![1]), None, Some(vec![2])]);
    assert_eq!(rendered, vec![(1, vec![1]), (3, vec![2])]);
}
