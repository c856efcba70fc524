use reed::ansi::{strip_ansi_codes, strip_leading_blank_lines};
use reed::citations::{
    collect_citations, extract_case_citations, extract_section_text, Findings,
};
use reed::code_blocks::extract_code_blocks;
use reed::headings::{
    extract_headings, find_current_heading, map_headings_to_vt_rows, Heading,
};
use reed::links::{collect_links, extract_links};
use reed::paragraphs::join_paragraphs;
use reed::search::SearchState;

#[test]
fn extract_atx_headings() {
    let md = "# Title\n\nSome text.\n\n## Section One\n\nBody.\n\n### Sub-section\n";
    let headings = extract_headings(md);
    assert_eq!(headings.len(), 3);
    assert_eq!(headings[0].text, "Title");
    assert_eq!(headings[0].level, 1);
    assert_eq!(headings[0].line, 1);
    assert_eq!(headings[1].text, "Section One");
    assert_eq!(headings[1].level, 2);
    assert_eq!(headings[1].line, 5);
    assert_eq!(headings[2].text, "Sub-section");
    assert_eq!(headings[2].level, 3);
    assert_eq!(headings[2].line, 9);
}

#[test]
fn skip_non_headings() {
    let md = "No headings here.\nJust text.\n#hashtag is not a heading\n";
    let headings = extract_headings(md);
    assert_eq!(headings.len(), 0);
}

#[test]
fn heading_with_extra_hashes() {
    let md = "###### Deep heading\n";
    let headings = extract_headings(md);
    assert_eq!(headings.len(), 1);
    assert_eq!(headings[0].level, 6);
}

#[test]
fn extract_markdown_links() {
    let md = "Check out [Rust](https://www.rust-lang.org) and [Go](https://go.dev).\n";
    let links = extract_links(md);
    assert_eq!(links.len(), 2);
    assert_eq!(links[0].text, "Rust");
    assert_eq!(links[0].url, "https://www.rust-lang.org");
    assert_eq!(links[1].text, "Go");
    assert_eq!(links[1].url, "https://go.dev");
}

#[test]
fn extract_bare_urls() {
    let md = "Visit https://example.com for info.\nAlso http://foo.bar/baz.\n";
    let links = extract_links(md);
    assert_eq!(links.len(), 2);
    assert_eq!(links[0].url, "https://example.com");
    // Trailing period should be stripped (it's sentence punctuation, not part of the URL).
    assert_eq!(links[1].url, "http://foo.bar/baz");
}

#[test]
fn extract_bare_urls_trailing_punctuation() {
    let md = "See https://a.com, and https://b.com; also https://c.com!\n";
    let links = extract_links(md);
    assert_eq!(links.len(), 3);
    assert_eq!(links[0].url, "https://a.com");
    assert_eq!(links[1].url, "https://b.com");
    assert_eq!(links[2].url, "https://c.com");
}

#[test]
fn extract_bare_urls_preserves_path_dots() {
    // Dots that are part of the URL path should NOT be stripped.
    let md = "Download from https://example.com/v1.2.3/file.tar.gz here.\n";
    let links = extract_links(md);
    assert_eq!(links.len(), 1);
    // The trailing period after "gz" is sentence punctuation, stripped.
    // But ".gz" itself is preserved because the period after "gz" is
    // a trailing sentence period, not the one inside the filename.
    assert_eq!(links[0].url, "https://example.com/v1.2.3/file.tar.gz");
}

#[test]
fn extract_links_deduplicates() {
    let md = "[a](https://x.com) and [b](https://x.com) and https://x.com\n";
    let links = extract_links(md);
    // Only one entry for https://x.com
    assert_eq!(links.len(), 1);
    assert_eq!(links[0].text, "a");
}

#[test]
fn extract_links_mixed() {
    let md = "# Title\n\n[docs](https://docs.rs)\n\nSee https://crates.io for crates.\n";
    let links = extract_links(md);
    assert_eq!(links.len(), 2);
    assert_eq!(links[0].url, "https://docs.rs");
    assert_eq!(links[1].url, "https://crates.io");
}

#[test]
fn extract_code_blocks_backtick_fence() {
    let md = "# Hello\n\n```rust\nfn main() {}\n```\n\nDone.\n";
    let blocks = extract_code_blocks(md);
    assert_eq!(blocks.len(), 1);
    assert_eq!(blocks[0].lang, "rust");
    assert_eq!(blocks[0].content, "fn main() {}");
}

#[test]
fn extract_code_blocks_tilde_fence() {
    let md = "~~~python\nprint('hi')\n~~~\n";
    let blocks = extract_code_blocks(md);
    assert_eq!(blocks.len(), 1);
    assert_eq!(blocks[0].lang, "python");
    assert_eq!(blocks[0].content, "print('hi')");
}

#[test]
fn extract_code_blocks_no_lang() {
    let md = "```\nsome code\nmore code\n```\n";
    let blocks = extract_code_blocks(md);
    assert_eq!(blocks.len(), 1);
    assert_eq!(blocks[0].lang, "");
    assert_eq!(blocks[0].content, "some code\nmore code");
}

#[test]
fn extract_code_blocks_multiple() {
    let md = "```js\nconsole.log(1);\n```\n\nText\n\n```go\nfmt.Println()\n```\n";
    let blocks = extract_code_blocks(md);
    assert_eq!(blocks.len(), 2);
    assert_eq!(blocks[0].lang, "js");
    assert_eq!(blocks[1].lang, "go");
}

#[test]
fn extract_code_blocks_no_blocks() {
    let md = "# Title\n\nJust some text.\n";
    let blocks = extract_code_blocks(md);
    assert!(blocks.is_empty());
}

#[test]
fn extract_case_refs_from_structured_section() {
    let md = "---\n사건번호: 2000다10048\n---\n# Test\n\n## 참조판례\n\n[1] 대법원 2000. 11. 10. 선고 2000다24061 판결(공2001상, 12), 대법원 2000. 6. 27. 선고 2000다11621 판결\n\n## 판례내용\n\nBody";
    let refs = extract_case_citations(md);
    assert!(refs.len() >= 2);
    assert!(refs.iter().any(|r| r.case_number == "2000다24061"));
    assert!(refs.iter().any(|r| r.case_number == "2000다11621"));
    // Should have court info from structured section.
    let r = refs
        .iter()
        .find(|r| r.case_number == "2000다24061")
        .unwrap();
    assert_eq!(r.court, "대법원");
    assert_eq!(r.source, "참조판례");
}

#[test]
fn extract_case_refs_in_body_citation() {
    let md = "## 판례내용\n\n위 법리는 (대법원 1997. 11. 14. 선고 97다26425 판결 참조) 확인됨.";
    let refs = extract_case_citations(md);
    assert!(refs.iter().any(|r| r.case_number == "97다26425"));
}

#[test]
fn extract_case_refs_constitutional_court() {
    let md = "## 참조판례\n\n헌법재판소 1996. 2. 29. 선고 94헌마213 결정\n\n## 판례내용";
    let refs = extract_case_citations(md);
    assert_eq!(refs.len(), 1);
    assert_eq!(refs[0].court, "헌법재판소");
    assert_eq!(refs[0].case_number, "94헌마213");
}

#[test]
fn extract_case_refs_deduplicates() {
    let md = "## 참조판례\n\n대법원 2000. 6. 27. 선고 2000다11621 판결\n\n## 판례내용\n\n(대법원 2000. 6. 27. 선고 2000다11621 판결 참조)";
    let refs = extract_case_citations(md);
    // Same case number should appear only once.
    let count = refs
        .iter()
        .filter(|r| r.case_number == "2000다11621")
        .count();
    assert_eq!(count, 1);
}

#[test]
fn extract_case_refs_no_section() {
    let md = "## 판시사항\n\nSome text.\n\n## 판례내용\n\nBody text with no citations.";
    let refs = extract_case_citations(md);
    assert!(refs.is_empty());
}

#[test]
fn extract_case_refs_bare_numbers_in_paren_ref() {
    let md = "## 판례내용\n\n결론임 (대법원 2001. 11. 9. 선고 2001다55499, 55505 판결 등 참조)";
    let refs = extract_case_citations(md);
    assert!(refs.iter().any(|r| r.case_number == "2001다55499"));
}

#[test]
fn extract_section_text_basic() {
    let md = "---\nfoo: bar\n---\n\n## 참조판례\n\nsome refs\n\n## 판례내용\n\nbody";
    let section = extract_section_text(md, "참조판례");
    assert!(section.is_some());
    assert_eq!(section.unwrap(), "some refs");
}

#[test]
fn extract_section_text_missing() {
    let md = "## 판시사항\n\ntext\n\n## 판례내용\n\nbody";
    let section = extract_section_text(md, "참조판례");
    assert!(section.is_none());
}

#[test]
fn join_simple_paragraph() {
    let input = "Hello\nworld\nfoo.\n";
    let result = join_paragraphs(input);
    assert_eq!(result, "Hello world foo.\n");
}

#[test]
fn preserve_blank_line_separation() {
    let input = "Para one\nline two.\n\nPara two\nline two.\n";
    let result = join_paragraphs(input);
    assert_eq!(result, "Para one line two.\n\nPara two line two.\n");
}

#[test]
fn preserve_headings() {
    let input = "# Heading\nSome text\ncontinued.\n";
    let result = join_paragraphs(input);
    assert_eq!(result, "# Heading\nSome text continued.\n");
}

#[test]
fn preserve_list_items() {
    let input = "- item one\n- item two\nSome text\ncontinued.\n";
    let result = join_paragraphs(input);
    assert_eq!(result, "- item one\n- item two\nSome text continued.\n");
}

#[test]
fn preserve_code_fences() {
    let input = "Before.\n```\nfn main() {\n    println!(\"hi\");\n}\n```\nAfter\ntext.\n";
    let result = join_paragraphs(input);
    assert_eq!(
        result,
        "Before.\n```\nfn main() {\n    println!(\"hi\");\n}\n```\nAfter text.\n"
    );
}

#[test]
fn strip_frontmatter() {
    let input = "---\ntitle: Test\n---\nHello\nworld.\n";
    let result = join_paragraphs(input);
    assert_eq!(result, "Hello world.\n");
}

#[test]
fn strip_frontmatter_with_dots() {
    let input = "---\ntitle: Test\nauthor: Me\n...\nContent here.\n";
    let result = join_paragraphs(input);
    assert_eq!(result, "Content here.\n");
}

#[test]
fn no_frontmatter_unchanged() {
    let input = "# Heading\nSome text.\n";
    let result = join_paragraphs(input);
    assert_eq!(result, "# Heading\nSome text.\n");
}

#[test]
fn preserve_blockquotes() {
    let input = "> quote line\n> continued\nPlain text\ncontinued.\n";
    let result = join_paragraphs(input);
    assert_eq!(result, "> quote line\n> continued\nPlain text continued.\n");
}

#[test]
fn preserve_tables() {
    let input = "| A | B |\n|---|---|\n| 1 | 2 |\nParagraph\ncontinued.\n";
    let result = join_paragraphs(input);
    assert_eq!(
        result,
        "| A | B |\n|---|---|\n| 1 | 2 |\nParagraph continued.\n"
    );
}

#[test]
fn preserve_horizontal_rule() {
    let input = "Above.\n---\nBelow\ncontinued.\n";
    let result = join_paragraphs(input);
    assert_eq!(result, "Above.\n---\nBelow continued.\n");
}

#[test]
fn ordered_list() {
    let input = "1. first\n2. second\nPlain.\n";
    let result = join_paragraphs(input);
    assert_eq!(result, "1. first\n2. second\nPlain.\n");
}

#[test]
fn strip_ansi_codes_removes_sgr() {
    let input = "\x1b[1;31mHello\x1b[0m world";
    assert_eq!(strip_ansi_codes(input), "Hello world");
}

#[test]
fn strip_ansi_codes_plain_text() {
    assert_eq!(strip_ansi_codes("no escapes here"), "no escapes here");
}

#[test]
fn map_headings_finds_correct_vt_rows() {
    // Simulate ANSI text with headings at specific rows.
    let ansi = "intro line\r\n\x1b[1mTitle\x1b[0m\r\nbody\r\n\x1b[1mSection\x1b[0m\r\nmore";
    let headings = vec![
        Heading {
            text: "Title".to_string(),
            level: 1,
            line: 1,
        },
        Heading {
            text: "Section".to_string(),
            level: 2,
            line: 5,
        },
    ];
    let mapped = map_headings_to_vt_rows(&headings, ansi);
    assert_eq!(mapped[0].line, 2); // "Title" is on row 1 (0-indexed), reported as 2 (1-indexed)
    assert_eq!(mapped[1].line, 4); // "Section" is on row 3 (0-indexed), reported as 4
}

#[test]
fn map_headings_duplicate_names_scans_forward() {
    let ansi = "\x1b[1mFoo\x1b[0m\r\nbody\r\n\x1b[1mFoo\x1b[0m\r\nend";
    let headings = vec![
        Heading {
            text: "Foo".to_string(),
            level: 1,
            line: 1,
        },
        Heading {
            text: "Foo".to_string(),
            level: 1,
            line: 3,
        },
    ];
    let mapped = map_headings_to_vt_rows(&headings, ansi);
    assert_eq!(mapped[0].line, 1); // first "Foo" at row 0 → 1-indexed
    assert_eq!(mapped[1].line, 3); // second "Foo" at row 2 → 1-indexed
}

#[test]
fn search_smart_case_insensitive() {
    let mut search = SearchState::new();
    search.query = "hello".to_string();
    search.find_matches("Hello World\r\nbye\r\nhello again");
    // lowercase query → case-insensitive: should match "Hello" and "hello"
    assert_eq!(search.match_rows, vec![1, 3]);
}

#[test]
fn search_smart_case_sensitive() {
    let mut search = SearchState::new();
    search.query = "Hello".to_string();
    search.find_matches("Hello World\r\nbye\r\nhello again");
    // uppercase in query → case-sensitive: only matches "Hello"
    assert_eq!(search.match_rows, vec![1]);
}

#[test]
fn search_next_prev_wraps() {
    let mut search = SearchState::new();
    search.query = "x".to_string();
    search.find_matches("x\r\ny\r\nx\r\nz");
    assert_eq!(search.match_rows, vec![1, 3]);

    // next_match advances with wraparound
    assert_eq!(search.next_match(), Some(3));
    assert_eq!(search.next_match(), Some(1));
    assert_eq!(search.next_match(), Some(3));

    // prev_match wraps the other way
    assert_eq!(search.prev_match(), Some(1));
    assert_eq!(search.prev_match(), Some(3));
}

#[test]
fn search_first_match_from() {
    let mut search = SearchState::new();
    search.query = "a".to_string();
    search.find_matches("a\r\nb\r\na\r\nc\r\na");
    assert_eq!(search.match_rows, vec![1, 3, 5]);

    // Jump to first match at or after row 2
    assert_eq!(search.first_match_from(2), Some(3));
    assert_eq!(search.current, 1); // index into match_rows

    // Jump from beyond last match — wraps to first
    assert_eq!(search.first_match_from(6), Some(1));
    assert_eq!(search.current, 0);
}

#[test]
fn search_strips_ansi_for_matching() {
    let mut search = SearchState::new();
    search.query = "hello".to_string();
    search.find_matches("\x1b[1;31mHello\x1b[0m world\r\nnope");
    assert_eq!(search.match_rows, vec![1]);
}

#[test]
fn find_current_heading_basic() {
    let headings = vec![
        Heading {
            text: "A".to_string(),
            level: 1,
            line: 1,
        },
        Heading {
            text: "B".to_string(),
            level: 2,
            line: 10,
        },
        Heading {
            text: "C".to_string(),
            level: 2,
            line: 20,
        },
    ];

    // Before first heading
    assert_eq!(find_current_heading(&headings, 0), None);

    // At first heading
    assert_eq!(find_current_heading(&headings, 1), Some(0));

    // Between first and second
    assert_eq!(find_current_heading(&headings, 5), Some(0));

    // At second heading
    assert_eq!(find_current_heading(&headings, 10), Some(1));

    // After last heading
    assert_eq!(find_current_heading(&headings, 50), Some(2));
}

#[test]
fn leading_blank_rows_are_stripped() {
    assert_eq!(
        strip_leading_blank_lines("\x1b[1m \x1b[0m\r\n\t\r\ntext\r\n\r\n"),
        "text\r\n\r\n"
    );
    assert_eq!(strip_leading_blank_lines("  "), "  ");
    assert_eq!(strip_leading_blank_lines("\x1b[0m"), "\x1b[0m");
    assert_eq!(strip_leading_blank_lines("\n\r\nx"), "\n\r\nx");
    // Stripping twice changes nothing more.
    let once = strip_leading_blank_lines(" \r\n a");
    assert_eq!(strip_leading_blank_lines(&once), once);
}

#[test]
fn unfinished_escape_hides_the_rest() {
    assert_eq!(strip_ansi_codes("a\x1b[31"), "a");
    assert_eq!(strip_ansi_codes("a\x1b_Gm=0;b"), "a");
}

#[test]
fn whole_sequences_are_stripped() {
    let link = "\x1b]8;;https://x\x1b\\link\x1b]8;;\x1b\\";
    assert_eq!(strip_ansi_codes(link), "link");
    assert_eq!(strip_ansi_codes("\x1b]0;title\x07text"), "text");
    assert_eq!(strip_ansi_codes("a\x1b_Gm=0;\x1b\\b"), "ab");
    assert_eq!(strip_ansi_codes("a\x1b[38;2;1;2;3mb\x1b[2Kc\x1b[1@d"), "abcd");
    assert_eq!(strip_ansi_codes("a\x1bMb"), "ab");
}

#[test]
fn empty_section_has_no_text() {
    assert_eq!(extract_section_text("## A\n## B\n\nbody", "A"), None);
    assert_eq!(extract_section_text("## A\n## B\n\nbody", "B"), Some("body".to_string()));
    assert_eq!(extract_section_text("## A", "A"), None);
    assert_eq!(extract_section_text("## A\n", "A"), None);
}

#[test]
fn citations_come_in_the_order_of_the_document() {
    let md = "(대법원 1997. 11. 14. 선고 97다26425 판결 참조)\n\n## 참조판례\n\n대법원 2000. 6. 27. 선고 2000다11621 판결\n";
    let refs = extract_case_citations(md);
    let numbers: Vec<&str> = refs.iter().map(|r| r.case_number.as_str()).collect();
    assert_eq!(numbers, ["97다26425", "2000다11621"]);
    assert_eq!((refs[0].source, refs[1].source), ("본문", "참조판례"));
    // What the section says of a case counts, wherever the case is cited first.
    let md = "(97다26425 판결 참조)\n\n## 참조판례\n\n대법원 2000. 6. 27. 선고 2000다11621 판결, 대법원 1997. 11. 14. 선고 97다26425 판결\n";
    let refs = extract_case_citations(md);
    assert_eq!(refs.len(), 2);
    assert_eq!(refs[0].case_number, "97다26425");
    assert_eq!((refs[0].court.as_str(), refs[0].source), ("대법원", "참조판례"));
}

#[test]
fn findings_are_put_in_order() {
    let found = |parts: &[&str]| parts.iter().map(|p| p.to_string()).collect::<Vec<String>>();
    let findings = Findings {
        section_structured: vec![found(&["x", "c", "d", "2a2"])],
        section_numbers: vec![found(&["2a2"]), found(&["3a3"])],
        body_structured: vec![found(&["y", "e", "f", "1a1"])],
        paren_numbers: vec![vec![found(&["9a9"]), found(&["2a2"])]],
        document_numbers: vec![found(&["7a7"]), found(&["1a1"]), found(&["3a3"]), found(&["2a2"])],
    };
    let refs = collect_citations(&findings);
    let numbers: Vec<&str> = refs.iter().map(|r| r.case_number.as_str()).collect();
    assert_eq!(numbers, ["1a1", "3a3", "2a2", "9a9"]);
    assert_eq!(refs[0].ruling_date, Some("f".to_string()));
    assert_eq!((refs[1].court.as_str(), &refs[1].ruling_date), ("", &None));
    assert_eq!((refs[2].court.as_str(), refs[2].source), ("c", "참조판례"));
    assert_eq!(refs[3].source, "본문");
}

#[test]
fn joining_twice_is_joining_once() {
    let documents = [
        "one\ntwo\n\n```\na\nb\n```\n- item\nmore\n  text\n",
        "---\na: b\n---\n# Title\nbody\n",
        "1.\nfirst\nsecond\n",
        "---\nall of it\n",
        "a\r\nb\r\n",
        "",
    ];
    for md in documents {
        let once = join_paragraphs(md);
        assert_eq!(join_paragraphs(&once), once);
    }
    assert_eq!(join_paragraphs("1.\nfirst\nsecond\n"), "1. first second\n");
}

#[test]
fn links_are_collected_from_matches() {
    let found = |parts: [&str; 3]| parts.iter().map(|p| p.to_string()).collect::<Vec<String>>();
    let inline = vec![found(["[a](u)", "a", "u"]), found(["[b](u)", "b", "u"])];
    let bare = vec![
        found([" https://x.y.", "https://x.y.", "https://x.y."]),
        found([" u", "u", "u"]),
        found([" ...", "...", "..."]),
    ];
    let links = collect_links(&inline, &bare);
    assert_eq!(links.len(), 2);
    assert_eq!((links[0].text.as_str(), links[0].url.as_str()), ("a", "u"));
    assert_eq!(links[1].text, "https://x.y");
}

#[test]
fn headings_go_forward_in_the_rendering() {
    let headings = extract_headings("# A\n# B\n# A\n");
    let mapped = map_headings_to_vt_rows(&headings, "B\r\nA\r\nx\r\nA");
    // `B` stands before the row of the first `A` and is not found behind it.
    assert!(mapped[0].line < mapped[2].line);
    assert_eq!(mapped[0].line, 2);
    assert_eq!(mapped[2].line, 4);
}

#[test]
fn structural_lines_stay_and_code_is_verbatim() {
    assert_eq!(join_paragraphs("a\n<b>\nc\n"), "a\n<b>\nc\n");
    assert_eq!(join_paragraphs("~~~\na\nb\n~~~\n"), "~~~\na\nb\n~~~\n");
    assert_eq!(join_paragraphs("a\n\nb"), "a\n\nb\n");
    assert_eq!(join_paragraphs(""), "");
}

#[test]
fn heading_levels_end_at_six() {
    let headings = extract_headings("####### Seven\n  ## Two\n##\n");
    assert_eq!(headings.len(), 2);
    assert_eq!((headings[0].level, headings[0].line), (6, 1));
    assert_eq!((headings[1].text.as_str(), headings[1].level), ("Two", 2));
}

#[test]
fn code_blocks_need_a_closing_fence_of_the_same_length() {
    let blocks = extract_code_blocks("````\n```\ncode\n````\n");
    assert_eq!(blocks.len(), 1);
    assert_eq!(blocks[0].content, "```\ncode");
}

#[test]
fn search_without_query_or_matches() {
    let mut search = SearchState::new();
    search.find_matches("anything");
    assert!(search.match_rows.is_empty());
    assert_eq!(search.next_match(), None);
    assert_eq!(search.prev_match(), None);
    assert_eq!(search.first_match_from(1), None);
    assert!(!search.is_match_row(1));
    search.query = "ANY".to_string();
    search.find_matches("anything");
    assert!(search.match_rows.is_empty());
    search.query = "\u{c4}".to_string();
    search.find_matches("\u{e4}\r\n\u{c4}");
    assert_eq!(search.match_rows, vec![2]);
    search.query = "\u{e4}".to_string();
    search.find_matches("\u{e4}\r\n\u{c4}");
    assert_eq!(search.match_rows, vec![1, 2]);
    assert!(search.is_current_row(1));
    assert!(!search.is_current_row(2));
}

#[test]
fn sections_end_at_the_next_heading() {
    assert_eq!(
        extract_section_text("## A\n\n one \n\n## B\ntwo", "A"),
        Some("one".to_string())
    );
    assert_eq!(extract_section_text("## A\n\n\n## B\n", "A"), None);
}
