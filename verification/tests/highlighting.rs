use reed::ansi::strip_ansi_codes;
use reed::code_blocks::extract_code_blocks;
use reed::highlight::{
    extract_fence_lang, fenced_blocks, find_syntax, highlight_code, highlight_code_blocks,
    is_closing_fence, is_editor_preferred, is_markdown_path, join_colored, lang_for_path,
    replace_blocks, syntect_theme_name, wrap_in_code_fence, SyntaxSource, EDITOR_PREFERRED_EXTS,
};
use reed::theme::Color;

#[test]
fn highlight_rust_block() {
    let md = "# Title\n\n```rust\nfn main() {\n    println!(\"hello\");\n}\n```\n";
    let dark_bg = Color::Rgb {
        r: 30,
        g: 30,
        b: 30,
    };
    let result = highlight_code_blocks(md, dark_bg);

    // Fences should be preserved.
    assert!(result.contains("```rust"));
    assert!(result.lines().filter(|l| l.trim() == "```").count() >= 1);

    // ANSI escapes should be present (syntect output).
    assert!(result.contains("\x1b["));

    // Original un-highlighted text should NOT be present inside the fence.
    // (The line `fn main() {` should now have ANSI codes around it.)
    // We check that the raw `fn main()` without ANSI prefix is gone.
    let code_section: String = result
        .lines()
        .skip_while(|l| !l.contains("```rust"))
        .skip(1) // skip the fence line
        .take_while(|l| !l.trim().starts_with("```"))
        .collect::<Vec<_>>()
        .join("\n");
    assert!(
        code_section.contains("\x1b["),
        "code section should contain ANSI escapes"
    );
}

#[test]
fn skip_mermaid_blocks() {
    let md = "```mermaid\ngraph TD\n    A --> B\n```\n";
    let result = highlight_code_blocks(md, Color::Reset);
    // Mermaid blocks should be untouched.
    assert_eq!(result, md);
}

#[test]
fn pass_through_bare_fence() {
    let md = "```\nplain code\n```\n";
    let result = highlight_code_blocks(md, Color::Reset);
    // No language tag — should be unchanged.
    assert_eq!(result, md);
}

#[test]
fn unknown_language_unchanged() {
    // "xyzlang" is not recognized by syntect.
    let md = "```xyzlang\nsome code\n```\n";
    let result = highlight_code_blocks(md, Color::Reset);
    assert_eq!(result, md);
}

#[test]
fn unclosed_fence_unchanged() {
    let md = "```rust\nfn main() {}\n";
    let result = highlight_code_blocks(md, Color::Reset);
    assert_eq!(result, md);
}

#[test]
fn multiple_blocks_highlighted() {
    let md = "\
```rust
fn foo() {}
```

```python
def bar():
pass
```
";
    let result = highlight_code_blocks(md, Color::Reset);
    // Both blocks should have ANSI escapes.
    let blocks: Vec<&str> = result.split("```").collect();
    // blocks: ["", "rust\n...\n", "\n\n", "python\n...\n", "\n"]
    assert!(blocks.len() >= 4, "should have content between fences");
    assert!(
        blocks[1].contains("\x1b["),
        "rust block should be highlighted"
    );
    assert!(
        blocks[3].contains("\x1b["),
        "python block should be highlighted"
    );
}

#[test]
fn light_theme_uses_different_palette() {
    let code = "fn main() {}";
    let dark = highlight_code(code, "rust", Color::Rgb { r: 0, g: 0, b: 0 });
    let light = highlight_code(
        code,
        "rust",
        Color::Rgb {
            r: 255,
            g: 255,
            b: 255,
        },
    );
    assert!(dark.is_some());
    assert!(light.is_some());
    // Different palettes should produce different ANSI output.
    assert_ne!(dark.unwrap(), light.unwrap());
}

#[test]
fn preserves_line_count() {
    let md = "line1\n```rust\nfn a() {}\nfn b() {}\n```\nline6\n";
    let result = highlight_code_blocks(md, Color::Reset);
    assert_eq!(
        md.lines().count(),
        result.lines().count(),
        "line count should be preserved"
    );
}

#[test]
fn highlight_tilde_fences_supported() {
    let md = "~~~rust\nlet x = 42;\n~~~\n";
    let result = highlight_code_blocks(md, Color::Reset);
    assert!(
        result.contains("\x1b["),
        "tilde fences should be highlighted"
    );
    assert!(result.contains("~~~rust"));
}

#[test]
fn extract_fence_lang_cases() {
    assert_eq!(extract_fence_lang("```rust"), Some("rust".to_string()));
    assert_eq!(extract_fence_lang("```Python"), Some("python".to_string()));
    assert_eq!(extract_fence_lang("~~~js"), Some("js".to_string()));
    assert_eq!(extract_fence_lang("```"), None);
    assert_eq!(extract_fence_lang("~~~"), None);
    assert_eq!(extract_fence_lang("not a fence"), None);
}

#[test]
fn is_markdown_path_cases() {
    assert!(is_markdown_path("README.md"));
    assert!(is_markdown_path("notes.markdown"));
    assert!(is_markdown_path("doc.MDX"));
    assert!(!is_markdown_path("main.rs"));
    assert!(!is_markdown_path("script.py"));
    assert!(!is_markdown_path("noext"));
}

#[test]
fn lang_for_path_known_extensions() {
    assert_eq!(lang_for_path("main.rs"), Some("rs".to_string()));
    assert_eq!(lang_for_path("app.py"), Some("py".to_string()));
    assert_eq!(lang_for_path("index.js"), Some("js".to_string()));
}

#[test]
fn lang_for_path_config_and_data_extensions() {
    // Config / data file formats — check which syntect recognizes.
    let toml = lang_for_path("config.toml");
    let yaml = lang_for_path("data.yaml");
    let yml = lang_for_path("data.yml");
    let json = lang_for_path("data.json");
    let xml = lang_for_path("page.xml");
    let svg = lang_for_path("icon.svg");
    // At least yaml, json, xml should be recognized by syntect defaults.
    assert!(yaml.is_some(), "yaml not recognized: {yaml:?}");
    assert!(yml.is_some(), "yml not recognized: {yml:?}");
    assert!(json.is_some(), "json not recognized: {json:?}");
    assert!(xml.is_some(), "xml not recognized: {xml:?}");
    // toml and svg may not be in syntect's default set.
    // Our editor-preferred list handles them regardless.
    let _ = (toml, svg);
}

#[test]
fn is_editor_preferred_catches_all_targets() {
    // Extensions that syntect may not recognize but should still open in editor.
    assert!(is_editor_preferred("config.toml"));
    assert!(is_editor_preferred("icon.svg"));
    assert!(is_editor_preferred("settings.ini"));
    assert!(is_editor_preferred("data.csv"));
    assert!(is_editor_preferred("app.env"));
    // Extensions syntect does recognize — should also be editor-preferred.
    assert!(is_editor_preferred("data.yaml"));
    assert!(is_editor_preferred("data.json"));
    assert!(is_editor_preferred("page.xml"));
    assert!(is_editor_preferred("main.rs"));
    assert!(is_editor_preferred("app.py"));
    // Markdown should NOT be editor-preferred (uses built-in viewer).
    // is_editor_preferred doesn't check markdown; that's the caller's job.
    // But markdown has no syntect code_lang, so it would return false
    // unless .md is in a syntax set. Let's just verify the caller logic
    // is correct by checking that .md is not in EDITOR_PREFERRED_EXTS.
    assert!(!EDITOR_PREFERRED_EXTS.iter().any(|e| *e == "md"));
    // No extension → false.
    assert!(!is_editor_preferred("Makefile"));
}

#[test]
fn lang_for_path_zig_extensions() {
    assert_eq!(
        lang_for_path("build.zig"),
        Some("zig".to_string())
    );
    assert_eq!(
        lang_for_path("build.zig.zon"),
        Some("zon".to_string())
    );
}

#[test]
fn lang_for_path_unknown_extension() {
    // .xyzlang should not be recognized by syntect.
    assert_eq!(lang_for_path("file.xyzlang"), None);
    // No extension at all.
    assert_eq!(lang_for_path("Makefile"), None);
}

#[test]
fn wrap_in_code_fence_basic() {
    let src = "fn main() {}\n";
    let wrapped = wrap_in_code_fence(src, "rs");
    assert_eq!(wrapped, "```rs\nfn main() {}\n```\n");
}

#[test]
fn wrap_in_code_fence_no_trailing_newline() {
    let src = "hello";
    let wrapped = wrap_in_code_fence(src, "txt");
    assert_eq!(wrapped, "```txt\nhello\n```\n");
}

#[test]
fn wrap_in_code_fence_bare() {
    let src = "some content\n";
    let wrapped = wrap_in_code_fence(src, "");
    assert_eq!(wrapped, "```\nsome content\n```\n");
}

#[test]
fn highlight_zig_code() {
    let src = "const std = @import(\"std\");\n\npub fn main() !void {\n    std.debug.print(\"hello\\n\", .{});\n}\n";
    let dark_bg = Color::Rgb {
        r: 30,
        g: 30,
        b: 30,
    };
    let result = highlight_code(src, "zig", dark_bg);
    assert!(result.is_some(), "Zig should be recognized");
    let highlighted = result.unwrap();
    assert!(
        highlighted.contains("\x1b["),
        "output should contain ANSI escapes"
    );
}

#[test]
fn highlight_zig_fenced_block() {
    let md = "# Zig Example\n\n```zig\nconst x: u32 = 42;\n```\n";
    let dark_bg = Color::Rgb {
        r: 30,
        g: 30,
        b: 30,
    };
    let result = highlight_code_blocks(md, dark_bg);
    assert!(result.contains("```zig"), "fence should be preserved");
    // Code content should have ANSI escapes.
    let code_section: String = result
        .lines()
        .skip_while(|l| !l.contains("```zig"))
        .skip(1)
        .take_while(|l| !l.trim().starts_with("```"))
        .collect::<Vec<_>>()
        .join("\n");
    assert!(
        code_section.contains("\x1b["),
        "zig code block should be highlighted"
    );
}

#[test]
fn highlight_zon_code() {
    let src = ".{\n    .name = \"my-project\",\n    .version = \"0.1.0\",\n}\n";
    let result = highlight_code(src, "zon", Color::Reset);
    assert!(result.is_some(), "zon should be recognized via Zig syntax");
}

#[test]
fn find_syntax_resolves_zig() {
    let result = find_syntax("zig");
    assert!(result.is_some(), "zig should resolve in custom syntax set");
}

#[test]
fn find_syntax_resolves_typescript() {
    // Token name (lowercased from fence tag)
    assert!(
        find_syntax("typescript").is_some(),
        "typescript should resolve by name"
    );
    // File extension
    assert!(
        find_syntax("ts").is_some(),
        "ts should resolve by extension"
    );
}

#[test]
fn find_syntax_resolves_tsx() {
    assert!(
        find_syntax("tsx").is_some(),
        "tsx should resolve by name/ext"
    );
}

#[test]
fn highlight_typescript_code() {
    let src = "interface User {\n  name: string;\n  age: number;\n}\n\nfunction greet(user: User): string {\n  return `Hello, ${user.name}`;\n}\n";
    let dark_bg = Color::Rgb {
        r: 30,
        g: 30,
        b: 30,
    };
    let result = highlight_code(src, "typescript", dark_bg);
    assert!(result.is_some(), "TypeScript should be recognized");
    let highlighted = result.unwrap();
    assert!(
        highlighted.contains("\x1b["),
        "output should contain ANSI escapes"
    );
}

#[test]
fn highlight_typescript_fenced_block() {
    let md = "# Example\n\n```typescript\nconst x: number = 42;\n```\n";
    let dark_bg = Color::Rgb {
        r: 30,
        g: 30,
        b: 30,
    };
    let result = highlight_code_blocks(md, dark_bg);
    assert!(
        result.contains("```typescript"),
        "fence should be preserved"
    );
    let code_section: String = result
        .lines()
        .skip_while(|l| !l.contains("```typescript"))
        .skip(1)
        .take_while(|l| !l.trim().starts_with("```"))
        .collect::<Vec<_>>()
        .join("\n");
    assert!(
        code_section.contains("\x1b["),
        "typescript code block should be highlighted"
    );
}

#[test]
fn highlight_ts_fenced_block() {
    let md = "```ts\nconst x: number = 42;\n```\n";
    let result = highlight_code_blocks(
        md,
        Color::Rgb {
            r: 30,
            g: 30,
            b: 30,
        },
    );
    let code_section: String = result
        .lines()
        .skip_while(|l| !l.contains("```ts"))
        .skip(1)
        .take_while(|l| !l.trim().starts_with("```"))
        .collect::<Vec<_>>()
        .join("\n");
    assert!(
        code_section.contains("\x1b["),
        "ts fence tag should trigger highlighting"
    );
}

#[test]
fn highlight_tsx_code() {
    let src = "interface Props {\n  name: string;\n}\n\nfunction App({ name }: Props) {\n  return <div className=\"app\">{name}</div>;\n}\n";
    let dark_bg = Color::Rgb {
        r: 30,
        g: 30,
        b: 30,
    };
    let result = highlight_code(src, "tsx", dark_bg);
    assert!(result.is_some(), "TSX should be recognized");
    let highlighted = result.unwrap();
    assert!(
        highlighted.contains("\x1b["),
        "output should contain ANSI escapes"
    );
}

#[test]
fn highlight_tsx_fenced_block() {
    let md = "```tsx\nconst el = <div>hello</div>;\n```\n";
    let result = highlight_code_blocks(
        md,
        Color::Rgb {
            r: 30,
            g: 30,
            b: 30,
        },
    );
    let code_section: String = result
        .lines()
        .skip_while(|l| !l.contains("```tsx"))
        .skip(1)
        .take_while(|l| !l.trim().starts_with("```"))
        .collect::<Vec<_>>()
        .join("\n");
    assert!(
        code_section.contains("\x1b["),
        "tsx code block should be highlighted"
    );
}

#[test]
fn find_syntax_resolves_elixir() {
    assert!(
        find_syntax("elixir").is_some(),
        "elixir should resolve by name"
    );
    assert!(
        find_syntax("ex").is_some(),
        "ex should resolve by extension"
    );
    assert!(
        find_syntax("exs").is_some(),
        "exs should resolve by extension"
    );
}

#[test]
fn highlight_elixir_code() {
    let src = "defmodule Greeter do\n  @moduledoc \"A simple greeter.\"\n\n  def hello(name) do\n    \"Hello, #{name}!\"\n  end\nend\n";
    let dark_bg = Color::Rgb {
        r: 30,
        g: 30,
        b: 30,
    };
    let result = highlight_code(src, "elixir", dark_bg);
    assert!(result.is_some(), "Elixir should be recognized");
    let highlighted = result.unwrap();
    assert!(
        highlighted.contains("\x1b["),
        "output should contain ANSI escapes"
    );
}

#[test]
fn highlight_elixir_fenced_block() {
    let md = "# Example\n\n```elixir\ndefmodule Math do\n  def add(a, b), do: a + b\nend\n```\n";
    let dark_bg = Color::Rgb {
        r: 30,
        g: 30,
        b: 30,
    };
    let result = highlight_code_blocks(md, dark_bg);
    assert!(result.contains("```elixir"), "fence should be preserved");
    let code_section: String = result
        .lines()
        .skip_while(|l| !l.contains("```elixir"))
        .skip(1)
        .take_while(|l| !l.trim().starts_with("```"))
        .collect::<Vec<_>>()
        .join("\n");
    assert!(
        code_section.contains("\x1b["),
        "elixir code block should be highlighted"
    );
}

#[test]
fn lang_for_path_elixir_extensions() {
    assert_eq!(lang_for_path("app.ex"), Some("ex".to_string()));
    assert_eq!(
        lang_for_path("test_helper.exs"),
        Some("exs".to_string())
    );
}

#[test]
fn lang_for_path_typescript_extensions() {
    assert_eq!(lang_for_path("app.ts"), Some("ts".to_string()));
    assert_eq!(lang_for_path("app.tsx"), Some("tsx".to_string()));
    assert_eq!(lang_for_path("app.mts"), Some("mts".to_string()));
}

const DARK: Color = Color::Rgb { r: 0, g: 0, b: 0 };

#[test]
fn palette_follows_the_background() {
    assert_eq!(syntect_theme_name(DARK), "base16-ocean.dark");
    assert_eq!(syntect_theme_name(Color::Reset), "base16-ocean.dark");
    assert_eq!(
        syntect_theme_name(Color::Rgb {
            r: 255,
            g: 255,
            b: 255
        }),
        "InspiredGitHub"
    );
}

#[test]
fn languages_come_from_two_places() {
    assert_eq!(find_syntax("rust"), Some(SyntaxSource::Default));
    assert_eq!(find_syntax("rs"), Some(SyntaxSource::Default));
    assert_eq!(find_syntax("zon"), Some(SyntaxSource::Bundled));
    assert_eq!(find_syntax("xyzlang"), None);
}

#[test]
fn highlighting_changes_colors_alone() {
    for (source, lang) in [
        ("fn main() {\n    let s = \"a\";\n}\n", "rust"),
        ("const x: u32 = 42; // a\n\nx", "zig"),
        ("let a: number = `b${c}`;", "ts"),
        ("", "rust"),
        ("\n\n", "rust"),
    ] {
        let text = highlight_code(source, lang, DARK).unwrap();
        assert_eq!(strip_ansi_codes(&text), source);
        assert_eq!(text.ends_with('\n'), source.ends_with('\n'));
    }
    assert!(highlight_code("x", "xyzlang", DARK).is_none());
}

#[test]
fn highlighted_document_shows_the_same_text() {
    let md = "# T\n\n```rust\nfn a() {}\n\nfn b() {}\n```\n~~~xyz\nq\n~~~\n```\nplain\n```\nend";
    let result = highlight_code_blocks(md, DARK);
    assert_ne!(result, md);
    assert_eq!(strip_ansi_codes(&result), md);
    assert_eq!(result.lines().count(), md.lines().count());
}

#[test]
fn empty_lines_at_the_end_of_code_are_kept() {
    for md in [
        "```rust\nfn a() {}\n\n```\n",
        "```rust\nfn a() {}\n\n\n```\nend",
        "```rust\n\n```\n",
        "```rust\n\n\nfn a() {}\n```",
        "```rust\n```\n",
    ] {
        let result = highlight_code_blocks(md, DARK);
        assert_eq!(result.lines().count(), md.lines().count());
        assert_eq!(strip_ansi_codes(&result), md);
    }
}

#[test]
fn lines_outside_of_code_stay_where_they_are() {
    let md = "# T\n\n```rust\nfn a() {}\n\n```\ntext\n~~~xyz\nq\n~~~\n```rust\nopen\n";
    let result = highlight_code_blocks(md, DARK);
    let before: Vec<&str> = md.lines().collect();
    let after: Vec<&str> = result.lines().collect();
    assert_eq!(after.len(), before.len());
    assert!(result.ends_with('\n'));
    for i in [0, 1, 2, 5, 6, 7, 8, 9, 10, 11] {
        assert_eq!(after[i], before[i]);
    }
    assert_ne!(after[3], before[3]);
}

#[test]
fn blocks_are_found_and_replaced_in_order() {
    let md = "a\n```Rust\none\ntwo\n```\n```mermaid\ngraph\n```\n~~~go\n~~~\n```js\nopen\n";
    let blocks = fenced_blocks(md);
    assert_eq!(blocks.len(), 2);
    assert_eq!(blocks[0].lang, "rust");
    assert_eq!(blocks[0].code, ["one", "two"]);
    assert_eq!((blocks[0].open, blocks[0].close), (1, 4));
    assert_eq!((blocks[1].open, blocks[1].close), (8, 9));
    assert!(blocks[1].code.is_empty());
    let replaced = replace_blocks(md, &vec![Some(vec!["1".to_string(), "2".to_string()]), None]);
    assert_eq!(
        replaced,
        "a\n```Rust\n1\n2\n```\n```mermaid\ngraph\n```\n~~~go\n~~~\n```js\nopen\n"
    );
}

#[test]
fn colored_lines_are_joined_as_the_source_ends() {
    let lines = Some(vec!["a".to_string(), "b".to_string()]);
    assert_eq!(join_colored("x\ny", &lines), Some("a\nb".to_string()));
    assert_eq!(join_colored("x\ny\n", &lines), Some("a\nb\n".to_string()));
    assert_eq!(join_colored("x", &None), None);
}

#[test]
fn closing_fences_have_nothing_behind_them() {
    assert!(is_closing_fence("```", '`'));
    assert!(is_closing_fence("`````  ", '`'));
    assert!(!is_closing_fence("``", '`'));
    assert!(!is_closing_fence("``` rust", '`'));
    assert!(!is_closing_fence("~~~", '`'));
}

#[test]
fn extensions_in_capitals_are_known() {
    assert_eq!(lang_for_path("MAIN.RS"), Some("rs".to_string()));
    assert!(is_editor_preferred("A.JSONC"));
    assert_eq!(lang_for_path(".rs"), None);
}

#[test]
fn wrapped_source_comes_back() {
    for (source, lang) in [
        ("fn main() {}\n", "rs"),
        ("no end", ""),
        ("", "txt"),
        ("\n\n", "a b"),
        ("~~~\nx\n``\n  ```x\n", "md"),
    ] {
        let blocks = extract_code_blocks(&wrap_in_code_fence(source, lang));
        assert_eq!(blocks.len(), 1);
        assert_eq!(blocks[0].lang, lang);
        assert_eq!(blocks[0].content, source.strip_suffix('\n').unwrap_or(source));
    }
}

#[test]
fn highlighting_sets_no_background() {
    let bg = Color::Rgb { r: 30, g: 30, b: 30 };
    for (source, lang) in [("fn main() { let x = 1; }\n", "rs"), ("const x = 1;\n", "zig")] {
        let text = highlight_code(source, lang, bg).unwrap();
        assert!(text.contains("\x1b[38;2;"));
        assert!(!text.contains("\x1b[48;"));
        assert_eq!(strip_ansi_codes(&text), source);
    }
}
