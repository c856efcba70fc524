use reed::brightness::{is_dark_bg, is_light_bg};
use reed::mermaid::{
    backend_at, color_to_hex, extract_mermaid_blocks, mermaid_theme_for, mmdc_available,
    mmdz_theme_for, next_probe, render_next, render_to_png, simple_hash, MermaidBackend,
    RenderEvent,
};
use reed::theme::Color;

#[test]
fn extract_single_mermaid_block() {
    let md = "# Title\n\n```mermaid\ngraph TD\n    A --> B\n```\n\nMore text.\n";
    let blocks = extract_mermaid_blocks(md);
    assert_eq!(blocks.len(), 1);
    assert_eq!(blocks[0].source, "graph TD\n    A --> B");
    assert_eq!(blocks[0].fence_start_line, 2);
    assert_eq!(blocks[0].fence_end_line, 5);
}

#[test]
fn extract_multiple_mermaid_blocks() {
    let md = "```mermaid\ngraph LR\n    A --> B\n```\n\ntext\n\n```mermaid\nsequenceDiagram\n    A->>B: Hello\n```\n";
    let blocks = extract_mermaid_blocks(md);
    assert_eq!(blocks.len(), 2);
    assert_eq!(blocks[0].fence_start_line, 0);
    assert_eq!(blocks[1].fence_start_line, 7);
}

#[test]
fn skip_non_mermaid_code_blocks() {
    let md = "```rust\nfn main() {}\n```\n\n```mermaid\ngraph TD\n    A --> B\n```\n";
    let blocks = extract_mermaid_blocks(md);
    assert_eq!(blocks.len(), 1);
    assert_eq!(blocks[0].source, "graph TD\n    A --> B");
}

#[test]
fn mermaid_tilde_fences_supported() {
    let md = "~~~mermaid\nflowchart LR\n    X --> Y\n~~~\n";
    let blocks = extract_mermaid_blocks(md);
    assert_eq!(blocks.len(), 1);
    assert_eq!(blocks[0].source, "flowchart LR\n    X --> Y");
}

#[test]
fn unclosed_mermaid_block_ignored() {
    let md = "```mermaid\ngraph TD\n    A --> B\n";
    let blocks = extract_mermaid_blocks(md);
    // No closing fence → block is not captured.
    assert_eq!(blocks.len(), 0);
}

#[test]
fn dark_theme_detection() {
    assert_eq!(mermaid_theme_for(Color::Rgb { r: 0, g: 0, b: 0 }), "dark");
    assert_eq!(
        mermaid_theme_for(Color::Rgb {
            r: 30,
            g: 30,
            b: 30
        }),
        "dark"
    );
    assert_eq!(mermaid_theme_for(Color::Reset), "dark");
}

#[test]
fn light_theme_detection() {
    assert_eq!(
        mermaid_theme_for(Color::Rgb {
            r: 255,
            g: 255,
            b: 255
        }),
        "default"
    );
    assert_eq!(
        mermaid_theme_for(Color::Rgb {
            r: 253,
            g: 246,
            b: 227
        }),
        "default"
    );
}

#[test]
fn simple_hash_deterministic() {
    let h1 = simple_hash("graph TD\n    A --> B");
    let h2 = simple_hash("graph TD\n    A --> B");
    assert_eq!(h1, h2);
}

#[test]
fn simple_hash_different_inputs() {
    let h1 = simple_hash("graph TD");
    let h2 = simple_hash("graph LR");
    assert_ne!(h1, h2);
}

#[test]
fn color_to_hex_rgb() {
    assert_eq!(
        color_to_hex(Color::Rgb {
            r: 30,
            g: 30,
            b: 46
        }),
        "#1e1e2e"
    );
    assert_eq!(
        color_to_hex(Color::Rgb {
            r: 255,
            g: 255,
            b: 255
        }),
        "#ffffff"
    );
}

#[test]
fn color_to_hex_reset() {
    assert_eq!(color_to_hex(Color::Reset), "transparent");
}

#[test]
fn mmdz_theme_dark_bg() {
    assert_eq!(mmdz_theme_for(Color::Rgb { r: 0, g: 0, b: 0 }), "default");
    assert_eq!(
        mmdz_theme_for(Color::Rgb {
            r: 30,
            g: 30,
            b: 30
        }),
        "default"
    );
    assert_eq!(mmdz_theme_for(Color::Reset), "default");
}

#[test]
fn mmdz_theme_light_bg() {
    assert_eq!(
        mmdz_theme_for(Color::Rgb {
            r: 255,
            g: 255,
            b: 255
        }),
        "default-light"
    );
}

#[test]
fn is_dark_bg_consistent_with_themes() {
    // Dark backgrounds: is_dark_bg=true → mmdc "dark", mmdz "default"
    let dark = Color::Rgb { r: 0, g: 0, b: 0 };
    assert!(is_dark_bg(dark));
    assert_eq!(mermaid_theme_for(dark), "dark");
    assert_eq!(mmdz_theme_for(dark), "default");

    // Light backgrounds: is_dark_bg=false → mmdc "default", mmdz "default-light"
    let light = Color::Rgb {
        r: 255,
        g: 255,
        b: 255,
    };
    assert!(!is_dark_bg(light));
    assert_eq!(mermaid_theme_for(light), "default");
    assert_eq!(mmdz_theme_for(light), "default-light");
}

fn rgb(r: u8, g: u8, b: u8) -> Color {
    Color::Rgb { r, g, b }
}

#[test]
fn no_plan_without_a_renderer() {
    assert!(!mmdc_available(&None));
    assert!(render_to_png(&None, "graph TD", Color::Reset, "/tmp").is_none());
}

#[test]
fn plans_name_program_files_and_theme() {
    let mmdc = Some(MermaidBackend::Mmdc("/usr/bin/mmdc".to_string()));
    assert!(mmdc_available(&mmdc));
    let plan = render_to_png(&mmdc, "graph TD", rgb(30, 30, 46), "/tmp").unwrap();
    let hash = simple_hash("graph TD#1e1e2e");
    assert_eq!(plan.program, "/usr/bin/mmdc");
    assert_eq!(plan.dir, "/tmp/reed-mermaid");
    assert_eq!(plan.input, format!("/tmp/reed-mermaid/{hash}.mmd"));
    assert_eq!(plan.output, format!("/tmp/reed-mermaid/{hash}.png"));
    let args: Vec<&str> = plan.args.iter().map(|a| a.as_str()).collect();
    assert_eq!(
        args,
        vec![
            "-i", &plan.input, "-o", &plan.output, "-t", "dark", "-b", "#1e1e2e", "--scale", "2",
            "-q"
        ]
    );
    let mmdz = Some(MermaidBackend::Mmdz("mmdz".to_string()));
    let plan = render_to_png(&mmdz, "graph TD", rgb(255, 255, 255), "/tmp/").unwrap();
    let args: Vec<&str> = plan.args.iter().map(|a| a.as_str()).collect();
    assert_eq!(
        args,
        vec!["render", &plan.input, "-o", &plan.output, "-t", "default-light"]
    );
}

#[test]
fn renderers_are_looked_for_in_order() {
    let mut found = Vec::new();
    for failed in 0..4 {
        if let Some(probe) = next_probe(failed) {
            found.push(format!("{:?}", backend_at(probe, "p".to_string())));
        }
    }
    assert_eq!(found, vec!["Mmdz(\"p\")", "Mmdz(\"p\")", "Mmdc(\"p\")"]);
    assert!(next_probe(3).is_none());
}

#[test]
fn rendering_removes_its_files() {
    let names = |event: RenderEvent| {
        render_next(event)
            .iter()
            .map(|a| format!("{a:?}"))
            .collect::<Vec<String>>()
            .join(" ")
    };
    assert_eq!(names(RenderEvent::Start), "MakeDir");
    assert_eq!(names(RenderEvent::DirMade(true)), "WriteInput");
    assert_eq!(names(RenderEvent::DirMade(false)), "Finish(None)");
    assert_eq!(names(RenderEvent::InputWritten(true)), "Run");
    assert_eq!(names(RenderEvent::InputWritten(false)), "Finish(None)");
    assert_eq!(names(RenderEvent::Ran(Some(true))), "RemoveInput ReadOutput");
    assert_eq!(
        names(RenderEvent::Ran(Some(false))),
        "RemoveInput RemoveOutput Finish(None)"
    );
    assert_eq!(names(RenderEvent::Ran(None)), "RemoveInput Finish(None)");
    assert_eq!(
        names(RenderEvent::OutputRead(Some(vec![1]))),
        "RemoveOutput Finish(Some([1]))"
    );
}

#[test]
fn hash_is_the_known_one() {
    assert_eq!(simple_hash(""), 5381);
    assert_eq!(simple_hash("a"), 5381 * 33 + 97);
}

#[test]
fn brightness_divides_dark_from_light() {
    assert!(is_dark_bg(rgb(127, 127, 127)));
    assert!(is_light_bg(rgb(129, 129, 129)));
    assert!(is_dark_bg(Color::Reset));
    assert!(!is_light_bg(Color::Reset));
}

#[test]
fn brightness_agrees_with_double_precision() {
    for r in (0u8..=255).step_by(5) {
        for g in (0u8..=255).step_by(5) {
            for b in (0u8..=255).step_by(5) {
                let luminance =
                    0.299 * f64::from(r) + 0.587 * f64::from(g) + 0.114 * f64::from(b);
                assert_eq!(is_dark_bg(rgb(r, g, b)), luminance < 128.0);
                assert_eq!(is_light_bg(rgb(r, g, b)), luminance > 128.0);
            }
        }
    }
}

#[test]
fn diagram_source_is_all_between_the_fences() {
    let blocks = extract_mermaid_blocks("```mermaid\n\ngraph TD\n```\n");
    assert_eq!(blocks.len(), 1);
    assert_eq!(blocks[0].source, "\ngraph TD");
    let blocks = extract_mermaid_blocks("~~~mermaid\n\n\n~~~\n");
    assert_eq!(blocks[0].source, "\n");
    assert_eq!((blocks[0].fence_start_line, blocks[0].fence_end_line), (0, 3));
}
