//! Mermaid diagrams: where they stand in a document, and how they are rendered.
//!
//! A diagram is rendered to an image by one of two programs, `mmdz` or `mmdc`. Where neither is
//! installed, the document keeps the diagram's source.

use vstd::prelude::*;
use vstd::utf8::encode_utf8;

use crate::brightness::{dark, is_dark_bg};
use crate::paths::{join, joined};
use crate::text::{
    begins, blank, chars_of, cut, decimal, is_blank, join_lines, joined_lines, law_trimmed_start,
    lines_of, push_number, push_str, split_lines, starts_with, string_of, texts, trim_start,
    trimmed_start, views, white_space,
};
use crate::theme::{hex_color, law_hex_colors, Color};

verus! {

/// A mermaid code block extracted from markdown.
#[derive(Debug, Clone)]
pub struct MermaidBlock {
    /// The mermaid diagram source (content between the fences).
    pub source: String,
    /// The line index of the opening fence in the original markdown.
    pub fence_start_line: usize,
    /// The line index of the closing fence in the original markdown.
    pub fence_end_line: usize,
}

/// What a [`MermaidBlock`] stands for.
pub struct DiagramView {
    pub source: Seq<char>,
    pub start: int,
    pub end: int,
}

impl View for MermaidBlock {
    type V = DiagramView;

    open spec fn view(&self) -> DiagramView {
        DiagramView {
            source: self.source@,
            start: self.fence_start_line as int,
            end: self.fence_end_line as int,
        }
    }
}

/// What a list of blocks stands for.
pub open spec fn diagram_views(blocks: Seq<MermaidBlock>) -> Seq<DiagramView> {
    blocks.map_values(|b: MermaidBlock| b@)
}

// ---------------------------------------------------------------- extraction

/// Whether a line opens a diagram with the given fence: white space, the fence, `mermaid`, and
/// behind it nothing or a space.
pub open spec fn opens_with(line: Seq<char>, opening: Seq<char>) -> bool {
    let t = trimmed_start(line);
    begins(t, opening) && (t.len() == opening.len() || t[opening.len() as int] == ' ')
}

/// The fence by which a line opens a diagram.
pub open spec fn opening_fence(line: Seq<char>) -> Option<Seq<char>> {
    if opens_with(line, "```mermaid"@) {
        Some("```"@)
    } else if opens_with(line, "~~~mermaid"@) {
        Some("~~~"@)
    } else {
        None
    }
}

/// Whether a line closes a diagram: white space, the fence, and white space.
pub open spec fn closes_diagram(line: Seq<char>, fence: Seq<char>) -> bool {
    let t = trimmed_start(line);
    begins(t, fence) && blank(t.skip(fence.len() as int))
}

/// The first line at or after `from` that closes a diagram; the number of lines if none does.
pub open spec fn closing_line(lines: Seq<Seq<char>>, from: int, fence: Seq<char>) -> int
    decreases lines.len() - from,
{
    if from >= lines.len() {
        lines.len() as int
    } else if closes_diagram(lines[from], fence) {
        from
    } else {
        closing_line(lines, from + 1, fence)
    }
}

/// The diagrams that open at line `i` or later, each with the lines between its fences as they
/// stand. One that is never closed is none.
pub open spec fn diagrams_from(lines: Seq<Seq<char>>, i: int) -> Seq<DiagramView>
    decreases lines.len() - i,
    via diagrams_from_decreases
{
    if i < 0 || i >= lines.len() {
        seq![]
    } else {
        match opening_fence(lines[i]) {
            None => diagrams_from(lines, i + 1),
            Some(fence) => {
                let close = closing_line(lines, i + 1, fence);
                if close >= lines.len() {
                    seq![]
                } else {
                    seq![
                        DiagramView {
                            source: joined_lines(lines.subrange(i + 1, close)),
                            start: i,
                            end: close,
                        },
                    ] + diagrams_from(lines, close + 1)
                }
            },
        }
    }
}

#[via_fn]
proof fn diagrams_from_decreases(lines: Seq<Seq<char>>, i: int) {
    if 0 <= i < lines.len() && opening_fence(lines[i]) is Some {
        lemma_closing_line(lines, i + 1, opening_fence(lines[i])->0);
    }
}

proof fn lemma_closing_line(lines: Seq<Seq<char>>, from: int, fence: Seq<char>)
    requires
        0 <= from <= lines.len(),
    ensures
        from <= closing_line(lines, from, fence) <= lines.len(),
    decreases lines.len() - from,
{
    if from < lines.len() && !closes_diagram(lines[from], fence) {
        lemma_closing_line(lines, from + 1, fence);
    }
}

fn opens(line: &Vec<char>, opening: &str) -> (r: bool)
    ensures
        r == opens_with(line@, opening@),
{
    let t = trim_start(line);
    let n: usize = chars_of(opening).len();
    starts_with(&t, opening) && (t.len() == n || t[n] == ' ')
}

fn fence_of(line: &Vec<char>) -> (fence: Option<&'static str>)
    ensures
        match fence {
            Some(f) => opening_fence(line@) == Some(f@),
            None => opening_fence(line@) is None,
        },
{
    if opens(line, "```mermaid") {
        Some("```")
    } else if opens(line, "~~~mermaid") {
        Some("~~~")
    } else {
        None
    }
}

fn closes(line: &Vec<char>, fence: &str) -> (r: bool)
    ensures
        r == closes_diagram(line@, fence@),
{
    let t = trim_start(line);
    let n: usize = chars_of(fence).len();
    if !starts_with(&t, fence) {
        return false;
    }
    let rest = cut(&t, n, t.len());
    assert(rest@ =~= t@.skip(n as int));
    is_blank(&rest)
}

/// Extract all mermaid code blocks from markdown source, with their content and line ranges.
pub fn extract_mermaid_blocks(markdown: &str) -> (blocks: Vec<MermaidBlock>)
    ensures
        diagram_views(blocks@) == diagrams_from(lines_of(markdown@), 0),
{
    let chars = chars_of(markdown);
    let lines = split_lines(&chars);
    let ghost all = views(lines@);
    let mut blocks: Vec<MermaidBlock> = Vec::new();
    let mut i: usize = 0;
    assert(diagram_views(blocks@) + diagrams_from(all, 0) =~= diagrams_from(all, 0));
    while i < lines.len()
        invariant
            i <= lines@.len(),
            all == views(lines@),
            all == lines_of(markdown@),
            diagram_views(blocks@) + diagrams_from(all, i as int) == diagrams_from(all, 0),
        decreases lines@.len() - i,
    {
        let ghost before = diagram_views(blocks@);
        assert(all[i as int] == lines@[i as int]@);
        match fence_of(&lines[i]) {
            None => {
                i += 1;
            },
            Some(fence) => {
                let start: usize = i;
                let mut close: usize = i + 1;
                while close < lines.len() && !closes(&lines[close], fence)
                    invariant
                        start < close <= lines@.len(),
                        all == views(lines@),
                        closing_line(all, start + 1, fence@) == closing_line(
                            all,
                            close as int,
                            fence@,
                        ),
                    decreases lines@.len() - close,
                {
                    assert(all[close as int] == lines@[close as int]@);
                    close += 1;
                }
                if close == lines.len() {
                    assert(before + diagrams_from(all, start as int) =~= before);
                    return blocks;
                }
                assert(all[close as int] == lines@[close as int]@);
                let block = MermaidBlock {
                    source: string_of(&join_lines(&lines, start + 1, close)),
                    fence_start_line: start,
                    fence_end_line: close,
                };
                let ghost view = block@;
                let ghost earlier = blocks@;
                blocks.push(block);
                i = close + 1;
                assert(diagram_views(blocks@) =~= before.push(view));
                assert(diagram_views(blocks@) + diagrams_from(all, i as int) =~= before + (
                seq![view] + diagrams_from(all, i as int)));
            },
        }
    }
    assert(diagram_views(blocks@) + diagrams_from(all, i as int) =~= diagram_views(blocks@));
    blocks
}

/// Diagrams come in the order of the document, each closes behind its opening line, and no two
/// overlap.
pub proof fn law_diagrams_in_order(lines: Seq<Seq<char>>, from: int)
    requires
        0 <= from,
    ensures
        forall|i: int|
            0 <= i < diagrams_from(lines, from).len() ==> {
                let d = #[trigger] diagrams_from(lines, from)[i];
                from <= d.start < d.end < lines.len()
            },
        forall|i: int, j: int|
            0 <= i < j < diagrams_from(lines, from).len() ==> (#[trigger] diagrams_from(
                lines,
                from,
            )[i]).end < (#[trigger] diagrams_from(lines, from)[j]).start,
    decreases lines.len() - from,
{
    let all = diagrams_from(lines, from);
    if from < lines.len() {
        match opening_fence(lines[from]) {
            None => {
                law_diagrams_in_order(lines, from + 1);
                assert(all == diagrams_from(lines, from + 1));
                assert forall|i: int| 0 <= i < all.len() implies ({
                    let d = #[trigger] all[i];
                    from <= d.start < d.end < lines.len()
                }) by {
                    let d = diagrams_from(lines, from + 1)[i];
                    assert(from + 1 <= d.start < d.end < lines.len());
                }
            },
            Some(fence) => {
                let close = closing_line(lines, from + 1, fence);
                lemma_closing_line(lines, from + 1, fence);
                if close < lines.len() {
                    law_diagrams_in_order(lines, close + 1);
                    let rest = diagrams_from(lines, close + 1);
                    assert(all.len() == rest.len() + 1);
                    assert(all[0].start == from && all[0].end == close);
                    assert forall|i: int| 0 < i < all.len() implies #[trigger] all[i] == rest[i - 1]
                        && close < all[i].start < all[i].end < lines.len() by {
                        let d = rest[i - 1];
                        assert(close + 1 <= d.start < d.end < lines.len());
                    }
                    assert forall|i: int, j: int| 0 <= i < j < all.len() implies (
                    #[trigger] all[i]).end < (#[trigger] all[j]).start by {
                        if i > 0 {
                            assert(all[i] == rest[i - 1]);
                            assert(all[j] == rest[j - 1]);
                        }
                    }
                } else {
                    assert(all.len() == 0);
                }
            },
        }
    }
}

// ---------------------------------------------------------------- themes and colors

/// Determine the `mmdc` theme to use based on background brightness: `"dark"` for dark
/// backgrounds and `"default"` (light) for light ones.
pub fn mermaid_theme_for(bg: Color) -> (name: &'static str)
    ensures
        name@ == if dark(bg) {
            "dark"@
        } else {
            "default"@
        },
{
    if is_dark_bg(bg) {
        "dark"
    } else {
        "default"
    }
}

/// Determine the `mmdz` theme to use based on background brightness: there the dark variant is
/// called `"default"` and the light one `"default-light"`.
pub fn mmdz_theme_for(bg: Color) -> (name: &'static str)
    ensures
        name@ == if dark(bg) {
            "default"@
        } else {
            "default-light"@
        },
{
    if is_dark_bg(bg) {
        "default"
    } else {
        "default-light"
    }
}

/// The small hexadecimal digit with the given value.
pub open spec fn hex_digit(d: int) -> char {
    if d < 10 {
        ('0' as int + d) as char
    } else {
        ('a' as int + d - 10) as char
    }
}

/// A byte as two hexadecimal digits.
pub open spec fn hex_byte(v: u8) -> Seq<char> {
    seq![hex_digit(v as int / 16), hex_digit(v as int % 16)]
}

/// A color as CSS text: `#rrggbb`, or `transparent` where it has none of its own.
pub open spec fn css_color(color: Color) -> Seq<char> {
    match color {
        Color::Rgb { r, g, b } => seq!['#'] + hex_byte(r) + hex_byte(g) + hex_byte(b),
        _ => "transparent"@,
    }
}

fn digit_char(d: u8) -> (c: char)
    requires
        d < 16,
    ensures
        c == hex_digit(d as int),
{
    if d < 10 {
        (48u8 + d) as char
    } else {
        (97u8 + (d - 10)) as char
    }
}

fn push_hex(out: &mut Vec<char>, v: u8)
    ensures
        final(out)@ == old(out)@ + hex_byte(v),
{
    out.push(digit_char(v / 16));
    out.push(digit_char(v % 16));
    assert(out@ =~= old(out)@ + hex_byte(v));
}

/// Convert a color to a CSS hex string: `#RRGGBB` for RGB colors, or `"transparent"` for
/// others.
pub fn color_to_hex(color: Color) -> (s: String)
    ensures
        s@ == css_color(color),
{
    match color {
        Color::Rgb { r, g, b } => {
            let mut out: Vec<char> = Vec::new();
            out.push('#');
            push_hex(&mut out, r);
            push_hex(&mut out, g);
            push_hex(&mut out, b);
            assert(out@ =~= css_color(color));
            string_of(&out)
        },
        _ => "transparent".to_owned(),
    }
}

/// Bytes folded into a number: each step multiplies by 33 and adds the byte, modulo two to the
/// power of 64.
pub open spec fn hash_of(bytes: Seq<u8>) -> nat
    decreases bytes.len(),
{
    if bytes.len() == 0 {
        5381
    } else {
        (hash_of(bytes.drop_last()) * 33 + bytes.last() as nat) % 0x1_0000_0000_0000_0000
    }
}

/// Simple hash for generating temporary file names.
pub fn simple_hash(s: &str) -> (h: u64)
    ensures
        h == hash_of(encode_utf8(s@)),
{
    let bytes = s.as_bytes();
    let mut hash: u64 = 5381;
    let mut i: usize = 0;
    assert(bytes@.take(0) =~= seq![]);
    while i < bytes.len()
        invariant
            i <= bytes@.len(),
            hash == hash_of(bytes@.take(i as int)),
        decreases bytes@.len() - i,
    {
        assert(bytes@.take(i + 1).drop_last() =~= bytes@.take(i as int));
        assert(bytes@.take(i + 1).last() == bytes@[i as int]);
        hash = ((hash as u128 * 33 + bytes[i] as u128) % 0x1_0000_0000_0000_0000) as u64;
        i += 1;
    }
    assert(bytes@.take(i as int) =~= bytes@);
    hash
}

// ---------------------------------------------------------------- rendering

/// Which mermaid renderer is available, with the path of its program.
#[derive(Debug, Clone)]
pub enum MermaidBackend {
    /// `mmdz`: native renderer.
    Mmdz(String),
    /// `mmdc`: the mermaid command line program.
    Mmdc(String),
}

/// Where a renderer is looked for.
#[derive(Debug, Clone, Copy, PartialEq, Eq, Structural)]
pub enum Probe {
    /// `bin/mmdz` in the home directory.
    HomeMmdz,
    /// `mmdz` on the search path.
    PathMmdz,
    /// `mmdc` on the search path.
    PathMmdc,
}

/// Where to look for a renderer after the first `failed` places had none.
pub fn next_probe(failed: usize) -> (probe: Option<Probe>)
    ensures
        probe == probe_after(failed as int),
        probe == if failed == 0 {
            Some(Probe::HomeMmdz)
        } else if failed == 1 {
            Some(Probe::PathMmdz)
        } else if failed == 2 {
            Some(Probe::PathMmdc)
        } else {
            None
        },
{
    if failed == 0 {
        Some(Probe::HomeMmdz)
    } else if failed == 1 {
        Some(Probe::PathMmdz)
    } else if failed == 2 {
        Some(Probe::PathMmdc)
    } else {
        None
    }
}

/// The renderer found at a place.
pub fn backend_at(probe: Probe, path: String) -> (backend: MermaidBackend)
    ensures
        backend is Mmdc <==> probe == Probe::PathMmdc,
        backend == if probe == Probe::PathMmdc {
            MermaidBackend::Mmdc(path)
        } else {
            MermaidBackend::Mmdz(path)
        },
{
    match probe {
        Probe::PathMmdc => MermaidBackend::Mmdc(path),
        _ => MermaidBackend::Mmdz(path),
    }
}

/// Check whether a renderer is available.
pub fn mmdc_available(backend: &Option<MermaidBackend>) -> (r: bool)
    ensures
        r == (backend is Some),
{
    backend.is_some()
}

/// How a diagram is rendered: the files it goes through and the program that is run.
#[derive(Debug, Clone)]
pub struct RenderPlan {
    /// The directory of the two files.
    pub dir: String,
    /// The file that the source is written to.
    pub input: String,
    /// The file that the program writes the image to.
    pub output: String,
    /// The program.
    pub program: String,
    /// The program's arguments.
    pub args: Vec<String>,
}

/// The name, without extension, of the files that a diagram goes through: a hash of its source
/// and background.
pub open spec fn file_key(source: Seq<char>, bg: Color) -> Seq<char> {
    decimal(hash_of(encode_utf8(source + css_color(bg))))
}

/// The directory for the files of diagrams.
pub open spec fn diagram_dir(tmp: Seq<char>) -> Seq<char> {
    joined(tmp, "reed-mermaid"@)
}

/// The file that a diagram's source is written to.
pub open spec fn input_file(source: Seq<char>, bg: Color, tmp: Seq<char>) -> Seq<char> {
    joined(diagram_dir(tmp), file_key(source, bg) + ".mmd"@)
}

/// The file that a diagram's image is written to.
pub open spec fn output_file(source: Seq<char>, bg: Color, tmp: Seq<char>) -> Seq<char> {
    joined(diagram_dir(tmp), file_key(source, bg) + ".png"@)
}

/// The arguments of the program that renders a diagram.
pub open spec fn render_args(
    backend: MermaidBackend,
    input: Seq<char>,
    output: Seq<char>,
    bg: Color,
) -> Seq<Seq<char>> {
    match backend {
        MermaidBackend::Mmdz(_) => seq![
            "render"@,
            input,
            "-o"@,
            output,
            "-t"@,
            if dark(bg) {
                "default"@
            } else {
                "default-light"@
            },
        ],
        MermaidBackend::Mmdc(_) => seq![
            "-i"@,
            input,
            "-o"@,
            output,
            "-t"@,
            if dark(bg) {
                "dark"@
            } else {
                "default"@
            },
            "-b"@,
            css_color(bg),
            "--scale"@,
            "2"@,
            "-q"@,
        ],
    }
}

/// The path of a renderer's program.
pub open spec fn program_of(backend: MermaidBackend) -> Seq<char> {
    match backend {
        MermaidBackend::Mmdz(path) => path@,
        MermaidBackend::Mmdc(path) => path@,
    }
}

fn named_file(dir: &Vec<char>, hash: u64, extension: &str) -> (path: String)
    ensures
        path@ == joined(dir@, decimal(hash as nat) + extension@),
{
    let mut name: Vec<char> = Vec::new();
    push_number(&mut name, hash);
    push_str(&mut name, extension);
    assert(name@ =~= decimal(hash as nat) + extension@);
    string_of(&join(dir, &name))
}

/// How a diagram is rendered; `None` where no renderer is available.
///
/// `bg_color` selects the mermaid theme (dark or light) and, for `mmdc`, is the diagram's
/// background color.
pub fn render_to_png(
    backend: &Option<MermaidBackend>,
    source: &str,
    bg_color: Color,
    tmp_dir: &str,
) -> (plan: Option<RenderPlan>)
    ensures
        plan is Some == backend is Some,
        plan matches Some(p) ==> {
            &&& p.dir@ == diagram_dir(tmp_dir@)
            &&& p.input@ == input_file(source@, bg_color, tmp_dir@)
            &&& p.output@ == output_file(source@, bg_color, tmp_dir@)
            &&& p.program@ == program_of(backend->0)
            &&& texts(p.args@) == render_args(backend->0, p.input@, p.output@, bg_color)
        },
{
    match backend {
        None => None,
        Some(b) => {
            let bg_hex = color_to_hex(bg_color);
            let tmp = chars_of(tmp_dir);
            let sub = chars_of("reed-mermaid");
            let dir = join(&tmp, &sub);
            let mut keyed: Vec<char> = chars_of(source);
            push_str(&mut keyed, bg_hex.as_str());
            let hash: u64 = simple_hash(string_of(&keyed).as_str());
            let input = named_file(&dir, hash, ".mmd");
            let output = named_file(&dir, hash, ".png");
            let mut args: Vec<String> = Vec::new();
            let program = match b {
                MermaidBackend::Mmdz(path) => {
                    args.push("render".to_owned());
                    args.push(input.clone());
                    args.push("-o".to_owned());
                    args.push(output.clone());
                    args.push("-t".to_owned());
                    args.push(mmdz_theme_for(bg_color).to_owned());
                    path.clone()
                },
                MermaidBackend::Mmdc(path) => {
                    args.push("-i".to_owned());
                    args.push(input.clone());
                    args.push("-o".to_owned());
                    args.push(output.clone());
                    args.push("-t".to_owned());
                    args.push(mermaid_theme_for(bg_color).to_owned());
                    args.push("-b".to_owned());
                    args.push(bg_hex);
                    args.push("--scale".to_owned());
                    args.push("2".to_owned());
                    args.push("-q".to_owned());
                    path.clone()
                },
            };
            assert(texts(args@) =~= render_args(*b, input@, output@, bg_color));
            Some(RenderPlan { dir: string_of(&dir), input, output, program, args })
        },
    }
}

/// What has happened on the way from a diagram's source to its image.
#[derive(Debug, Clone)]
pub enum RenderEvent {
    Start,
    /// The directory was made (or was there).
    DirMade(bool),
    /// The source was written.
    InputWritten(bool),
    /// The program ended, and whether it succeeded; `None` where it could not be run.
    Ran(Option<bool>),
    /// The image was read, or could not be.
    OutputRead(Option<Vec<u8>>),
}

/// What to do next on that way.
#[derive(Debug, Clone)]
pub enum RenderAction {
    MakeDir,
    WriteInput,
    Run,
    RemoveInput,
    ReadOutput,
    RemoveOutput,
    /// The image, if there is one. Nothing comes after this.
    Finish(Option<Vec<u8>>),
}

/// What to do when something has happened. The source's file is removed once the program has
/// ended, the image's file once it has been read or will not be.
pub open spec fn render_actions(event: RenderEvent) -> Seq<RenderAction> {
    match event {
        RenderEvent::Start => seq![RenderAction::MakeDir],
        RenderEvent::DirMade(ok) => if ok {
            seq![RenderAction::WriteInput]
        } else {
            seq![RenderAction::Finish(None)]
        },
        RenderEvent::InputWritten(ok) => if ok {
            seq![RenderAction::Run]
        } else {
            seq![RenderAction::Finish(None)]
        },
        RenderEvent::Ran(Some(true)) => seq![RenderAction::RemoveInput, RenderAction::ReadOutput],
        RenderEvent::Ran(Some(false)) => seq![
            RenderAction::RemoveInput,
            RenderAction::RemoveOutput,
            RenderAction::Finish(None),
        ],
        RenderEvent::Ran(None) => seq![RenderAction::RemoveInput, RenderAction::Finish(None)],
        RenderEvent::OutputRead(image) => seq![
            RenderAction::RemoveOutput,
            RenderAction::Finish(image),
        ],
    }
}

/// What to do when something has happened on the way from a diagram's source to its image.
pub fn render_next(event: RenderEvent) -> (actions: Vec<RenderAction>)
    ensures
        actions@ == render_actions(event),
{
    let mut actions: Vec<RenderAction> = Vec::new();
    match event {
        RenderEvent::Start => actions.push(RenderAction::MakeDir),
        RenderEvent::DirMade(ok) => if ok {
            actions.push(RenderAction::WriteInput);
        } else {
            actions.push(RenderAction::Finish(None));
        },
        RenderEvent::InputWritten(ok) => if ok {
            actions.push(RenderAction::Run);
        } else {
            actions.push(RenderAction::Finish(None));
        },
        RenderEvent::Ran(outcome) => {
            actions.push(RenderAction::RemoveInput);
            match outcome {
                Some(true) => actions.push(RenderAction::ReadOutput),
                Some(false) => {
                    actions.push(RenderAction::RemoveOutput);
                    actions.push(RenderAction::Finish(None));
                },
                None => actions.push(RenderAction::Finish(None)),
            }
        },
        RenderEvent::OutputRead(image) => {
            actions.push(RenderAction::RemoveOutput);
            actions.push(RenderAction::Finish(image));
        },
    }
    assert(actions@ =~= render_actions(event));
    actions
}

/// A diagram is opened by three backquotes or tildes and the word, behind white space, with nothing
/// behind it but a blank and more.
pub proof fn law_diagrams_open(a: Seq<char>, mark: char, rest: Seq<char>)
    requires
        blank(a),
        mark == '`' || mark == '~',
    ensures
        ({
            let line = a + seq![mark, mark, mark] + seq!['m', 'e', 'r', 'm', 'a', 'i', 'd'] + rest;
            opening_fence(line) == (if rest.len() == 0 || rest[0] == ' ' {
                Some(seq![mark, mark, mark])
            } else {
                None
            })
        }),
{
    lemma_fence_texts();
    let word = seq!['m', 'e', 'r', 'm', 'a', 'i', 'd'];
    let start = seq![mark, mark, mark] + word;
    let t = start + rest;
    assert(a + seq![mark, mark, mark] + word + rest =~= a + t);
    law_trimmed_start(a, t);
    assert(t.take(10) =~= start);
    assert(t[0] == mark);
    if mark == '`' {
        assert(start =~= "```mermaid"@);
        if begins(t, "~~~mermaid"@) {
            assert(t.take(10)[0] == '~');
        }
    } else {
        assert(start =~= "~~~mermaid"@);
        if begins(t, "```mermaid"@) {
            assert(t.take(10)[0] == '`');
        }
    }
    assert(rest.len() > 0 ==> t[10] == rest[0]);
}

/// The same three characters alone on a line close it.
pub proof fn law_diagrams_close(a: Seq<char>, mark: char, rest: Seq<char>)
    requires
        blank(a),
        mark == '`' || mark == '~',
    ensures
        closes_diagram(a + seq![mark, mark, mark] + rest, seq![mark, mark, mark]) == blank(rest),
{
    let t = seq![mark, mark, mark] + rest;
    assert(a + seq![mark, mark, mark] + rest =~= a + t);
    law_trimmed_start(a, t);
    assert(t.take(3) =~= seq![mark, mark, mark]);
    assert(t.skip(3) =~= rest);
}

proof fn lemma_fence_texts()
    ensures
        "```mermaid"@ == seq!['`', '`', '`', 'm', 'e', 'r', 'm', 'a', 'i', 'd'],
        "~~~mermaid"@ == seq!['~', '~', '~', 'm', 'e', 'r', 'm', 'a', 'i', 'd'],
        "```"@ == seq!['`', '`', '`'],
        "~~~"@ == seq!['~', '~', '~'],
{
    reveal_strlit("```mermaid");
    reveal_strlit("~~~mermaid");
    reveal_strlit("```");
    reveal_strlit("~~~");
    assert("```mermaid"@ =~= seq!['`', '`', '`', 'm', 'e', 'r', 'm', 'a', 'i', 'd']);
    assert("~~~mermaid"@ =~= seq!['~', '~', '~', 'm', 'e', 'r', 'm', 'a', 'i', 'd']);
    assert("```"@ =~= seq!['`', '`', '`']);
    assert("~~~"@ =~= seq!['~', '~', '~']);
}

/// The lines between the fences are the diagram: what is opened and closed comes out, with the lines
/// it stands on.
pub proof fn law_diagram_comes_out(
    open: Seq<char>,
    code: Seq<Seq<char>>,
    close: Seq<char>,
    behind: Seq<Seq<char>>,
)
    requires
        opening_fence(open) is Some,
        closes_diagram(close, opening_fence(open)->0),
        forall|i: int|
            0 <= i < code.len() ==> !closes_diagram(#[trigger] code[i], opening_fence(open)->0),
    ensures
        ({
            let found = diagrams_from(seq![open] + code + seq![close] + behind, 0);
            &&& found.len() >= 1
            &&& found[0].source == joined_lines(code)
            &&& found[0].start == 0
            &&& found[0].end == code.len() + 1
        }),
{
    let lines = seq![open] + code + seq![close] + behind;
    assert(lines[0] == open);
    assert forall|i: int| 1 <= i < 1 + code.len() implies #[trigger] lines[i] == code[i - 1] by {}
    assert(lines[1 + code.len() as int] == close);
    lemma_closing_line_at(lines, 1, opening_fence(open)->0, 1 + code.len() as int, code);
    assert(lines.subrange(1, 1 + code.len() as int) =~= code);
}

proof fn lemma_closing_line_at(
    lines: Seq<Seq<char>>,
    from: int,
    fence: Seq<char>,
    at: int,
    code: Seq<Seq<char>>,
)
    requires
        1 <= from <= at < lines.len(),
        at == code.len() + 1,
        closes_diagram(lines[at], fence),
        forall|i: int| 1 <= i < at ==> #[trigger] lines[i] == code[i - 1],
        forall|i: int| 0 <= i < code.len() ==> !closes_diagram(#[trigger] code[i], fence),
    ensures
        closing_line(lines, from, fence) == at,
    decreases at - from,
{
    if from < at {
        assert(lines[from] == code[from - 1]);
        assert(!closes_diagram(code[from - 1], fence));
        lemma_closing_line_at(lines, from + 1, fence, at, code);
    }
}

/// A color is written so that it can be read back.
pub proof fn law_css_colors_are_read_back(r: u8, g: u8, b: u8)
    ensures
        hex_color(css_color(Color::Rgb { r, g, b })) == Some(Color::Rgb { r, g, b }),
        css_color(Color::Reset) == "transparent"@,
        css_color(Color::White) == "transparent"@,
        css_color(Color::DarkGrey) == "transparent"@,
{
    let (a1, a0) = (hex_digit(r as int / 16), hex_digit(r as int % 16));
    let (b1, b0) = (hex_digit(g as int / 16), hex_digit(g as int % 16));
    let (c1, c0) = (hex_digit(b as int / 16), hex_digit(b as int % 16));
    law_hex_colors(a1, a0, b1, b0, c1, c0);
    assert(css_color(Color::Rgb { r, g, b }) =~= seq!['#', a1, a0, b1, b0, c1, c0]);
}

/// What the programs that render diagrams are told: the two files, a dark or a light look as the
/// background is, and one of them the background itself and to draw at twice the size.
pub proof fn law_render_args(path: String, input: Seq<char>, output: Seq<char>, bg: Color)
    ensures
        dark(bg) ==> render_args(MermaidBackend::Mmdz(path), input, output, bg) == seq![
            "render"@,
            input,
            "-o"@,
            output,
            "-t"@,
            "default"@,
        ],
        !dark(bg) ==> render_args(MermaidBackend::Mmdz(path), input, output, bg) == seq![
            "render"@,
            input,
            "-o"@,
            output,
            "-t"@,
            "default-light"@,
        ],
        dark(bg) ==> render_args(MermaidBackend::Mmdc(path), input, output, bg) == seq![
            "-i"@,
            input,
            "-o"@,
            output,
            "-t"@,
            "dark"@,
            "-b"@,
            css_color(bg),
            "--scale"@,
            "2"@,
            "-q"@,
        ],
        !dark(bg) ==> render_args(MermaidBackend::Mmdc(path), input, output, bg) == seq![
            "-i"@,
            input,
            "-o"@,
            output,
            "-t"@,
            "default"@,
            "-b"@,
            css_color(bg),
            "--scale"@,
            "2"@,
            "-q"@,
        ],
        program_of(MermaidBackend::Mmdz(path)) == path@,
        program_of(MermaidBackend::Mmdc(path)) == path@,
{
}

/// Rendering goes from one step to the next only where the last one succeeded; the files are removed
/// in the end, and the image that was read is the result.
pub proof fn law_render_steps(image: Option<Vec<u8>>)
    ensures
        render_actions(RenderEvent::Start) == seq![RenderAction::MakeDir],
        render_actions(RenderEvent::DirMade(true)) == seq![RenderAction::WriteInput],
        render_actions(RenderEvent::DirMade(false)) == seq![RenderAction::Finish(None)],
        render_actions(RenderEvent::InputWritten(true)) == seq![RenderAction::Run],
        render_actions(RenderEvent::InputWritten(false)) == seq![RenderAction::Finish(None)],
        render_actions(RenderEvent::Ran(Some(true))) == seq![
            RenderAction::RemoveInput,
            RenderAction::ReadOutput,
        ],
        render_actions(RenderEvent::Ran(Some(false))) == seq![
            RenderAction::RemoveInput,
            RenderAction::RemoveOutput,
            RenderAction::Finish(None),
        ],
        render_actions(RenderEvent::Ran(None)) == seq![
            RenderAction::RemoveInput,
            RenderAction::Finish(None),
        ],
        render_actions(RenderEvent::OutputRead(image)) == seq![
            RenderAction::RemoveOutput,
            RenderAction::Finish(image),
        ],
{
}

/// Source and image lie in a directory of their own, under one name, which depends on the source
/// and the background.
pub proof fn law_diagram_files(source: Seq<char>, bg: Color, tmp: Seq<char>)
    ensures
        input_file(source, bg, tmp) == joined(
            joined(tmp, "reed-mermaid"@),
            decimal(hash_of(encode_utf8(source + css_color(bg)))) + ".mmd"@,
        ),
        output_file(source, bg, tmp) == joined(
            joined(tmp, "reed-mermaid"@),
            decimal(hash_of(encode_utf8(source + css_color(bg)))) + ".png"@,
        ),
{
}

/// The hash begins at 5381, and each byte adds itself to 33 times the number before it, as far as
/// 64 bits hold it.
pub proof fn law_hash(bytes: Seq<u8>, b: u8)
    ensures
        hash_of(seq![]) == 5381,
        hash_of(bytes) < 0x1_0000_0000_0000_0000,
        exists|high: nat|
            #![trigger high * 0x1_0000_0000_0000_0000]
            hash_of(bytes.push(b)) + high * 0x1_0000_0000_0000_0000 == 33 * hash_of(bytes) + b,
{
    assert(bytes.push(b).drop_last() =~= bytes);
    let all = hash_of(bytes) * 33 + b as nat;
    let high = all / 0x1_0000_0000_0000_0000;
    assert(hash_of(bytes.push(b)) + high * 0x1_0000_0000_0000_0000 == 33 * hash_of(bytes) + b);
}

/// A diagram stands for its source and the lines of its fences, and a list for its diagrams in their
/// order.
pub proof fn law_diagrams_stand_for_their_fields(blocks: Seq<MermaidBlock>, i: int)
    requires
        0 <= i < blocks.len(),
    ensures
        diagram_views(blocks).len() == blocks.len(),
        diagram_views(blocks)[i].source == blocks[i].source@,
        diagram_views(blocks)[i].start == blocks[i].fence_start_line,
        diagram_views(blocks)[i].end == blocks[i].fence_end_line,
{
}

/// Where to look for a renderer after some places had none.
pub open spec fn probe_after(failed: int) -> Option<Probe> {
    if failed == 0 {
        Some(Probe::HomeMmdz)
    } else if failed == 1 {
        Some(Probe::PathMmdz)
    } else if failed == 2 {
        Some(Probe::PathMmdc)
    } else {
        None
    }
}

/// Three places are looked at, each once: the home directory before the search path, and `mmdz`
/// before `mmdc`.
pub proof fn law_probes(i: int, j: int)
    requires
        0 <= i < j,
    ensures
        probe_after(i) is Some <==> i < 3,
        probe_after(j) is Some ==> probe_after(i) is Some && probe_after(i) != probe_after(j),
        probe_after(j) is Some ==> !(probe_after(j)->0 is HomeMmdz),
        probe_after(j) is Some ==> !(probe_after(i)->0 is PathMmdc),
{
}

} // verus!
