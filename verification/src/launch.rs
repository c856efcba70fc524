//! What the program is asked to do, and how a file is opened.

use vstd::prelude::*;

use crate::graphics::GraphicsProtocol;
use crate::highlight::{
    has_extension_in, is_editor_preferred, is_markdown_path, lang_for_path, lang_of,
    EDITOR_PREFERRED_EXTS, MARKDOWN_EXTS,
};
use crate::paths::{extension_of, optional_string};
use crate::text::{
    chars_of, is_listed, same_str, split_words, string_of, texts, views, words,
};

verus! {

// ---------------------------------------------------------------- kinds of files

/// Document extensions that `pandoc` can convert to markdown.
pub const DOCUMENT_EXTS: [&'static str; 6] = ["docx", "pptx", "xlsx", "odt", "rtf", "epub"];

/// Extensions of image files that can be shown.
pub const IMAGE_EXTS: [&'static str; 5] = ["png", "jpg", "jpeg", "gif", "webp"];

/// Returns `true` when `path` has a document extension convertible by pandoc.
pub fn is_document_path(path: &str) -> (r: bool)
    ensures
        r == has_extension_in(path@, DOCUMENT_EXTS@),
{
    match extension_of(&chars_of(path)) {
        Some(ext) => is_listed(DOCUMENT_EXTS.as_slice(), &ext),
        None => false,
    }
}

/// Returns `true` when `path` has the extension of an image that can be shown.
pub fn is_image_path(path: &str) -> (r: bool)
    ensures
        r == has_extension_in(path@, IMAGE_EXTS@),
{
    match extension_of(&chars_of(path)) {
        Some(ext) => is_listed(IMAGE_EXTS.as_slice(), &ext),
        None => false,
    }
}

/// How many bytes of a file are looked at to tell whether it is binary.
pub const BINARY_HEAD: usize = 8192;

/// Whether one of a file's first bytes is zero.
pub open spec fn binary(bytes: Seq<u8>) -> bool {
    exists|i: int| 0 <= i < bytes.len() && i < BINARY_HEAD && #[trigger] bytes[i] == 0
}

/// Heuristic binary detection: look for NUL bytes among a file's first 8 KiB.
pub fn is_binary(bytes: &[u8]) -> (r: bool)
    ensures
        r == binary(bytes@),
{
    let mut i: usize = 0;
    while i < bytes.len() && i < BINARY_HEAD
        invariant
            i <= bytes@.len(),
            i <= BINARY_HEAD,
            forall|j: int| 0 <= j < i ==> #[trigger] bytes@[j] != 0,
        decreases bytes@.len() - i,
    {
        if bytes[i] == 0 {
            assert(bytes@[i as int] == 0);
            return true;
        }
        i += 1;
    }
    false
}

// ---------------------------------------------------------------- opening a file

/// What is known when a file is to be opened.
#[derive(Debug, Clone, Copy, PartialEq, Eq, Structural)]
pub struct Surroundings {
    /// `pandoc` is installed.
    pub pandoc: bool,
    /// The file is binary.
    pub binary: bool,
    /// What graphics the terminal supports.
    pub gfx: GraphicsProtocol,
    /// `hexyl` is installed.
    pub hexyl: bool,
    /// There is an editor, and files for it may be opened there.
    pub editor: bool,
}

/// How a file is opened.
#[derive(Debug, Clone, PartialEq, Eq)]
pub enum Opening {
    /// Converted to markdown, and shown as that.
    Converted,
    /// As an image.
    Image,
    /// In the hex viewer.
    Hex,
    /// Not at all: it is binary, and there is no hex viewer.
    Unviewable,
    /// In the editor.
    Editor,
    /// As text: markdown, or source code of a language if it is known.
    Text { markdown: bool, code_lang: Option<String> },
}

/// What an [`Opening`] stands for.
pub enum OpeningView {
    Converted,
    Image,
    Hex,
    Unviewable,
    Editor,
    Text { markdown: bool, code_lang: Option<Seq<char>> },
}

impl View for Opening {
    type V = OpeningView;

    open spec fn view(&self) -> OpeningView {
        match self {
            Opening::Converted => OpeningView::Converted,
            Opening::Image => OpeningView::Image,
            Opening::Hex => OpeningView::Hex,
            Opening::Unviewable => OpeningView::Unviewable,
            Opening::Editor => OpeningView::Editor,
            Opening::Text { markdown, code_lang } => OpeningView::Text {
                markdown: *markdown,
                code_lang: optional_string(*code_lang),
            },
        }
    }
}

/// How a file is opened. Documents are converted where that is possible; binary files are shown as
/// images where the terminal supports it, else in hex; files for the editor are opened there, but
/// never markdown; everything else is shown as text.
pub open spec fn opening_of(path: Seq<char>, around: Surroundings) -> OpeningView {
    let markdown = has_extension_in(path, MARKDOWN_EXTS@);
    if has_extension_in(path, DOCUMENT_EXTS@) && around.pandoc {
        OpeningView::Converted
    } else if around.binary {
        if has_extension_in(path, IMAGE_EXTS@) && around.gfx != GraphicsProtocol::NoGraphics {
            OpeningView::Image
        } else if around.hexyl {
            OpeningView::Hex
        } else {
            OpeningView::Unviewable
        }
    } else if !markdown && around.editor && (has_extension_in(path, EDITOR_PREFERRED_EXTS@)
        || lang_of(path) is Some) {
        OpeningView::Editor
    } else {
        OpeningView::Text {
            markdown,
            code_lang: if markdown {
                None
            } else {
                lang_of(path)
            },
        }
    }
}

/// Decide how a file is opened.
pub fn open_as(path: &str, around: &Surroundings) -> (opening: Opening)
    ensures
        opening@ == opening_of(path@, *around),
{
    if around.pandoc && is_document_path(path) {
        return Opening::Converted;
    }
    if around.binary {
        let graphics = match around.gfx {
            GraphicsProtocol::NoGraphics => false,
            _ => true,
        };
        return if graphics && is_image_path(path) {
            Opening::Image
        } else if around.hexyl {
            Opening::Hex
        } else {
            Opening::Unviewable
        };
    }
    let markdown = is_markdown_path(path);
    if !markdown && around.editor && is_editor_preferred(path) {
        return Opening::Editor;
    }
    Opening::Text {
        markdown,
        code_lang: if markdown {
            None
        } else {
            lang_for_path(path)
        },
    }
}

/// Markdown is never opened in the editor.
pub proof fn law_markdown_stays(path: Seq<char>, around: Surroundings)
    requires
        has_extension_in(path, MARKDOWN_EXTS@),
    ensures
        opening_of(path, around) !is Editor,
        !around.binary && opening_of(path, around) !is Converted ==> opening_of(path, around)
            == (OpeningView::Text { markdown: true, code_lang: None }),
{
}

// ---------------------------------------------------------------- the editor

/// A command to look for, and the editor that it stands for.
#[derive(Debug, Clone)]
pub struct EditorProbe {
    pub command: String,
    pub editor: String,
}

/// The editors to look for, in this order: `emacs`, `nvim`, and what `$EDITOR` says. Of each the
/// command to look for and the editor; `$EDITOR` may contain arguments, its first word is the
/// command.
pub open spec fn editor_candidates(editor: Option<Seq<char>>) -> Seq<(Seq<char>, Seq<char>)> {
    let known = seq![("emacs"@, "emacs"@), ("nvim"@, "nvim"@)];
    match editor {
        Some(e) => known.push(
            (
                if words(e).len() > 0 {
                    words(e)[0]
                } else {
                    e
                },
                e,
            ),
        ),
        None => known,
    }
}

/// What a list of probes stands for.
pub open spec fn probe_views(probes: Seq<EditorProbe>) -> Seq<(Seq<char>, Seq<char>)> {
    probes.map_values(|p: EditorProbe| (p.command@, p.editor@))
}

/// What an optional text stands for.
pub open spec fn setting(s: Option<&str>) -> Option<Seq<char>> {
    match s {
        Some(t) => Some(t@),
        None => None,
    }
}

/// The editors to look for, by the value of `$EDITOR`.
pub fn editor_probes(editor: Option<&str>) -> (probes: Vec<EditorProbe>)
    ensures
        probe_views(probes@) == editor_candidates(setting(editor)),
{
    let mut probes: Vec<EditorProbe> = Vec::new();
    probes.push(EditorProbe { command: "emacs".to_owned(), editor: "emacs".to_owned() });
    probes.push(EditorProbe { command: "nvim".to_owned(), editor: "nvim".to_owned() });
    if let Some(e) = editor {
        let parts = split_words(&chars_of(e));
        let command = if parts.len() > 0 {
            assert(views(parts@)[0] == parts@[0]@);
            string_of(&parts[0])
        } else {
            e.to_owned()
        };
        probes.push(EditorProbe { command, editor: e.to_owned() });
    }
    assert(probe_views(probes@) =~= editor_candidates(setting(editor)));
    probes
}

/// The first editor whose command was found.
pub open spec fn first_found(
    candidates: Seq<(Seq<char>, Seq<char>)>,
    found: Seq<bool>,
    from: int,
) -> Option<Seq<char>>
    decreases candidates.len() - from,
{
    if from >= candidates.len() {
        None
    } else if found[from] {
        Some(candidates[from].1)
    } else {
        first_found(candidates, found, from + 1)
    }
}

/// Detect the preferred code editor, `found` being which of the commands are installed. None when
/// no suitable editor is found.
pub fn detect_editor(probes: &Vec<EditorProbe>, found: &Vec<bool>) -> (editor: Option<String>)
    requires
        found@.len() == probes@.len(),
    ensures
        optional_string(editor) == first_found(probe_views(probes@), found@, 0),
{
    let ghost all = probe_views(probes@);
    let mut i: usize = 0;
    while i < probes.len()
        invariant
            i <= probes@.len(),
            found@.len() == probes@.len(),
            all == probe_views(probes@),
            first_found(all, found@, i as int) == first_found(all, found@, 0),
        decreases probes@.len() - i,
    {
        if found[i] {
            assert(all[i as int].1 == probes@[i as int].editor@);
            return Some(probes[i].editor.clone());
        }
        i += 1;
    }
    None
}

/// The command line that opens a file in an editor: its words, and the file behind them. None for
/// an editor without words.
pub open spec fn editor_line(editor: Seq<char>, path: Seq<char>) -> Option<Seq<Seq<char>>> {
    if words(editor).len() == 0 {
        None
    } else {
        Some(words(editor).push(path))
    }
}

/// The command line that opens a file in the given editor. `editor` may contain arguments (e.g.
/// `"code --wait"`); the file path is appended as the last argument.
pub fn open_in_editor(editor: &str, path: &str) -> (line: Option<Vec<String>>)
    ensures
        match line {
            Some(l) => editor_line(editor@, path@) == Some(texts(l@)),
            None => editor_line(editor@, path@) is None,
        },
{
    let parts = split_words(&chars_of(editor));
    if parts.len() == 0 {
        return None;
    }
    let ghost all = views(parts@);
    let mut line: Vec<String> = Vec::new();
    let mut i: usize = 0;
    while i < parts.len()
        invariant
            i <= parts@.len(),
            all == views(parts@),
            texts(line@) =~= all.take(i as int),
        decreases parts@.len() - i,
    {
        let ghost before = texts(line@);
        line.push(string_of(&parts[i]));
        assert(texts(line@) =~= before.push(all[i as int]));
        i += 1;
    }
    let ghost before = texts(line@);
    assert(before =~= all);
    line.push(path.to_owned());
    assert(texts(line@) =~= before.push(path@));
    Some(line)
}

// ---------------------------------------------------------------- the command line

/// What the command line says.
#[derive(Debug, Clone)]
pub struct Request {
    /// File to display; `-` for standard input.
    pub file: Option<String>,
    pub print: bool,
    pub preview: bool,
    pub next_theme: bool,
    pub prev_theme: bool,
    pub editor: bool,
    pub print_header: bool,
}

/// What the program does.
#[derive(Debug, Clone, Copy, PartialEq, Eq, Structural)]
pub enum Mode {
    /// Switch to the next theme, or to the previous one, and exit.
    CycleTheme { forward: bool },
    /// Print the picker's header and exit.
    PrintHeader,
    /// `--preview` and `--print` need a file.
    FileMissing,
    /// Let a file be picked.
    Pick,
    /// Show standard input.
    Stdin,
    /// Open the file in an editor.
    Editor,
    /// Open the file.
    File,
}

/// What the program does on a request.
pub open spec fn mode_of(request: Request) -> Mode {
    if request.next_theme || request.prev_theme {
        Mode::CycleTheme { forward: request.next_theme }
    } else if request.print_header {
        Mode::PrintHeader
    } else {
        match request.file {
            None => if request.preview || request.print {
                Mode::FileMissing
            } else {
                Mode::Pick
            },
            Some(file) => if file@ == "-"@ {
                Mode::Stdin
            } else if request.editor {
                Mode::Editor
            } else {
                Mode::File
            },
        }
    }
}

/// Decide what the program does.
pub fn mode(request: &Request) -> (m: Mode)
    ensures
        m == mode_of(*request),
{
    if request.next_theme || request.prev_theme {
        return Mode::CycleTheme { forward: request.next_theme };
    }
    if request.print_header {
        return Mode::PrintHeader;
    }
    match &request.file {
        None => {
            if request.preview || request.print {
                Mode::FileMissing
            } else {
                Mode::Pick
            }
        },
        Some(file) => {
            if same_str(file.as_str(), "-") {
                Mode::Stdin
            } else if request.editor {
                Mode::Editor
            } else {
                Mode::File
            }
        },
    }
}

/// Where the content goes.
#[derive(Debug, Clone, Copy, PartialEq, Eq, Structural)]
pub enum Output {
    /// To standard output.
    Print,
    /// To standard output, in the theme.
    Preview,
    /// To the interactive viewer.
    View,
}

/// Where the content goes; printing comes before previewing.
pub fn output_for(print: bool, preview: bool) -> (output: Output)
    ensures
        output == output_of(print, preview),
        output == (if print {
            Output::Print
        } else if preview {
            Output::Preview
        } else {
            Output::View
        }),
{
    if print {
        Output::Print
    } else if preview {
        Output::Preview
    } else {
        Output::View
    }
}

/// The line that the content is shown from: printed content is shown from its beginning.
pub fn first_shown(output: Output, line: Option<usize>) -> (from: Option<usize>)
    ensures
        from == shown_from(output, line),
        from == (if output == Output::Print {
            None
        } else {
            line
        }),
{
    match output {
        Output::Print => None,
        _ => line,
    }
}

/// Where the content of standard input goes; `None` if there is none.
pub fn stdin_output(content: &str, print: bool, preview: bool) -> (output: Option<Output>)
    ensures
        output matches Some(o) ==> o == output_of(print, preview),
        output is Some <==> content@.len() > 0,
        output == (if content@.len() == 0 {
            None
        } else {
            Some(
                if print {
                    Output::Print
                } else if preview {
                    Output::Preview
                } else {
                    Output::View
                },
            )
        }),
{
    if content.is_empty() {
        None
    } else {
        Some(output_for(print, preview))
    }
}

/// A file is converted where it is a document and there is a program for that. Otherwise a binary
/// file is shown as an image where it is one and can be shown, or else in hexadecimal where there
/// is a program for that, or not at all.
pub proof fn law_binary_files(path: Seq<char>, around: Surroundings)
    ensures
        has_extension_in(path, DOCUMENT_EXTS@) && around.pandoc ==> opening_of(path, around)
            == OpeningView::Converted,
        !(has_extension_in(path, DOCUMENT_EXTS@) && around.pandoc) && around.binary ==> {
            let image = has_extension_in(path, IMAGE_EXTS@) && around.gfx
                != GraphicsProtocol::NoGraphics;
            &&& image ==> opening_of(path, around) == OpeningView::Image
            &&& !image && around.hexyl ==> opening_of(path, around) == OpeningView::Hex
            &&& !image && !around.hexyl ==> opening_of(path, around) == OpeningView::Unviewable
        },
{
}

/// A text that is not markdown goes to the editor where there is one and it is of a kind for it;
/// otherwise it is shown, with its language, if that is known.
pub proof fn law_text_files(path: Seq<char>, around: Surroundings)
    requires
        !around.binary,
        !(has_extension_in(path, DOCUMENT_EXTS@) && around.pandoc),
    ensures
        ({
            let markdown = has_extension_in(path, MARKDOWN_EXTS@);
            let code = has_extension_in(path, EDITOR_PREFERRED_EXTS@) || lang_of(path) is Some;
            &&& markdown ==> opening_of(path, around) == (OpeningView::Text {
                markdown: true,
                code_lang: None,
            })
            &&& !markdown && around.editor && code ==> opening_of(path, around)
                == OpeningView::Editor
            &&& !markdown && (!around.editor || !code) ==> opening_of(path, around) == (
            OpeningView::Text { markdown: false, code_lang: lang_of(path) })
        }),
{
}

/// The extensions of documents and of images.
pub proof fn law_extensions()
    ensures
        DOCUMENT_EXTS@.len() == 6 && IMAGE_EXTS@.len() == 5,
        DOCUMENT_EXTS@[0]@ == "docx"@ && DOCUMENT_EXTS@[1]@ == "pptx"@,
        DOCUMENT_EXTS@[2]@ == "xlsx"@ && DOCUMENT_EXTS@[3]@ == "odt"@,
        DOCUMENT_EXTS@[4]@ == "rtf"@ && DOCUMENT_EXTS@[5]@ == "epub"@,
        IMAGE_EXTS@[0]@ == "png"@ && IMAGE_EXTS@[1]@ == "jpg"@ && IMAGE_EXTS@[2]@ == "jpeg"@,
        IMAGE_EXTS@[3]@ == "gif"@ && IMAGE_EXTS@[4]@ == "webp"@,
{
}

/// A file is binary where one of its first 8192 bytes is zero.
pub proof fn law_binary(bytes: Seq<u8>, i: int)
    ensures
        0 <= i < bytes.len() && i < 8192 && bytes[i] == 0 ==> binary(bytes),
        (forall|j: int| 0 <= j < bytes.len() && j < 8192 ==> #[trigger] bytes[j] != 0) ==> !binary(
            bytes,
        ),
{
}

/// The editors that are looked for, in this order: two that are known, and the one that is set, by
/// its first word.
pub proof fn law_editors(editor: Seq<char>)
    ensures
        editor_candidates(None) == seq![("emacs"@, "emacs"@), ("nvim"@, "nvim"@)],
        editor_candidates(Some(editor)).len() == 3,
        editor_candidates(Some(editor)).take(2) == editor_candidates(None),
        words(editor).len() > 0 ==> editor_candidates(Some(editor))[2] == (words(editor)[0], editor),
        words(editor).len() == 0 ==> editor_candidates(Some(editor))[2] == (editor, editor),
{
    assert(editor_candidates(Some(editor)).take(2) =~= editor_candidates(None));
}

/// Of the editors, the first one that was found is taken.
pub proof fn law_first_editor(candidates: Seq<(Seq<char>, Seq<char>)>, found: Seq<bool>, i: int)
    requires
        found.len() == candidates.len(),
    ensures
        0 <= i < candidates.len() && found[i] && (forall|j: int| 0 <= j < i ==> !#[trigger] found[j])
            ==> first_found(candidates, found, 0) == Some(candidates[i].1),
        (forall|j: int| 0 <= j < candidates.len() ==> !#[trigger] found[j]) ==> first_found(
            candidates,
            found,
            0,
        ) is None,
{
    if 0 <= i < candidates.len() && found[i] && (forall|j: int|
        0 <= j < i ==> !#[trigger] found[j]) {
        lemma_first_found(candidates, found, 0, i);
    }
    if forall|j: int| 0 <= j < candidates.len() ==> !#[trigger] found[j] {
        lemma_none_found(candidates, found, 0);
    }
}

proof fn lemma_first_found(
    candidates: Seq<(Seq<char>, Seq<char>)>,
    found: Seq<bool>,
    from: int,
    i: int,
)
    requires
        0 <= from <= i < candidates.len(),
        found.len() == candidates.len(),
        found[i],
        forall|j: int| from <= j < i ==> !#[trigger] found[j],
    ensures
        first_found(candidates, found, from) == Some(candidates[i].1),
    decreases i - from,
{
    if from < i {
        assert(!found[from]);
        lemma_first_found(candidates, found, from + 1, i);
    }
}

proof fn lemma_none_found(candidates: Seq<(Seq<char>, Seq<char>)>, found: Seq<bool>, from: int)
    requires
        0 <= from,
        forall|j: int| from <= j < candidates.len() ==> !#[trigger] found[j],
    ensures
        first_found(candidates, found, from) is None,
    decreases candidates.len() - from,
{
    if from < candidates.len() {
        assert(!found[from]);
        lemma_none_found(candidates, found, from + 1);
    }
}

/// An editor is run with its own words as arguments, and the file behind them.
pub proof fn law_editor_line(editor: Seq<char>, path: Seq<char>)
    ensures
        words(editor).len() == 0 ==> editor_line(editor, path) is None,
        words(editor).len() > 0 ==> editor_line(editor, path) == Some(words(editor) + seq![path]),
{
    if words(editor).len() > 0 {
        assert(words(editor).push(path) =~= words(editor) + seq![path]);
    }
}

/// What is asked for: changing the theme goes before printing the header, and that before the
/// file. Without a file one is picked, unless it is to be printed; a dash is standard input.
pub proof fn law_modes(r: Request)
    ensures
        r.next_theme ==> mode_of(r) == (Mode::CycleTheme { forward: true }),
        !r.next_theme && r.prev_theme ==> mode_of(r) == (Mode::CycleTheme { forward: false }),
        !r.next_theme && !r.prev_theme && r.print_header ==> mode_of(r) == Mode::PrintHeader,
        !r.next_theme && !r.prev_theme && !r.print_header ==> match r.file {
            None => mode_of(r) == (if r.print || r.preview {
                Mode::FileMissing
            } else {
                Mode::Pick
            }),
            Some(file) => {
                &&& file@ == "-"@ ==> mode_of(r) == Mode::Stdin
                &&& file@ != "-"@ && r.editor ==> mode_of(r) == Mode::Editor
                &&& file@ != "-"@ && !r.editor ==> mode_of(r) == Mode::File
            },
        },
{
}

/// A way to open a file stands for itself.
pub proof fn law_openings_stand_for_themselves(markdown: bool, lang: String)
    ensures
        Opening::Converted@ == OpeningView::Converted,
        Opening::Image@ == OpeningView::Image,
        Opening::Hex@ == OpeningView::Hex,
        Opening::Unviewable@ == OpeningView::Unviewable,
        Opening::Editor@ == OpeningView::Editor,
        (Opening::Text { markdown, code_lang: Some(lang) })@ == (OpeningView::Text {
            markdown,
            code_lang: Some(lang@),
        }),
        (Opening::Text { markdown, code_lang: None })@ == (OpeningView::Text {
            markdown,
            code_lang: None,
        }),
{
}

/// Where the content goes.
pub open spec fn output_of(print: bool, preview: bool) -> Output {
    if print {
        Output::Print
    } else if preview {
        Output::Preview
    } else {
        Output::View
    }
}

/// The line that the content is shown from, if it is not the first.
pub open spec fn shown_from(output: Output, line: Option<usize>) -> Option<usize> {
    if output == Output::Print {
        None
    } else {
        line
    }
}

/// Content goes to the viewer unless it is asked to be printed, which comes first, or previewed;
/// printed content begins at its beginning, other content at the line asked for.
pub proof fn law_outputs(print: bool, preview: bool, line: Option<usize>)
    ensures
        output_of(print, preview) is Print <==> print,
        output_of(print, preview) is View <==> !print && !preview,
        output_of(print, preview) is Preview <==> !print && preview,
        shown_from(output_of(true, preview), line) is None,
        shown_from(output_of(false, preview), line) == line,
{
}

} // verus!
