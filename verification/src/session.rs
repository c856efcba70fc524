//! The viewer's session: what it shows, and how it goes on after each input.

use vstd::prelude::*;

use crate::chrome::SIDE_PAD;
use crate::code_blocks::{code_blocks_from, code_views, extract_code_blocks, CodeBlock};
use crate::config::{
    law_ring_steps, law_ring_steps_cancel, next_in_ring, prev_in_ring, ring_next, ring_prev,
};
use crate::headings::{extract_headings, heading_views, headings_among, Heading};
use crate::images::optional_bytes;
use crate::keys::Action;
use crate::links::{extract_links, inline_links, link_views, with_bare_links, Link};
use crate::mermaid::{diagram_views, diagrams_from, extract_mermaid_blocks, MermaidBlock};
use crate::patterns::{found, BARE_URL, MD_LINK};
use crate::placeholders::{
    extract_images, image_matches, images_found, ref_views, rendered_views, ImageRef,
};
use crate::search::{all_matches, as_ints, first_from, SearchState};
use crate::text::lines_of;

verus! {

// ---------------------------------------------------------------- documents

/// A document and what is found in it.
#[derive(Debug, Clone)]
pub struct Document {
    pub markdown: String,
    pub headings: Vec<Heading>,
    pub links: Vec<Link>,
    pub code_blocks: Vec<CodeBlock>,
    /// The images, where the terminal can show them.
    pub images: Vec<ImageRef>,
    /// The diagrams, where the terminal can show them.
    pub diagrams: Vec<MermaidBlock>,
}

impl Document {
    /// Whether this is a document of the given text: everything in it is found. Without graphics
    /// there are no images and no diagrams, so that they stay in the text as they are.
    pub open spec fn is_of(&self, markdown: Seq<char>, base_dir: Seq<char>, graphics: bool) -> bool {
        let lines = lines_of(markdown);
        &&& self.markdown@ == markdown
        &&& heading_views(self.headings@) == headings_among(lines)
        &&& link_views(self.links@) == with_bare_links(
            inline_links(found(MD_LINK@, markdown)),
            found(BARE_URL@, markdown),
        )
        &&& code_views(self.code_blocks@) == code_blocks_from(lines, 0)
        &&& if graphics {
            &&& ref_views(self.images@) == images_found(image_matches(lines), base_dir)
            &&& diagram_views(self.diagrams@) == diagrams_from(lines, 0)
        } else {
            &&& self.images@.len() == 0
            &&& self.diagrams@.len() == 0
        }
    }

    /// Find everything in a text. Paths of images are resolved against `base_dir`; `graphics`
    /// says whether the terminal can show images.
    pub fn read(markdown: String, base_dir: &str, graphics: bool) -> (d: Document)
        ensures
            d.is_of(markdown@, base_dir@, graphics),
    {
        let headings = extract_headings(markdown.as_str());
        let links = extract_links(markdown.as_str());
        let code_blocks = extract_code_blocks(markdown.as_str());
        let images: Vec<ImageRef> = if graphics {
            extract_images(markdown.as_str(), base_dir)
        } else {
            Vec::new()
        };
        let diagrams: Vec<MermaidBlock> = if graphics {
            extract_mermaid_blocks(markdown.as_str())
        } else {
            Vec::new()
        };
        Document { markdown, headings, links, code_blocks, images, diagrams }
    }
}

/// What comes of rendering diagrams: the number and the PNG of those that could be rendered, of
/// the first `n`.
pub open spec fn rendered_among(pngs: Seq<Option<Seq<u8>>>, n: int) -> Seq<(int, Seq<u8>)>
    decreases n,
{
    if n <= 0 {
        seq![]
    } else {
        match pngs[n - 1] {
            Some(png) => rendered_among(pngs, n - 1).push((n - 1, png)),
            None => rendered_among(pngs, n - 1),
        }
    }
}

/// What a list of optional bytes stands for.
pub open spec fn all_bytes(list: Seq<Option<Vec<u8>>>) -> Seq<Option<Seq<u8>>> {
    list.map_values(|b: Option<Vec<u8>>| optional_bytes(b))
}

/// The diagrams that could be rendered, each with its number. The others are shown as regular
/// code blocks.
pub fn rendered_diagrams(pngs: Vec<Option<Vec<u8>>>) -> (rendered: Vec<(usize, Vec<u8>)>)
    ensures
        rendered_views(rendered@) == rendered_among(all_bytes(pngs@), pngs@.len() as int),
        forall|i: int| 0 <= i < rendered@.len() ==> (#[trigger] rendered@[i]).0 < pngs@.len(),
{
    let ghost all = all_bytes(pngs@);
    let mut rendered: Vec<(usize, Vec<u8>)> = Vec::new();
    let mut i: usize = 0;
    assert(rendered_views(rendered@) =~= seq![]);
    while i < pngs.len()
        invariant
            i <= pngs@.len(),
            all == all_bytes(pngs@),
            rendered_views(rendered@) == rendered_among(all, i as int),
            forall|k: int| 0 <= k < rendered@.len() ==> (#[trigger] rendered@[k]).0 < i,
        decreases pngs@.len() - i,
    {
        assert(all[i as int] == optional_bytes(pngs@[i as int]));
        if let Some(png) = &pngs[i] {
            let ghost before = rendered_views(rendered@);
            let copy = png.clone();
            assert(copy@ =~= png@);
            rendered.push((i, copy));
            assert(rendered_views(rendered@) =~= before.push((i as int, png@)));
        }
        i += 1;
    }
    rendered
}

// ---------------------------------------------------------------- leaving the frame loop

/// What caused the inner render loop to exit.
#[derive(Debug, Clone, Copy, PartialEq, Eq, Structural)]
pub enum LoopExit {
    Quit,
    NextTheme,
    PrevTheme,
    /// Terminal was resized: must re-create the terminal with new dimensions.
    Resize(u16, u16),
    /// Jump to a specific line (from heading navigation).
    GotoLine(usize),
    /// Force a full redraw (screen was dirtied by an overlay). Carries the scroll offset to
    /// restore.
    Redraw(usize),
    /// User initiated a search: requires prompt, and redraw after it.
    StartSearch,
    /// Jump to the next search match.
    NextMatch,
    /// Jump to the previous search match.
    PrevMatch,
    /// Toggle the table of contents sidebar.
    ToggleToc,
    /// Open link picker.
    OpenLink,
    /// File changed on disk: reload content.
    Reload,
    /// Switch to the next buffer in the ring.
    BufferNext,
    /// Switch to the previous buffer in the ring.
    BufferPrev,
    /// Open code block picker for clipboard copy.
    CopyBlock,
}

/// What an action leaves the frame loop for; `None` where the loop goes on with the next frame.
pub open spec fn exit_for(action: Action) -> Option<LoopExit> {
    match action {
        Action::Quit => Some(LoopExit::Quit),
        Action::NextTheme => Some(LoopExit::NextTheme),
        Action::PrevTheme => Some(LoopExit::PrevTheme),
        Action::Resize(cols, rows) => Some(LoopExit::Resize(cols, rows)),
        Action::GotoLine(line) => Some(LoopExit::GotoLine(line)),
        Action::Redraw(pos) => Some(LoopExit::Redraw(pos)),
        Action::StartSearch => Some(LoopExit::StartSearch),
        Action::NextMatch => Some(LoopExit::NextMatch),
        Action::PrevMatch => Some(LoopExit::PrevMatch),
        Action::ToggleToc => Some(LoopExit::ToggleToc),
        Action::OpenLink => Some(LoopExit::OpenLink),
        Action::BufferNext => Some(LoopExit::BufferNext),
        Action::BufferPrev => Some(LoopExit::BufferPrev),
        Action::CopyBlock => Some(LoopExit::CopyBlock),
        _ => None,
    }
}

/// What an action leaves the frame loop for.
pub fn loop_exit(action: &Action) -> (exit: Option<LoopExit>)
    ensures
        exit == exit_for(*action),
{
    match action {
        Action::Quit => Some(LoopExit::Quit),
        Action::NextTheme => Some(LoopExit::NextTheme),
        Action::PrevTheme => Some(LoopExit::PrevTheme),
        Action::Resize(cols, rows) => Some(LoopExit::Resize(*cols, *rows)),
        Action::GotoLine(line) => Some(LoopExit::GotoLine(*line)),
        Action::Redraw(pos) => Some(LoopExit::Redraw(*pos)),
        Action::StartSearch => Some(LoopExit::StartSearch),
        Action::NextMatch => Some(LoopExit::NextMatch),
        Action::PrevMatch => Some(LoopExit::PrevMatch),
        Action::ToggleToc => Some(LoopExit::ToggleToc),
        Action::OpenLink => Some(LoopExit::OpenLink),
        Action::BufferNext => Some(LoopExit::BufferNext),
        Action::BufferPrev => Some(LoopExit::BufferPrev),
        Action::CopyBlock => Some(LoopExit::CopyBlock),
        _ => None,
    }
}

/// How many frames pass between two looks at the file.
pub const WATCH_FRAMES: u32 = 60;

/// Whether the file is looked at after a frame: after every 60th.
pub fn watches(frame_count: u32) -> (r: bool)
    ensures
        r == watched_after(frame_count as int),
        r == (frame_count as int % 60 == 0),
{
    frame_count % WATCH_FRAMES == 0
}

/// Take note of when the file was last written, `None` if that cannot be told. Returns whether
/// the file has changed since it was last looked at: not at the first look.
pub fn file_changed(last: &mut Option<u128>, now: Option<u128>) -> (changed: bool)
    ensures
        (changed, *final(last)) == looked_at(*old(last), now),
        changed == (now is Some && *old(last) is Some && now != *old(last)),
        *final(last) == (if now is Some {
            now
        } else {
            *old(last)
        }),
{
    match now {
        None => false,
        Some(t) => {
            let changed = match *last {
                Some(before) => before != t,
                None => false,
            };
            *last = Some(t);
            changed
        },
    }
}

// ---------------------------------------------------------------- the session

/// What caused the viewer to exit: returned to the caller so it can decide whether to quit
/// entirely or switch buffers.
#[derive(Debug, Clone, Copy, PartialEq, Eq, Structural)]
pub enum ViewerExit {
    /// User pressed `q` / `Esc`: exit the application.
    Quit,
    /// Switch to the next buffer in the ring (`Ctrl-n`).
    BufferNext,
    /// Switch to the previous buffer in the ring (`Ctrl-p`).
    BufferPrev,
}

/// What the viewer does after it left the frame loop.
#[derive(Debug, Clone, Copy, PartialEq, Eq, Structural)]
pub enum After {
    /// Render again.
    Render,
    /// Save the theme of this number as the preferred one, and render again.
    SaveTheme(usize),
    /// Ask for a search query, hand it to [`Session::search_for`], and render again.
    AskQuery,
    /// Let a link be picked, and render again.
    PickLink,
    /// Let a code block be picked, and render again.
    PickCodeBlock,
    /// Read the file again; if that succeeds call [`Session::reloaded`]. Render again.
    ReadFile,
    /// Leave the viewer.
    Leave(ViewerExit),
}

/// The state that persists while content is rendered again and again.
#[derive(Debug, Clone)]
pub struct Session {
    pub cols: u16,
    pub rows: u16,
    /// The theme in use.
    pub theme_index: usize,
    /// The 1-indexed row to scroll to after rendering, from the command line, a jump or a redraw.
    pub goto_line: Option<usize>,
    pub search: SearchState,
    /// Whether the table of contents is wanted.
    pub toc_visible: bool,
}

impl Session {
    pub open spec fn wf(&self) -> bool {
        self.search.wf()
    }

    /// A session that starts.
    pub fn new(cols: u16, rows: u16, theme_index: usize, initial_line: Option<usize>) -> (s: Session)
        ensures
            s.wf(),
            s.cols == cols,
            s.rows == rows,
            s.theme_index == theme_index,
            s.goto_line == initial_line,
            s.search.query@ == Seq::<char>::empty(),
            s.search.match_rows@ == Seq::<usize>::empty(),
            !s.toc_visible,
    {
        Session {
            cols,
            rows,
            theme_index,
            goto_line: initial_line,
            search: SearchState::new(),
            toc_visible: false,
        }
    }

    /// How many rows the content has: all but header and footer, at least one.
    pub fn content_rows(&self) -> (n: u16)
        ensures
            n == content_rows_of(self.rows),
    {
        if self.rows > 2 {
            self.rows - 2
        } else {
            1
        }
    }

    /// How many columns the content has: all but the padding on both sides, at least one.
    pub fn inner_cols(&self) -> (n: u16)
        ensures
            n == inner_cols_of(self.cols),
    {
        if self.cols > 2 * SIDE_PAD {
            self.cols - 2 * SIDE_PAD
        } else {
            1
        }
    }

    /// Take the row to scroll to: how many rows are to lie above the view. It is taken once.
    pub fn take_scroll(&mut self) -> (above: Option<usize>)
        ensures
            *final(self) == (Session { goto_line: None, ..*old(self) }),
            above == rows_above(old(self).goto_line),
    {
        let above: Option<usize> = match self.goto_line {
            Some(line) => Some(
                if line == 0 {
                    0
                } else {
                    line - 1
                },
            ),
            None => None,
        };
        self.goto_line = None;
        above
    }

    /// The session after it left the frame loop, `scroll` rows of the content lying above the
    /// view.
    pub open spec fn stepped(self, exit: LoopExit, scroll: usize, themes: nat) -> Session {
        match exit {
            LoopExit::NextTheme => Session {
                theme_index: ring_next(self.theme_index as int, themes as int) as usize,
                ..self
            },
            LoopExit::PrevTheme => Session {
                theme_index: ring_prev(self.theme_index as int, themes as int) as usize,
                ..self
            },
            LoopExit::Resize(cols, rows) => Session { cols, rows, ..self },
            LoopExit::GotoLine(line) => Session { goto_line: Some(line), ..self },
            LoopExit::Redraw(pos) => Session { goto_line: Some((pos + 1) as usize), ..self },
            LoopExit::ToggleToc => Session {
                toc_visible: !self.toc_visible,
                goto_line: Some((scroll + 1) as usize),
                ..self
            },
            LoopExit::OpenLink | LoopExit::CopyBlock => Session {
                goto_line: Some((scroll + 1) as usize),
                ..self
            },
            LoopExit::NextMatch => if self.search.match_rows@.len() > 0 {
                self.at_match(
                    ring_next(self.search.current as int, self.search.match_rows@.len() as int),
                )
            } else {
                self
            },
            LoopExit::PrevMatch => if self.search.match_rows@.len() > 0 {
                self.at_match(
                    ring_prev(self.search.current as int, self.search.match_rows@.len() as int),
                )
            } else {
                self
            },
            _ => self,
        }
    }

    /// The session with the `i`th match as the current one, which is scrolled to.
    pub open spec fn at_match(self, i: int) -> Session {
        Session {
            goto_line: Some(self.search.match_rows@[i]),
            search: SearchState { current: i as usize, ..self.search },
            ..self
        }
    }

    /// What the viewer does after it left the frame loop.
    pub open spec fn after(self, exit: LoopExit, themes: nat) -> After {
        match exit {
            LoopExit::Quit => After::Leave(ViewerExit::Quit),
            LoopExit::BufferNext => After::Leave(ViewerExit::BufferNext),
            LoopExit::BufferPrev => After::Leave(ViewerExit::BufferPrev),
            LoopExit::NextTheme => After::SaveTheme(
                ring_next(self.theme_index as int, themes as int) as usize,
            ),
            LoopExit::PrevTheme => After::SaveTheme(
                ring_prev(self.theme_index as int, themes as int) as usize,
            ),
            LoopExit::StartSearch => After::AskQuery,
            LoopExit::OpenLink => After::PickLink,
            LoopExit::CopyBlock => After::PickCodeBlock,
            LoopExit::Reload => After::ReadFile,
            _ => After::Render,
        }
    }

    /// Go on after the frame loop was left. `scroll` is how many rows of the content lie above
    /// the view, `themes` how many themes there are.
    pub fn step(&mut self, exit: LoopExit, scroll: usize, themes: usize) -> (after: After)
        requires
            old(self).wf(),
            old(self).theme_index < themes,
            scroll < usize::MAX,
            exit matches LoopExit::Redraw(pos) ==> pos < usize::MAX,
        ensures
            final(self).wf(),
            final(self).theme_index < themes,
            *final(self) == old(self).stepped(exit, scroll, themes as nat),
            after == old(self).after(exit, themes as nat),
    {
        match exit {
            LoopExit::Quit => After::Leave(ViewerExit::Quit),
            LoopExit::BufferNext => After::Leave(ViewerExit::BufferNext),
            LoopExit::BufferPrev => After::Leave(ViewerExit::BufferPrev),
            LoopExit::NextTheme => {
                self.theme_index = next_in_ring(self.theme_index, themes);
                After::SaveTheme(self.theme_index)
            },
            LoopExit::PrevTheme => {
                self.theme_index = prev_in_ring(self.theme_index, themes);
                After::SaveTheme(self.theme_index)
            },
            LoopExit::Resize(cols, rows) => {
                self.cols = cols;
                self.rows = rows;
                After::Render
            },
            LoopExit::GotoLine(line) => {
                self.goto_line = Some(line);
                After::Render
            },
            LoopExit::Redraw(pos) => {
                self.goto_line = Some(pos + 1);
                After::Render
            },
            LoopExit::StartSearch => After::AskQuery,
            LoopExit::NextMatch => {
                if let Some(row) = self.search.next_match() {
                    self.goto_line = Some(row);
                }
                After::Render
            },
            LoopExit::PrevMatch => {
                if let Some(row) = self.search.prev_match() {
                    self.goto_line = Some(row);
                }
                After::Render
            },
            LoopExit::ToggleToc => {
                self.toc_visible = !self.toc_visible;
                self.goto_line = Some(scroll + 1);
                After::Render
            },
            LoopExit::OpenLink => {
                self.goto_line = Some(scroll + 1);
                After::PickLink
            },
            LoopExit::CopyBlock => {
                self.goto_line = Some(scroll + 1);
                After::PickCodeBlock
            },
            LoopExit::Reload => After::ReadFile,
        }
    }

    /// Search the rendered text for what was entered at the prompt, and go to the first match at
    /// or below the top of the view. Nothing was entered: nothing changes.
    pub fn search_for(&mut self, query: Option<String>, ansi_text: &str, scroll: usize)
        requires
            old(self).wf(),
            scroll < usize::MAX,
        ensures
            final(self).wf(),
            query is None ==> *final(self) == *old(self),
            query matches Some(q) ==> {
                let rows = final(self).search.match_rows@;
                &&& final(self).search.query@ == q@
                &&& as_ints(rows) == all_matches(ansi_text@, q@)
                &&& final(self).cols == old(self).cols
                &&& final(self).rows == old(self).rows
                &&& final(self).theme_index == old(self).theme_index
                &&& final(self).toc_visible == old(self).toc_visible
                &&& if rows.len() == 0 {
                    &&& final(self).goto_line == old(self).goto_line
                    &&& final(self).search.current == 0
                } else {
                    &&& final(self).search.current == first_from(rows, scroll + 1)
                    &&& final(self).goto_line == Some(rows[final(self).search.current as int])
                }
            },
    {
        if let Some(q) = query {
            self.search.query = q;
            self.search.find_matches(ansi_text);
            if let Some(row) = self.search.first_match_from(scroll + 1) {
                self.goto_line = Some(row);
            }
        }
    }

    /// Keep the scroll position after the document was read again.
    pub fn reloaded(&mut self, scroll: usize)
        requires
            scroll < usize::MAX,
        ensures
            *final(self) == (Session { goto_line: Some((scroll + 1) as usize), ..*old(self) }),
    {
        self.goto_line = Some(scroll + 1);
    }
}

/// How many rows are to lie above the view so that a 1-indexed row is at its top.
pub open spec fn rows_above(goto_line: Option<usize>) -> Option<usize> {
    match goto_line {
        Some(line) => Some(
            if line == 0 {
                0
            } else {
                (line - 1) as usize
            },
        ),
        None => None,
    }
}

/// How many rows the content has on a screen.
pub open spec fn content_rows_of(rows: u16) -> int {
    if rows > 2 {
        rows - 2
    } else {
        1
    }
}

/// How many columns the content has on a screen.
pub open spec fn inner_cols_of(cols: u16) -> int {
    if cols > 2 * SIDE_PAD {
        cols - 2 * SIDE_PAD
    } else {
        1
    }
}

/// Whether the viewer is interactive: on a terminal that has rows and columns. Otherwise the text
/// is printed.
pub fn is_interactive(is_terminal: bool, cols: u16, rows: u16) -> (r: bool)
    ensures
        r == interactive(is_terminal, cols, rows),
        r == (is_terminal && cols > 0 && rows > 0),
{
    is_terminal && cols > 0 && rows > 0
}

// ---------------------------------------------------------------- laws

/// Going to the next theme and back, or back and forth, changes nothing; neither does showing and
/// hiding the table of contents, but for the row that is scrolled to.
pub proof fn law_steps_cancel(s: Session, scroll: usize, themes: nat)
    requires
        s.theme_index < themes,
        themes <= usize::MAX,
    ensures
        s.stepped(LoopExit::NextTheme, scroll, themes).stepped(LoopExit::PrevTheme, scroll, themes)
            == s,
        s.stepped(LoopExit::PrevTheme, scroll, themes).stepped(LoopExit::NextTheme, scroll, themes)
            == s,
        s.stepped(LoopExit::ToggleToc, scroll, themes).stepped(LoopExit::ToggleToc, scroll, themes)
            == (Session { goto_line: Some((scroll + 1) as usize), ..s }),
{
    law_ring_steps_cancel(s.theme_index as int, themes as int);
}

/// After an overlay, and after the table of contents was shown or hidden, the view comes back to
/// where it was: as many rows are to lie above it as before.
pub proof fn law_redraw_restores(s: Session, scroll: usize, themes: nat)
    requires
        scroll < usize::MAX,
    ensures
        rows_above(s.stepped(LoopExit::Redraw(scroll), scroll, themes).goto_line) == Some(scroll),
        rows_above(s.stepped(LoopExit::ToggleToc, scroll, themes).goto_line) == Some(scroll),
        rows_above(s.stepped(LoopExit::OpenLink, scroll, themes).goto_line) == Some(scroll),
        rows_above(s.stepped(LoopExit::CopyBlock, scroll, themes).goto_line) == Some(scroll),
{
}

/// What each action leads to: quitting, themes, sizes, jumps, searching and the pickers leave the
/// frame loop with what they carry; all others stay in it.
pub proof fn law_actions_leave_the_loop(cols: u16, rows: u16, line: usize, c: char, path: String)
    ensures
        exit_for(Action::Quit) == Some(LoopExit::Quit),
        exit_for(Action::NextTheme) == Some(LoopExit::NextTheme),
        exit_for(Action::PrevTheme) == Some(LoopExit::PrevTheme),
        exit_for(Action::Resize(cols, rows)) == Some(LoopExit::Resize(cols, rows)),
        exit_for(Action::GotoLine(line)) == Some(LoopExit::GotoLine(line)),
        exit_for(Action::Redraw(line)) == Some(LoopExit::Redraw(line)),
        exit_for(Action::StartSearch) == Some(LoopExit::StartSearch),
        exit_for(Action::NextMatch) == Some(LoopExit::NextMatch),
        exit_for(Action::PrevMatch) == Some(LoopExit::PrevMatch),
        exit_for(Action::ToggleToc) == Some(LoopExit::ToggleToc),
        exit_for(Action::OpenLink) == Some(LoopExit::OpenLink),
        exit_for(Action::BufferNext) == Some(LoopExit::BufferNext),
        exit_for(Action::BufferPrev) == Some(LoopExit::BufferPrev),
        exit_for(Action::CopyBlock) == Some(LoopExit::CopyBlock),
        exit_for(Action::Continue) is None,
        exit_for(Action::ToggleZen) is None,
        exit_for(Action::ScrollRight) is None,
        exit_for(Action::ScrollLeft) is None,
        exit_for(Action::ShowHelp) is None,
        exit_for(Action::ToggleFollow) is None,
        exit_for(Action::SetMark(c)) is None,
        exit_for(Action::JumpToMark(c)) is None,
        exit_for(Action::ExportHtml) is None,
        exit_for(Action::ZmdOpen(path)) is None,
        exit_for(Action::OpenCaseRef(path)) is None,
{
}

/// What follows once the loop was left.
pub proof fn law_after_the_loop(s: Session, cols: u16, rows: u16, line: usize, themes: nat)
    requires
        s.theme_index < themes <= usize::MAX,
    ensures
        s.after(LoopExit::Quit, themes) == After::Leave(ViewerExit::Quit),
        s.after(LoopExit::BufferNext, themes) == After::Leave(ViewerExit::BufferNext),
        s.after(LoopExit::BufferPrev, themes) == After::Leave(ViewerExit::BufferPrev),
        s.after(LoopExit::NextTheme, themes) == After::SaveTheme(
            s.stepped(LoopExit::NextTheme, line, themes).theme_index,
        ),
        s.after(LoopExit::PrevTheme, themes) == After::SaveTheme(
            s.stepped(LoopExit::PrevTheme, line, themes).theme_index,
        ),
        s.theme_index + 1 < themes ==> s.stepped(LoopExit::NextTheme, line, themes).theme_index
            == s.theme_index + 1,
        s.theme_index + 1 == themes ==> s.stepped(LoopExit::NextTheme, line, themes).theme_index
            == 0,
        s.theme_index > 0 ==> s.stepped(LoopExit::PrevTheme, line, themes).theme_index
            == s.theme_index - 1,
        s.theme_index == 0 ==> s.stepped(LoopExit::PrevTheme, line, themes).theme_index == themes
            - 1,
        s.after(LoopExit::StartSearch, themes) == After::AskQuery,
        s.after(LoopExit::OpenLink, themes) == After::PickLink,
        s.after(LoopExit::CopyBlock, themes) == After::PickCodeBlock,
        s.after(LoopExit::Reload, themes) == After::ReadFile,
        s.after(LoopExit::Resize(cols, rows), themes) == After::Render,
        s.after(LoopExit::GotoLine(line), themes) == After::Render,
        s.after(LoopExit::Redraw(line), themes) == After::Render,
        s.after(LoopExit::NextMatch, themes) == After::Render,
        s.after(LoopExit::PrevMatch, themes) == After::Render,
        s.after(LoopExit::ToggleToc, themes) == After::Render,
{
    law_ring_steps(s.theme_index as int, themes as int);
}

/// What leaving the loop changes in the session, and nothing else: the size, the row to go to, the
/// theme, the table of contents.
pub proof fn law_steps(
    s: Session,
    scroll: usize,
    cols: u16,
    rows: u16,
    line: usize,
    themes: nat,
)
    requires
        scroll < usize::MAX,
        line < usize::MAX,
    ensures
        s.stepped(LoopExit::Resize(cols, rows), scroll, themes) == (Session { cols, rows, ..s }),
        s.stepped(LoopExit::GotoLine(line), scroll, themes) == (Session {
            goto_line: Some(line),
            ..s
        }),
        s.stepped(LoopExit::Redraw(line), scroll, themes) == (Session {
            goto_line: Some((line + 1) as usize),
            ..s
        }),
        s.stepped(LoopExit::ToggleToc, scroll, themes).toc_visible == !s.toc_visible,
        s.stepped(LoopExit::ToggleToc, scroll, themes) == (Session {
            toc_visible: !s.toc_visible,
            goto_line: Some((scroll + 1) as usize),
            ..s
        }),
        s.stepped(LoopExit::OpenLink, scroll, themes) == (Session {
            goto_line: Some((scroll + 1) as usize),
            ..s
        }),
        s.stepped(LoopExit::CopyBlock, scroll, themes) == (Session {
            goto_line: Some((scroll + 1) as usize),
            ..s
        }),
        s.stepped(LoopExit::Quit, scroll, themes) == s,
        s.stepped(LoopExit::BufferNext, scroll, themes) == s,
        s.stepped(LoopExit::BufferPrev, scroll, themes) == s,
        s.stepped(LoopExit::StartSearch, scroll, themes) == s,
        s.stepped(LoopExit::Reload, scroll, themes) == s,
        s.stepped(LoopExit::NextTheme, scroll, themes) == (Session {
            theme_index: s.stepped(LoopExit::NextTheme, scroll, themes).theme_index,
            ..s
        }),
        s.stepped(LoopExit::PrevTheme, scroll, themes) == (Session {
            theme_index: s.stepped(LoopExit::PrevTheme, scroll, themes).theme_index,
            ..s
        }),
{
}

/// Going to the next match goes to the row of the match behind the current one, from the last to the
/// first; going to the previous one takes that back. Without matches nothing happens.
pub proof fn law_matches_are_visited_in_order(s: Session, scroll: usize, themes: nat)
    requires
        s.wf(),
        s.search.match_rows@.len() <= usize::MAX,
    ensures
        ({
            let n = s.search.match_rows@.len();
            let rows = s.search.match_rows@;
            let next = s.stepped(LoopExit::NextMatch, scroll, themes);
            let prev = s.stepped(LoopExit::PrevMatch, scroll, themes);
            &&& n == 0 ==> next == s && prev == s
            &&& n > 0 ==> {
                &&& next.search.current == (if s.search.current + 1 < n {
                    s.search.current + 1
                } else {
                    0
                })
                &&& next.goto_line == Some(rows[next.search.current as int])
                &&& prev.search.current == (if s.search.current > 0 {
                    s.search.current - 1
                } else {
                    n - 1
                })
                &&& prev.goto_line == Some(rows[prev.search.current as int])
                &&& next.search.match_rows == s.search.match_rows
                &&& prev.search.match_rows == s.search.match_rows
                &&& next.search.query == s.search.query
                &&& prev.search.query == s.search.query
                &&& next.stepped(LoopExit::PrevMatch, scroll, themes).search == s.search
                &&& prev.stepped(LoopExit::NextMatch, scroll, themes).search == s.search
                &&& next.theme_index == s.theme_index && prev.theme_index == s.theme_index
                &&& next.toc_visible == s.toc_visible && prev.toc_visible == s.toc_visible
                &&& next.cols == s.cols && next.rows == s.rows
                &&& prev.cols == s.cols && prev.rows == s.rows
            }
        }),
{
    let n = s.search.match_rows@.len() as int;
    if n > 0 {
        law_ring_steps(s.search.current as int, n);
        let next = s.stepped(LoopExit::NextMatch, scroll, themes);
        let prev = s.stepped(LoopExit::PrevMatch, scroll, themes);
        law_ring_steps(next.search.current as int, n);
        law_ring_steps(prev.search.current as int, n);
        assert(next.search.match_rows == s.search.match_rows);
        assert(prev.search.match_rows == s.search.match_rows);
    }
}

/// Header and footer take a row each and the padding two columns on either side; the content has at
/// least one row and one column.
pub proof fn law_content_size(cols: u16, rows: u16)
    ensures
        rows >= 3 ==> content_rows_of(rows) + 2 == rows,
        rows < 3 ==> content_rows_of(rows) == 1,
        cols >= 5 ==> inner_cols_of(cols) + 4 == cols,
        cols < 5 ==> inner_cols_of(cols) == 1,
{
}

/// The row to go to is counted from one; the rows above the view are counted from none.
pub proof fn law_rows_above(line: usize)
    ensures
        line > 0 ==> rows_above(Some(line)) == Some((line - 1) as usize),
        rows_above(Some(0)) == Some(0usize),
        rows_above(None) is None,
{
}

/// The diagrams that were rendered are those that have an image, in their order.
pub proof fn law_rendered_diagrams(pngs: Seq<Option<Seq<u8>>>, n: int, i: int)
    requires
        0 <= n <= pngs.len(),
    ensures
        forall|png: Seq<u8>| #[trigger]
            rendered_among(pngs, n).contains((i, png)) <==> 0 <= i < n && pngs[i] == Some(png),
        forall|j: int, k: int|
            0 <= j < k < rendered_among(pngs, n).len() ==> (#[trigger] rendered_among(
                pngs,
                n,
            )[j]).0 < (#[trigger] rendered_among(pngs, n)[k]).0,
        forall|j: int|
            0 <= j < rendered_among(pngs, n).len() ==> (#[trigger] rendered_among(pngs, n)[j]).0
                < n,
    decreases n,
{
    if n > 0 {
        law_rendered_diagrams(pngs, n - 1, i);
        let before = rendered_among(pngs, n - 1);
        let all = rendered_among(pngs, n);
        assert forall|png: Seq<u8>| #[trigger] all.contains((i, png)) <==> 0 <= i < n && pngs[i]
            == Some(png) by {
            if before.contains((i, png)) {
                let j = choose|j: int| 0 <= j < before.len() && before[j] == (i, png);
                assert(all[j] == (i, png));
            }
            if i == n - 1 && pngs[i] == Some(png) {
                assert(all.last() == (i, png));
            }
            if all.contains((i, png)) {
                let j = choose|j: int| 0 <= j < all.len() && all[j] == (i, png);
                if j < before.len() {
                    assert(before[j] == (i, png));
                }
            }
        }
    }
}

/// A document holds its text and all that is found in it, each from the first line on; its images
/// and diagrams only where they can be shown.
pub proof fn law_documents_hold_what_is_found(
    document: Document,
    markdown: Seq<char>,
    base_dir: Seq<char>,
    graphics: bool,
)
    requires
        document.is_of(markdown, base_dir, graphics),
    ensures
        document.markdown@ == markdown,
        heading_views(document.headings@) == headings_among(lines_of(markdown)),
        code_views(document.code_blocks@) == code_blocks_from(lines_of(markdown), 0),
        link_views(document.links@) == with_bare_links(
            inline_links(found(MD_LINK@, markdown)),
            found(BARE_URL@, markdown),
        ),
        graphics ==> ref_views(document.images@) == images_found(
            image_matches(lines_of(markdown)),
            base_dir,
        ),
        graphics ==> diagram_views(document.diagrams@) == diagrams_from(lines_of(markdown), 0),
        !graphics ==> document.images@.len() == 0 && document.diagrams@.len() == 0,
{
}

/// Whether the file is looked at after a frame.
pub open spec fn watched_after(frame: int) -> bool {
    frame % 60 == 0
}

/// The file is looked at after one of any sixty frames that follow each other, and the first is one
/// of them.
pub proof fn law_watching(frame: int, k: int)
    requires
        0 <= frame,
        0 < k < 60,
    ensures
        watched_after(0),
        watched_after(frame) ==> watched_after(frame + 60) && !watched_after(frame + k),
        watched_after(frame) || watched_after(frame + (60 - frame % 60)),
{
}

/// What a look at the time of the last change gives: whether the file has changed, and the time
/// that is remembered.
pub open spec fn looked_at(last: Option<u128>, now: Option<u128>) -> (bool, Option<u128>) {
    (now is Some && last is Some && now != last, if now is Some {
        now
    } else {
        last
    })
}

/// A file has changed where it was written between two looks; not at the first look, not where the
/// time is the same, and a time that cannot be told changes nothing.
pub proof fn law_changes(last: Option<u128>, a: u128, b: u128)
    ensures
        looked_at(None, Some(a)) == (false, Some(a)),
        looked_at(Some(a), Some(b)).0 <==> a != b,
        looked_at(Some(a), Some(b)).1 == Some(b),
        looked_at(last, None) == (false, last),
        looked_at(looked_at(looked_at(last, Some(a)).1, None).1, Some(a)).0 == false,
{
}

/// Whether the viewer is interactive.
pub open spec fn interactive(is_terminal: bool, cols: u16, rows: u16) -> bool {
    is_terminal && cols > 0 && rows > 0
}

/// The viewer is interactive on every terminal that has a cell, and nowhere else.
pub proof fn law_interactive(is_terminal: bool, cols: u16, rows: u16)
    ensures
        interactive(true, cols, rows) <==> cols * rows > 0,
        !interactive(false, cols, rows),
{
    assert(cols * rows > 0 <==> cols > 0 && rows > 0) by (nonlinear_arith)
        requires
            cols >= 0,
            rows >= 0,
    ;
}

} // verus!
