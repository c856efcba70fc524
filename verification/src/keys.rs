//! Keys and other input, and what the viewer does about them.

use vstd::prelude::*;

use crate::paths::optional_string;
use crate::text::{ascii_lower, chars_of, lower_char, string_of};

verus! {

/// A key on the keyboard.
#[derive(Debug, Clone, Copy, PartialEq, Eq, Structural)]
pub enum Key {
    Char(char),
    Esc,
    Enter,
    Backspace,
    Tab,
    Up,
    Down,
    Left,
    Right,
    Home,
    End,
    PageUp,
    PageDown,
    /// Any other key.
    Other,
}

/// No modifier key is held.
pub const NONE: u8 = 0;

/// The bit of the shift key; alone, no other modifier is held.
pub const SHIFT: u8 = 1;

/// The bit of the control key; alone, no other modifier is held.
pub const CONTROL: u8 = 2;

/// Something that the terminal reports.
#[derive(Debug, Clone, Copy, PartialEq, Eq, Structural)]
pub enum Event {
    /// A key, and the bits of the modifiers that are held with it.
    Key(Key, u8),
    /// The new width and height of the terminal.
    Resize(u16, u16),
    /// The mouse wheel was turned up.
    WheelUp,
    /// The mouse wheel was turned down.
    WheelDown,
    /// Anything else.
    Other,
}

/// Result of processing one input cycle.
#[derive(Debug, Clone, PartialEq, Eq)]
pub enum Action {
    Continue,
    Quit,
    Resize(u16, u16),
    NextTheme,
    PrevTheme,
    /// Jump to a specific line (e.g. from heading navigation).
    GotoLine(usize),
    /// Force a full redraw (e.g. after an overlay dirtied the screen).
    /// Carries the scroll offset to restore after repaint.
    Redraw(usize),
    /// Enter search mode (user pressed `/`).
    StartSearch,
    /// Jump to the next search match.
    NextMatch,
    /// Jump to the previous search match.
    PrevMatch,
    /// Toggle the table of contents sidebar.
    ToggleToc,
    /// Open link picker (user pressed `l`).
    OpenLink,
    /// Open code block picker for clipboard copy (user pressed `c`).
    CopyBlock,
    /// Toggle zen mode (hide header/footer for full-screen content).
    ToggleZen,
    /// Switch to the next buffer in the ring (Ctrl-n).
    BufferNext,
    /// Switch to the previous buffer in the ring (Ctrl-p).
    BufferPrev,
    /// Scroll right (horizontal panning).
    ScrollRight,
    /// Scroll left (horizontal panning).
    ScrollLeft,
    /// Show keybinding help overlay.
    ShowHelp,
    /// Toggle follow/tail mode (auto-scroll on file changes).
    ToggleFollow,
    /// Set a mark at the current scroll position (user pressed `m`).
    SetMark(char),
    /// Jump to a previously set mark (user pressed `'`).
    JumpToMark(char),
    /// Export the current document to HTML.
    ExportHtml,
    /// Open a file selected via semantic search (user pressed `S`).
    ZmdOpen(String),
    /// Open a referenced precedent (user pressed `r`).
    OpenCaseRef(String),
}

/// How the view moves over the content.
#[derive(Debug, Clone, Copy, PartialEq, Eq, Structural)]
pub enum Scroll {
    /// By rows, down where positive.
    Delta(i32),
    Top,
    Bottom,
}

/// What one input asks for.
#[derive(Debug, Clone, PartialEq, Eq)]
pub enum Step {
    /// This action.
    Do(Action),
    /// Moving the view; nothing else.
    Move(Scroll),
    /// A letter, to set a mark at (`true`) or to jump to.
    AskMark(bool),
    /// The heading picker.
    PickHeading,
    /// The search in notes.
    SearchNotes,
    /// The picker of referenced cases.
    PickCase,
}

/// What a key asks for. `page` is the number of visible rows; `notes` says whether there is a
/// collection of notes to search in.
pub open spec fn key_step(key: Key, held: u8, page: u16, notes: bool) -> Step {
    if key == Key::Char('q') || key == Key::Esc || (key == Key::Char('c') && held == CONTROL) {
        Step::Do(Action::Quit)
    } else if key == Key::Char('t') && held == NONE {
        Step::Do(Action::NextTheme)
    } else if key == Key::Char('T') && held == SHIFT {
        Step::Do(Action::PrevTheme)
    } else if key == Key::Char('/') && held == NONE {
        Step::Do(Action::StartSearch)
    } else if key == Key::Char('n') && held == NONE {
        Step::Do(Action::NextMatch)
    } else if key == Key::Char('N') && held == SHIFT {
        Step::Do(Action::PrevMatch)
    } else if key == Key::Char('?') {
        Step::Do(Action::ShowHelp)
    } else if key == Key::Tab {
        Step::Do(Action::ToggleToc)
    } else if key == Key::Char('l') && held == NONE {
        Step::Do(Action::OpenLink)
    } else if key == Key::Char('c') && held == NONE {
        Step::Do(Action::CopyBlock)
    } else if key == Key::Char('e') && held == NONE {
        Step::Do(Action::ExportHtml)
    } else if key == Key::Char('z') && (held == NONE || held == CONTROL) {
        Step::Do(Action::ToggleZen)
    } else if key == Key::Char('F') && held == SHIFT {
        Step::Do(Action::ToggleFollow)
    } else if key == Key::Char('m') && held == NONE {
        Step::AskMark(true)
    } else if key == Key::Char('\'') {
        Step::AskMark(false)
    } else if key == Key::Char('n') && held == CONTROL {
        Step::Do(Action::BufferNext)
    } else if key == Key::Char('p') && held == CONTROL {
        Step::Do(Action::BufferPrev)
    } else if key == Key::Char('s') && held == NONE {
        Step::PickHeading
    } else if key == Key::Char('S') && held == SHIFT {
        if notes {
            Step::SearchNotes
        } else {
            Step::Do(Action::Continue)
        }
    } else if key == Key::Char('r') && held == NONE {
        if notes {
            Step::PickCase
        } else {
            Step::Do(Action::Continue)
        }
    } else if key == Key::Down || key == Key::Char('j') {
        Step::Move(Scroll::Delta(1))
    } else if key == Key::Up || key == Key::Char('k') {
        Step::Move(Scroll::Delta((-1) as i32))
    } else if key == Key::PageDown || key == Key::Char(' ') || (key == Key::Char('f') && held
        == CONTROL) {
        Step::Move(Scroll::Delta(page as i32))
    } else if key == Key::PageUp || (key == Key::Char('b') && held == CONTROL) {
        Step::Move(Scroll::Delta((-page) as i32))
    } else if key == Key::Char('d') && held == CONTROL {
        Step::Move(Scroll::Delta((page as int / 2) as i32))
    } else if key == Key::Char('u') && held == CONTROL {
        Step::Move(Scroll::Delta((-(page as int / 2)) as i32))
    } else if key == Key::Char('g') || key == Key::Home {
        Step::Move(Scroll::Top)
    } else if key == Key::Char('G') || key == Key::End {
        Step::Move(Scroll::Bottom)
    } else if key == Key::Right || (key == Key::Char('L') && held == SHIFT) {
        Step::Do(Action::ScrollRight)
    } else if key == Key::Left || (key == Key::Char('H') && held == SHIFT) {
        Step::Do(Action::ScrollLeft)
    } else {
        Step::Do(Action::Continue)
    }
}

/// What an input asks for; nothing where none came in time.
pub open spec fn event_step(event: Option<Event>, page: u16, notes: bool) -> Step {
    match event {
        Some(Event::Key(key, held)) => key_step(key, held, page, notes),
        Some(Event::Resize(cols, rows)) => Step::Do(Action::Resize(cols, rows)),
        Some(Event::WheelUp) => Step::Move(Scroll::Delta((-3) as i32)),
        Some(Event::WheelDown) => Step::Move(Scroll::Delta(3)),
        _ => Step::Do(Action::Continue),
    }
}

fn on_key(key: Key, held: u8, page: u16, notes: bool) -> (step: Step)
    ensures
        step == key_step(key, held, page, notes),
{
    match key {
        Key::Esc => Step::Do(Action::Quit),
        Key::Tab => Step::Do(Action::ToggleToc),
        Key::Down => Step::Move(Scroll::Delta(1)),
        Key::Up => Step::Move(Scroll::Delta(-1)),
        Key::PageDown => Step::Move(Scroll::Delta(page as i32)),
        Key::PageUp => Step::Move(Scroll::Delta(-(page as i32))),
        Key::Home => Step::Move(Scroll::Top),
        Key::End => Step::Move(Scroll::Bottom),
        Key::Right => Step::Do(Action::ScrollRight),
        Key::Left => Step::Do(Action::ScrollLeft),
        Key::Char(c) => on_char(c, held, page, notes),
        _ => Step::Do(Action::Continue),
    }
}

fn on_char(c: char, held: u8, page: u16, notes: bool) -> (step: Step)
    ensures
        step == key_step(Key::Char(c), held, page, notes),
{
    if c == 'q' {
        Step::Do(Action::Quit)
    } else if c == '?' {
        Step::Do(Action::ShowHelp)
    } else if c == '\'' {
        Step::AskMark(false)
    } else if c == 'j' {
        Step::Move(Scroll::Delta(1))
    } else if c == 'k' {
        Step::Move(Scroll::Delta(-1))
    } else if c == ' ' {
        Step::Move(Scroll::Delta(page as i32))
    } else if c == 'g' {
        Step::Move(Scroll::Top)
    } else if c == 'G' {
        Step::Move(Scroll::Bottom)
    } else if held == NONE {
        on_plain_char(c, notes)
    } else if held == SHIFT {
        on_shift_char(c, notes)
    } else if held == CONTROL {
        on_control_char(c, page)
    } else {
        Step::Do(Action::Continue)
    }
}

fn on_plain_char(c: char, notes: bool) -> (step: Step)
    requires
        c != 'q' && c != '?' && c != '\'' && c != 'j' && c != 'k' && c != ' ' && c != 'g' && c
            != 'G',
    ensures
        forall|page: u16| step == #[trigger] key_step(Key::Char(c), NONE, page, notes),
{
    match c {
        't' => Step::Do(Action::NextTheme),
        '/' => Step::Do(Action::StartSearch),
        'n' => Step::Do(Action::NextMatch),
        'l' => Step::Do(Action::OpenLink),
        'c' => Step::Do(Action::CopyBlock),
        'e' => Step::Do(Action::ExportHtml),
        'z' => Step::Do(Action::ToggleZen),
        'm' => Step::AskMark(true),
        's' => Step::PickHeading,
        'r' => if notes {
            Step::PickCase
        } else {
            Step::Do(Action::Continue)
        },
        _ => Step::Do(Action::Continue),
    }
}

fn on_shift_char(c: char, notes: bool) -> (step: Step)
    requires
        c != 'q' && c != '?' && c != '\'' && c != 'j' && c != 'k' && c != ' ' && c != 'g' && c
            != 'G',
    ensures
        forall|page: u16| step == #[trigger] key_step(Key::Char(c), SHIFT, page, notes),
{
    match c {
        'T' => Step::Do(Action::PrevTheme),
        'N' => Step::Do(Action::PrevMatch),
        'F' => Step::Do(Action::ToggleFollow),
        'L' => Step::Do(Action::ScrollRight),
        'H' => Step::Do(Action::ScrollLeft),
        'S' => if notes {
            Step::SearchNotes
        } else {
            Step::Do(Action::Continue)
        },
        _ => Step::Do(Action::Continue),
    }
}

fn on_control_char(c: char, page: u16) -> (step: Step)
    requires
        c != 'q' && c != '?' && c != '\'' && c != 'j' && c != 'k' && c != ' ' && c != 'g' && c
            != 'G',
    ensures
        forall|notes: bool| step == #[trigger] key_step(Key::Char(c), CONTROL, page, notes),
{
    match c {
        'c' => Step::Do(Action::Quit),
        'z' => Step::Do(Action::ToggleZen),
        'n' => Step::Do(Action::BufferNext),
        'p' => Step::Do(Action::BufferPrev),
        'f' => Step::Move(Scroll::Delta(page as i32)),
        'b' => Step::Move(Scroll::Delta(-(page as i32))),
        'd' => Step::Move(Scroll::Delta((page / 2) as i32)),
        'u' => Step::Move(Scroll::Delta(-((page / 2) as i32))),
        _ => Step::Do(Action::Continue),
    }
}

/// What one input asks for.
///
/// `content_rows` is the number of visible content rows, by which pages are measured;
/// `notes` says whether there is a collection of notes.
pub fn poll(event: Option<Event>, content_rows: u16, notes: bool) -> (step: Step)
    ensures
        step == event_step(event, content_rows, notes),
{
    match event {
        Some(Event::Key(key, held)) => on_key(key, held, content_rows, notes),
        Some(Event::Resize(cols, rows)) => Step::Do(Action::Resize(cols, rows)),
        Some(Event::WheelUp) => Step::Move(Scroll::Delta(-3)),
        Some(Event::WheelDown) => Step::Move(Scroll::Delta(3)),
        _ => Step::Do(Action::Continue),
    }
}

/// The letter `a` to `z` that a key stands for, in either case.
pub open spec fn mark_letter(event: Option<Event>) -> Option<char> {
    match event {
        Some(Event::Key(Key::Char(c), _)) => if 'a' <= ascii_lower(c) <= 'z' {
            Some(ascii_lower(c))
        } else {
            None
        },
        _ => None,
    }
}

/// The mark that the next input names: a letter `a` to `z`. Anything else, or none in time,
/// cancels.
pub fn read_mark_char(event: Option<Event>) -> (mark: Option<char>)
    ensures
        mark == mark_letter(event),
{
    match event {
        Some(Event::Key(Key::Char(c), _)) => {
            let lower: char = lower_char(c);
            if 'a' <= lower && lower <= 'z' {
                Some(lower)
            } else {
                None
            }
        },
        _ => None,
    }
}

/// The action once the user was asked for a mark.
pub fn after_mark(set: bool, mark: Option<char>) -> (action: Action)
    ensures
        action == mark_action(set, mark),
        action == match mark {
            Some(c) => if set {
                Action::SetMark(c)
            } else {
                Action::JumpToMark(c)
            },
            None => Action::Continue,
        },
{
    match mark {
        Some(c) => if set {
            Action::SetMark(c)
        } else {
            Action::JumpToMark(c)
        },
        None => Action::Continue,
    }
}

/// The action once the user was shown the heading picker at the given scroll offset.
pub fn after_heading_pick(row: Option<usize>, scroll: usize) -> (action: Action)
    ensures
        action == pick_action(row, scroll, |n: usize| Action::GotoLine(n)),
        action == match row {
            Some(line) => Action::GotoLine(line),
            None => Action::Redraw(scroll),
        },
{
    match row {
        Some(line) => Action::GotoLine(line),
        None => Action::Redraw(scroll),
    }
}

/// The action once the user was shown the search in notes at the given scroll offset.
pub fn after_note_pick(path: Option<String>, scroll: usize) -> (action: Action)
    ensures
        action == pick_action(path, scroll, |p: String| Action::ZmdOpen(p)),
        action == match path {
            Some(p) => Action::ZmdOpen(p),
            None => Action::Redraw(scroll),
        },
{
    match path {
        Some(p) => Action::ZmdOpen(p),
        None => Action::Redraw(scroll),
    }
}

/// The action once the user was shown the picker of cases at the given scroll offset.
pub fn after_case_pick(path: Option<String>, scroll: usize) -> (action: Action)
    ensures
        action == pick_action(path, scroll, |p: String| Action::OpenCaseRef(p)),
        action == match path {
            Some(p) => Action::OpenCaseRef(p),
            None => Action::Redraw(scroll),
        },
{
    match path {
        Some(p) => Action::OpenCaseRef(p),
        None => Action::Redraw(scroll),
    }
}

// ---------------------------------------------------------------- the search prompt

/// What an input does to the search prompt.
#[derive(Debug, Clone, PartialEq, Eq)]
pub enum PromptStep {
    /// The query is now this; the prompt stays.
    Edit(String),
    /// The prompt ends, with a query or without.
    Finish(Option<String>),
}

/// What a [`PromptStep`] stands for.
pub enum PromptView {
    Edit(Seq<char>),
    Finish(Option<Seq<char>>),
}

impl View for PromptStep {
    type V = PromptView;

    open spec fn view(&self) -> PromptView {
        match self {
            PromptStep::Edit(s) => PromptView::Edit(s@),
            PromptStep::Finish(s) => PromptView::Finish(optional_string(*s)),
        }
    }
}

/// What an input does to the search prompt: Enter takes the query, unless it is empty; Esc and
/// Ctrl-c cancel; Backspace removes the last character; any other character is added.
pub open spec fn prompt_step(query: Seq<char>, event: Event) -> PromptView {
    match event {
        Event::Key(Key::Enter, _) => PromptView::Finish(
            if query.len() == 0 {
                None
            } else {
                Some(query)
            },
        ),
        Event::Key(Key::Esc, _) => PromptView::Finish(None),
        Event::Key(Key::Backspace, _) => PromptView::Edit(
            if query.len() == 0 {
                query
            } else {
                query.drop_last()
            },
        ),
        Event::Key(Key::Char(c), held) => if c == 'c' && held == CONTROL {
            PromptView::Finish(None)
        } else {
            PromptView::Edit(query.push(c))
        },
        _ => PromptView::Edit(query),
    }
}

/// What an input does to the search prompt.
pub fn search_prompt(query: &str, event: Event) -> (step: PromptStep)
    ensures
        step@ == prompt_step(query@, event),
{
    let mut chars = chars_of(query);
    match event {
        Event::Key(Key::Enter, _) => if chars.len() == 0 {
            PromptStep::Finish(None)
        } else {
            PromptStep::Finish(Some(string_of(&chars)))
        },
        Event::Key(Key::Esc, _) => PromptStep::Finish(None),
        Event::Key(Key::Backspace, _) => {
            chars.pop();
            PromptStep::Edit(string_of(&chars))
        },
        Event::Key(Key::Char(c), held) => if c == 'c' && held == CONTROL {
            PromptStep::Finish(None)
        } else {
            chars.push(c);
            PromptStep::Edit(string_of(&chars))
        },
        _ => PromptStep::Edit(string_of(&chars)),
    }
}

// ---------------------------------------------------------------- waiting

/// What an input does while the terminal is too small.
#[derive(Debug, Clone, Copy, PartialEq, Eq, Structural)]
pub enum Wait {
    /// Go on with the new size.
    Resized(u16, u16),
    Quit,
    /// Keep waiting.
    Keep,
}

/// What an input does while the terminal is too small: a new size or a key that quits ends the
/// wait. With the control key held, other modifiers do not matter.
pub open spec fn wait_step(event: Event) -> Wait {
    match event {
        Event::Resize(cols, rows) => Wait::Resized(cols, rows),
        Event::Key(Key::Esc, _) => Wait::Quit,
        Event::Key(Key::Char(c), held) => if c == 'q' || (c == 'c' && held as int / 2 % 2 == 1) {
            Wait::Quit
        } else {
            Wait::Keep
        },
        _ => Wait::Keep,
    }
}

/// What an input does while the terminal is too small.
pub fn wait_for_resize_or_quit(event: Event) -> (wait: Wait)
    ensures
        wait == wait_step(event),
{
    match event {
        Event::Resize(cols, rows) => Wait::Resized(cols, rows),
        Event::Key(Key::Esc, _) => Wait::Quit,
        Event::Key(Key::Char(c), held) => if c == 'q' || (c == 'c' && held / 2 % 2 == 1) {
            Wait::Quit
        } else {
            Wait::Keep
        },
        _ => Wait::Keep,
    }
}

/// Whether an input ends the display of an image: `q`, Esc or Enter.
pub fn ends_image(event: Event) -> (r: bool)
    ensures
        r == leaves_image(event),
        r == (match event {
            Event::Key(key, _) => key == Key::Char('q') || key == Key::Esc || key == Key::Enter,
            _ => false,
        }),
{
    match event {
        Event::Key(Key::Char(c), _) => c == 'q',
        Event::Key(Key::Esc, _) => true,
        Event::Key(Key::Enter, _) => true,
        _ => false,
    }
}

// ---------------------------------------------------------------- laws

/// The keys that users rely on, whatever the page's height and whether there are notes: `q`,
/// Esc and Ctrl-c quit; `j` and Down scroll down a row, `k` and Up back up; Page Down and space
/// scroll down a page, Page Up back up; `g` and Home go to the top, `G` and End to the bottom;
/// `t` and `T` change the theme; `s` searches headings.
pub proof fn law_keybindings(held: u8, page: u16, notes: bool)
    ensures
        key_step(Key::Char('q'), held, page, notes) == Step::Do(Action::Quit),
        key_step(Key::Esc, held, page, notes) == Step::Do(Action::Quit),
        key_step(Key::Char('c'), CONTROL, page, notes) == Step::Do(Action::Quit),
        key_step(Key::Char('j'), held, page, notes) == Step::Move(Scroll::Delta(1)),
        key_step(Key::Down, held, page, notes) == Step::Move(Scroll::Delta(1)),
        key_step(Key::Char('k'), held, page, notes) == Step::Move(Scroll::Delta((-1) as i32)),
        key_step(Key::Up, held, page, notes) == Step::Move(Scroll::Delta((-1) as i32)),
        key_step(Key::PageDown, held, page, notes) == Step::Move(Scroll::Delta(page as i32)),
        key_step(Key::Char(' '), held, page, notes) == Step::Move(Scroll::Delta(page as i32)),
        key_step(Key::PageUp, held, page, notes) == Step::Move(Scroll::Delta((-page) as i32)),
        key_step(Key::Home, held, page, notes) == Step::Move(Scroll::Top),
        key_step(Key::Char('g'), held, page, notes) == Step::Move(Scroll::Top),
        key_step(Key::End, held, page, notes) == Step::Move(Scroll::Bottom),
        key_step(Key::Char('G'), held, page, notes) == Step::Move(Scroll::Bottom),
        key_step(Key::Char('t'), NONE, page, notes) == Step::Do(Action::NextTheme),
        key_step(Key::Char('T'), SHIFT, page, notes) == Step::Do(Action::PrevTheme),
        key_step(Key::Char('s'), NONE, page, notes) == Step::PickHeading,
{
}

/// Backspace takes back what was typed into the prompt.
pub proof fn law_backspace_undoes(query: Seq<char>, c: char, held: u8)
    requires
        c != 'c' || held != CONTROL,
    ensures
        prompt_step(query, Event::Key(Key::Char(c), held)) == PromptView::Edit(query.push(c)),
        prompt_step(query.push(c), Event::Key(Key::Backspace, held)) == PromptView::Edit(query),
{
    assert(query.push(c).drop_last() =~= query);
}

/// The mouse wheel moves the view three rows, up by a negative number of rows and down by a positive
/// one, so that turning it up and down again moves nothing.
pub proof fn law_wheel(page: u16, notes: bool)
    ensures
        event_step(Some(Event::WheelUp), page, notes) == Step::Move(Scroll::Delta(-3i32)),
        event_step(Some(Event::WheelDown), page, notes) == Step::Move(Scroll::Delta(3i32)),
        ({
            let up = event_step(Some(Event::WheelUp), page, notes)->Move_0->Delta_0;
            let down = event_step(Some(Event::WheelDown), page, notes)->Move_0->Delta_0;
            up < 0 < down && up + down == 0
        }),
{
}

/// What is not a key: a new size is handed on as it is, and anything else does nothing.
pub proof fn law_other_events(cols: u16, rows: u16, page: u16, notes: bool)
    ensures
        event_step(Some(Event::Resize(cols, rows)), page, notes) == Step::Do(
            Action::Resize(cols, rows),
        ),
        event_step(Some(Event::Other), page, notes) == Step::Do(Action::Continue),
        event_step(None, page, notes) == Step::Do(Action::Continue),
{
}

/// Events of keys are those of the keys.
pub proof fn law_key_events(key: Key, held: u8, page: u16, notes: bool)
    ensures
        event_step(Some(Event::Key(key, held)), page, notes) == key_step(key, held, page, notes),
{
}

/// The keys by which the view moves come in pairs: what one of them moves, the other moves back.
/// Half pages are rounded down.
pub proof fn law_moves_come_in_pairs(held: u8, page: u16, notes: bool)
    ensures
        key_step(Key::Char('f'), 2, page, notes) == key_step(Key::PageDown, held, page, notes),
        key_step(Key::Char('b'), 2, page, notes) == key_step(Key::PageUp, held, page, notes),
        ({
            let rows_for = |k: Key, h: u8| key_step(k, h, page, notes)->Move_0->Delta_0;
            &&& key_step(Key::Char('d'), 2, page, notes) matches Step::Move(Scroll::Delta(_))
            &&& key_step(Key::Char('u'), 2, page, notes) matches Step::Move(Scroll::Delta(_))
            &&& rows_for(Key::PageDown, held) == page
            &&& rows_for(Key::PageDown, held) + rows_for(Key::PageUp, held) == 0
            &&& rows_for(Key::Down, held) + rows_for(Key::Up, held) == 0
            &&& rows_for(Key::Char('j'), held) + rows_for(Key::Char('k'), held) == 0
            &&& rows_for(Key::Char('d'), 2) + rows_for(Key::Char('u'), 2) == 0
            &&& 2 * rows_for(Key::Char('d'), 2) <= page < 2 * rows_for(Key::Char('d'), 2) + 2
        }),
{
}

/// What the letters and the other keys start, with the modifiers that are held.
pub proof fn law_commands(held: u8, page: u16, notes: bool)
    ensures
        key_step(Key::Char('/'), 0, page, notes) == Step::Do(Action::StartSearch),
        key_step(Key::Char('n'), 0, page, notes) == Step::Do(Action::NextMatch),
        key_step(Key::Char('N'), 1, page, notes) == Step::Do(Action::PrevMatch),
        key_step(Key::Char('?'), held, page, notes) == Step::Do(Action::ShowHelp),
        key_step(Key::Tab, held, page, notes) == Step::Do(Action::ToggleToc),
        key_step(Key::Char('l'), 0, page, notes) == Step::Do(Action::OpenLink),
        key_step(Key::Char('c'), 0, page, notes) == Step::Do(Action::CopyBlock),
        key_step(Key::Char('e'), 0, page, notes) == Step::Do(Action::ExportHtml),
        key_step(Key::Char('z'), 0, page, notes) == Step::Do(Action::ToggleZen),
        key_step(Key::Char('z'), 2, page, notes) == Step::Do(Action::ToggleZen),
        key_step(Key::Char('F'), 1, page, notes) == Step::Do(Action::ToggleFollow),
        key_step(Key::Char('m'), 0, page, notes) == Step::AskMark(true),
        key_step(Key::Char('\''), held, page, notes) == Step::AskMark(false),
        key_step(Key::Char('n'), 2, page, notes) == Step::Do(Action::BufferNext),
        key_step(Key::Char('p'), 2, page, notes) == Step::Do(Action::BufferPrev),
        key_step(Key::Char('s'), 0, page, notes) == Step::PickHeading,
        key_step(Key::Char('S'), 1, page, true) == Step::SearchNotes,
        key_step(Key::Char('S'), 1, page, false) == Step::Do(Action::Continue),
        key_step(Key::Char('r'), 0, page, true) == Step::PickCase,
        key_step(Key::Char('r'), 0, page, false) == Step::Do(Action::Continue),
        key_step(Key::Char('t'), 0, page, notes) == Step::Do(Action::NextTheme),
        key_step(Key::Char('T'), 1, page, notes) == Step::Do(Action::PrevTheme),
        key_step(Key::Right, held, page, notes) == Step::Do(Action::ScrollRight),
        key_step(Key::Char('L'), 1, page, notes) == Step::Do(Action::ScrollRight),
        key_step(Key::Left, held, page, notes) == Step::Do(Action::ScrollLeft),
        key_step(Key::Char('H'), 1, page, notes) == Step::Do(Action::ScrollLeft),
        key_step(Key::Char('c'), 2, page, notes) == Step::Do(Action::Quit),
{
}

/// No other key does anything: whatever a key starts or moves, it is one of those for it.
pub proof fn law_no_other_keys(key: Key, held: u8, page: u16, notes: bool)
    requires
        key != Key::Char('q'),
        key != Key::Esc,
        key != Key::Char('?'),
        key != Key::Tab,
        key != Key::Char('\''),
        key != Key::Down,
        key != Key::Char('j'),
        key != Key::Up,
        key != Key::Char('k'),
        key != Key::PageDown,
        key != Key::Char(' '),
        key != Key::PageUp,
        key != Key::Char('g'),
        key != Key::Home,
        key != Key::Char('G'),
        key != Key::End,
        key != Key::Right,
        key != Key::Left,
        held == 0 ==> key != Key::Char('t') && key != Key::Char('/') && key != Key::Char('n')
            && key != Key::Char('l') && key != Key::Char('c') && key != Key::Char('e') && key
            != Key::Char('z') && key != Key::Char('m') && key != Key::Char('s') && (notes ==> key
            != Key::Char('r')),
        held == 1 ==> key != Key::Char('T') && key != Key::Char('N') && key != Key::Char('F') && key
            != Key::Char('L') && key != Key::Char('H') && (notes ==> key != Key::Char('S')),
        held == 2 ==> key != Key::Char('c') && key != Key::Char('z') && key != Key::Char('n') && key
            != Key::Char('p') && key != Key::Char('f') && key != Key::Char('b') && key
            != Key::Char('d') && key != Key::Char('u'),
    ensures
        key_step(key, held, page, notes) == Step::Do(Action::Continue),
{
}

/// A mark has a letter, which is the same in capitals; nothing else is one.
pub proof fn law_mark_letters(c: char, held: u8, event: Event)
    ensures
        'a' <= c <= 'z' ==> mark_letter(Some(Event::Key(Key::Char(c), held))) == Some(c),
        'A' <= c <= 'Z' ==> mark_letter(Some(Event::Key(Key::Char(c), held))) == Some(
            (c as int - 'A' as int + 'a' as int) as char,
        ),
        !('a' <= c <= 'z') && !('A' <= c <= 'Z') ==> mark_letter(
            Some(Event::Key(Key::Char(c), held)),
        ) is None,
        !(event matches Event::Key(Key::Char(_), _)) ==> mark_letter(Some(event)) is None,
        mark_letter(None) is None,
{
}

/// The prompt ends with what was typed, or without anything where nothing was typed or it was
/// given up.
pub proof fn law_prompt_ends(query: Seq<char>, held: u8)
    ensures
        query.len() > 0 ==> prompt_step(query, Event::Key(Key::Enter, held)) == PromptView::Finish(
            Some(query),
        ),
        prompt_step(seq![], Event::Key(Key::Enter, held)) == PromptView::Finish(None),
        prompt_step(query, Event::Key(Key::Esc, held)) == PromptView::Finish(None),
        prompt_step(query, Event::Key(Key::Char('c'), 2)) == PromptView::Finish(None),
        prompt_step(seq![], Event::Key(Key::Backspace, held)) == PromptView::Edit(seq![]),
{
}

/// What is neither a character nor a key of the prompt leaves the query as it is.
pub proof fn law_prompt_keeps_query(query: Seq<char>, event: Event)
    requires
        match event {
            Event::Key(key, _) => !(key matches Key::Char(_)) && key != Key::Enter && key
                != Key::Esc && key != Key::Backspace,
            _ => true,
        },
    ensures
        prompt_step(query, event) == PromptView::Edit(query),
{
}

/// On a screen that is too small only a new size and the keys to quit count; control may be held
/// along with other modifiers.
pub proof fn law_waiting(cols: u16, rows: u16, held: u8, key: Key)
    ensures
        wait_step(Event::Resize(cols, rows)) == Wait::Resized(cols, rows),
        wait_step(Event::Key(Key::Esc, held)) == Wait::Quit,
        wait_step(Event::Key(Key::Char('q'), held)) == Wait::Quit,
        wait_step(Event::Key(Key::Char('c'), 2)) == Wait::Quit,
        wait_step(Event::Key(Key::Char('c'), 3)) == Wait::Quit,
        wait_step(Event::Key(Key::Char('c'), 0)) == Wait::Keep,
        wait_step(Event::Key(Key::Char('c'), 1)) == Wait::Keep,
        key != Key::Esc && key != Key::Char('q') && key != Key::Char('c') ==> wait_step(
            Event::Key(key, held),
        ) == Wait::Keep,
        wait_step(Event::WheelUp) == Wait::Keep,
        wait_step(Event::WheelDown) == Wait::Keep,
        wait_step(Event::Other) == Wait::Keep,
{
}

/// A step of the prompt stands for the query it holds.
pub proof fn law_prompt_steps_stand_for_themselves(query: String)
    ensures
        PromptStep::Edit(query)@ == PromptView::Edit(query@),
        PromptStep::Finish(Some(query))@ == PromptView::Finish(Some(query@)),
        PromptStep::Finish(None)@ == PromptView::Finish(None),
{
}

/// What follows once a mark was asked for.
pub open spec fn mark_action(set: bool, mark: Option<char>) -> Action {
    match mark {
        Some(c) => if set {
            Action::SetMark(c)
        } else {
            Action::JumpToMark(c)
        },
        None => Action::Continue,
    }
}

/// A letter is set as a mark or jumped to, the letter that was given; without one nothing happens.
pub proof fn law_marks(c: char, set: bool)
    ensures
        mark_action(true, Some(c)) matches Action::SetMark(m) && m == c,
        mark_action(false, Some(c)) matches Action::JumpToMark(m) && m == c,
        mark_action(set, None) == Action::Continue,
{
}

/// What follows once something could be picked: something to do with it, or drawing the screen
/// again.
pub open spec fn pick_action<T>(picked: Option<T>, scroll: usize, f: spec_fn(T) -> Action) -> Action {
    match picked {
        Some(t) => f(t),
        None => Action::Redraw(scroll),
    }
}

/// What was picked is what is gone to or opened; where nothing was, the screen is drawn again at the
/// row it was at.
pub proof fn law_picks<T>(picked: T, scroll: usize, f: spec_fn(T) -> Action)
    ensures
        pick_action(Some(picked), scroll, f) == f(picked),
        pick_action(None, scroll, f) matches Action::Redraw(row) && row == scroll,
{
}

/// Whether an input ends the display of an image.
pub open spec fn leaves_image(event: Event) -> bool {
    match event {
        Event::Key(key, _) => key == Key::Char('q') || key == Key::Esc || key == Key::Enter,
        _ => false,
    }
}

/// An image is left by `q`, Esc and Enter, whatever is held; by no other letter, and by nothing that
/// is no key.
pub proof fn law_images_are_left(held: u8, c: char)
    ensures
        leaves_image(Event::Key(Key::Char('q'), held)),
        leaves_image(Event::Key(Key::Esc, held)),
        leaves_image(Event::Key(Key::Enter, held)),
        c != 'q' ==> !leaves_image(Event::Key(Key::Char(c), held)),
        !leaves_image(Event::Key(Key::Backspace, held)),
        !leaves_image(Event::WheelUp),
{
}

} // verus!
