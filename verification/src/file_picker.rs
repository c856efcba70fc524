//! The file picker: the commands it runs on, what was picked, and the files opened so far.

use vstd::prelude::*;

use crate::config::{
    law_ring_steps, law_ring_steps_cancel, next_in_ring, prev_in_ring, ring_next, ring_prev,
};
use crate::session::ViewerExit;
use crate::text::{chars_of, push_str, same_str, string_of, texts, trim, trimmed};
use crate::zmd::{shell_escape_str, shell_quoted};

verus! {

/// Vendor directories to exclude when the filter is active.
pub const VENDOR_DIRS: [&'static str; 10] = [
    "node_modules",
    "vendor",
    ".git",
    "target",
    "build",
    "dist",
    ".next",
    "__pycache__",
    ".venv",
    "venv",
];

/// Escape a path for use inside a shell command string.
pub fn shell_escape(path: &str) -> (s: String)
    ensures
        s@ == shell_quoted(path@),
{
    shell_escape_str(path)
}

// ---------------------------------------------------------------- commands

/// The options that keep the first `n` vendor directories out of a listing.
pub open spec fn excludes(n: int) -> Seq<char>
    decreases n,
{
    if n <= 0 {
        seq![]
    } else {
        excludes(n - 1) + " --exclude "@ + VENDOR_DIRS[n - 1]@
    }
}

/// The command that lists files: without vendor directories, or with them. Without the finder
/// there is one listing for both.
pub open spec fn listing(finder: Option<Seq<char>>, filtered: bool) -> Seq<char> {
    match finder {
        Some(bin) => if filtered {
            bin + " --type f --hidden"@ + excludes(10)
        } else {
            bin + " --type f --hidden"@
        },
        None => "find . -type f"@,
    }
}

fn push_excludes(out: &mut Vec<char>)
    ensures
        final(out)@ == old(out)@ + excludes(10),
{
    let ghost start = out@;
    let mut i: usize = 0;
    assert(start + excludes(0) =~= start);
    while i < 10
        invariant
            i <= 10,
            out@ == start + excludes(i as int),
        decreases 10 - i,
    {
        push_str(out, " --exclude ");
        push_str(out, VENDOR_DIRS[i]);
        assert(out@ =~= start + (excludes(i as int) + " --exclude "@ + VENDOR_DIRS[i as int]@));
        i += 1;
    }
}

/// What an optional text stands for.
pub open spec fn finder_name(finder: Option<&str>) -> Option<Seq<char>> {
    match finder {
        Some(bin) => Some(bin@),
        None => None,
    }
}

/// The command that lists files, `finder` being the name of `fd` where it is installed.
pub fn listing_command(finder: Option<&str>, filtered: bool) -> (s: String)
    ensures
        s@ == listing(finder_name(finder), filtered),
{
    match finder {
        Some(bin) => {
            let mut out = chars_of(bin);
            push_str(&mut out, " --type f --hidden");
            if filtered {
                push_excludes(&mut out);
            }
            string_of(&out)
        },
        None => "find . -type f".to_owned(),
    }
}

/// The binding that cycles themes: it saves the theme, and refreshes preview and header.
pub open spec fn theme_binding(key: Seq<char>, reed: Seq<char>, option: Seq<char>) -> Seq<char> {
    key + ":execute-silent("@ + reed + option + ")+refresh-preview+transform-header("@ + reed
        + " --print-header)"@
}

/// The binding that switches the vendor filter; the prompt is the state.
pub open spec fn vendor_binding(finder: Option<Seq<char>>) -> Seq<char> {
    "ctrl-v:transform:[[ {fzf:prompt} =~ filtered ]] && echo \"change-prompt(all> )+reload("@
        + listing(finder, false) + ")\" || echo \"change-prompt(filtered> )+reload("@ + listing(
        finder,
        true,
    ) + ")\""@
}

/// Whether the picker can switch the vendor filter: where it lists the files itself, by the
/// finder.
pub open spec fn can_filter(finder: Option<Seq<char>>, piped: bool) -> bool {
    !piped && finder is Some
}

/// The arguments of the file picker. `header` shows the shortcuts and the theme; `piped` says
/// that candidates are piped in.
pub open spec fn picker_args(
    reed_bin: Seq<char>,
    header: Seq<char>,
    finder: Option<Seq<char>>,
    piped: bool,
) -> Seq<Seq<char>> {
    let reed = shell_quoted(reed_bin);
    let args = seq![
        "--height"@,
        "100%"@,
        "--preview"@,
        reed + " --preview {}"@,
        "--preview-window"@,
        "right:64%"@,
        "--header"@,
        header,
        "--bind"@,
        "ctrl-/:change-preview-window(right:64%|up:70%|down:40%|hidden)"@,
        "--bind"@,
        theme_binding("ctrl-n"@, reed, " --next-theme"@),
        "--bind"@,
        theme_binding("ctrl-b"@, reed, " --prev-theme"@),
    ];
    if can_filter(finder, piped) {
        args + seq!["--prompt"@, "filtered> "@, "--bind"@, vendor_binding(finder)]
    } else {
        args
    }
}

fn bind_theme(key: &str, reed: &str, option: &str) -> (s: String)
    ensures
        s@ == theme_binding(key@, reed@, option@),
{
    let mut out = chars_of(key);
    push_str(&mut out, ":execute-silent(");
    push_str(&mut out, reed);
    push_str(&mut out, option);
    push_str(&mut out, ")+refresh-preview+transform-header(");
    push_str(&mut out, reed);
    push_str(&mut out, " --print-header)");
    string_of(&out)
}

fn bind_vendor(finder: Option<&str>) -> (s: String)
    ensures
        s@ == vendor_binding(finder_name(finder)),
{
    let mut out = chars_of(
        "ctrl-v:transform:[[ {fzf:prompt} =~ filtered ]] && echo \"change-prompt(all> )+reload(",
    );
    push_str(&mut out, listing_command(finder, false).as_str());
    push_str(&mut out, ")\" || echo \"change-prompt(filtered> )+reload(");
    push_str(&mut out, listing_command(finder, true).as_str());
    push_str(&mut out, ")\"");
    string_of(&out)
}

/// The arguments of the file picker. `reed_bin` is this program's own path.
pub fn file_picker_args(reed_bin: &str, header: &str, finder: Option<&str>, piped: bool) -> (args:
    Vec<String>)
    ensures
        texts(args@) == picker_args(reed_bin@, header@, finder_name(finder), piped),
{
    let reed = shell_escape(reed_bin);
    let mut preview = chars_of(reed.as_str());
    push_str(&mut preview, " --preview {}");
    let mut args: Vec<String> = Vec::new();
    args.push("--height".to_owned());
    args.push("100%".to_owned());
    args.push("--preview".to_owned());
    args.push(string_of(&preview));
    args.push("--preview-window".to_owned());
    args.push("right:64%".to_owned());
    args.push("--header".to_owned());
    args.push(header.to_owned());
    args.push("--bind".to_owned());
    args.push("ctrl-/:change-preview-window(right:64%|up:70%|down:40%|hidden)".to_owned());
    args.push("--bind".to_owned());
    args.push(bind_theme("ctrl-n", reed.as_str(), " --next-theme"));
    args.push("--bind".to_owned());
    args.push(bind_theme("ctrl-b", reed.as_str(), " --prev-theme"));
    if !piped && finder.is_some() {
        args.push("--prompt".to_owned());
        args.push("filtered> ".to_owned());
        args.push("--bind".to_owned());
        args.push(bind_vendor(finder));
    }
    assert(texts(args@) =~= picker_args(reed_bin@, header@, finder_name(finder), piped));
    args
}

/// The command by which the picker lists its candidates: the filtered listing where the vendor
/// filter can be switched, else its own.
pub fn default_command(finder: Option<&str>, piped: bool) -> (command: Option<String>)
    ensures
        command is Some <==> can_filter(finder_name(finder), piped),
        command matches Some(c) ==> c@ == listing(finder_name(finder), true),
{
    if !piped && finder.is_some() {
        Some(listing_command(finder, true))
    } else {
        None
    }
}

/// The file that was picked: the picker's output without white space around it. None where the
/// picker was left, or nothing was picked.
pub fn picked_file(success: bool, output: &str) -> (file: Option<String>)
    ensures
        file is Some <==> success && trimmed(output@).len() > 0,
        file matches Some(f) ==> f@ == trimmed(output@),
{
    if !success {
        return None;
    }
    let name = trim(&chars_of(output));
    if name.len() == 0 {
        None
    } else {
        Some(string_of(&name))
    }
}

// ---------------------------------------------------------------- buffers

/// Recently opened files, and the one that is shown.
#[derive(Debug, Clone)]
pub struct BufferRing {
    pub files: Vec<String>,
    pub index: usize,
}

impl BufferRing {
    /// One of the files is shown, once there are any.
    pub open spec fn wf(&self) -> bool {
        self.files@.len() == 0 || self.index < self.files@.len()
    }

    /// No files yet.
    pub fn new() -> (ring: BufferRing)
        ensures
            ring.wf(),
            ring.files@.len() == 0,
    {
        BufferRing { files: Vec::new(), index: 0 }
    }

    /// Open a file: it is put at the end, unless it is there already, and shown.
    pub fn open(&mut self, file: String)
        ensures
            final(self).wf(),
            texts(final(self).files@) == with_file(texts(old(self).files@), file@),
            final(self).index == final(self).files@.len() - 1,
    {
        let ghost before = texts(self.files@);
        let ghost name = file@;
        let n: usize = self.files.len();
        if n == 0 || !same_str(self.files[n - 1].as_str(), file.as_str()) {
            self.files.push(file);
            assert(texts(self.files@) =~= before.push(name));
        } else {
            assert(before.last() == self.files@[n - 1]@);
        }
        self.index = self.files.len() - 1;
    }

    /// The file that is shown.
    pub fn current(&self) -> (file: &str)
        requires
            self.wf(),
            self.files@.len() > 0,
        ensures
            file@ == self.files@[self.index as int]@,
    {
        self.files[self.index].as_str()
    }

    /// Number and count of the files for the header, where there is more than one.
    pub fn info(&self) -> (info: Option<(usize, usize)>)
        requires
            self.wf(),
        ensures
            info == (if self.files@.len() > 1 {
                Some(((self.index + 1) as usize, self.files@.len() as usize))
            } else {
                None
            }),
    {
        let n: usize = self.files.len();
        if n > 1 {
            Some((self.index + 1, n))
        } else {
            None
        }
    }

    /// Go on after the viewer was left: to the next or the previous file, around the ring. Returns
    /// `false` where the picker is to be shown again.
    pub fn turn(&mut self, exit: ViewerExit) -> (goes_on: bool)
        requires
            old(self).wf(),
            old(self).files@.len() > 0,
        ensures
            final(self).wf(),
            final(self).files == old(self).files,
            final(self).index == turned(old(self).index as int, old(self).files@.len() as int, exit),
            goes_on == (exit != ViewerExit::Quit),
    {
        let n: usize = self.files.len();
        match exit {
            ViewerExit::Quit => false,
            ViewerExit::BufferNext => {
                if n > 1 {
                    self.index = next_in_ring(self.index, n);
                }
                true
            },
            ViewerExit::BufferPrev => {
                if n > 1 {
                    self.index = prev_in_ring(self.index, n);
                }
                true
            },
        }
    }
}

/// Files with one more at the end, unless it is there already.
pub open spec fn with_file(files: Seq<Seq<char>>, file: Seq<char>) -> Seq<Seq<char>> {
    if files.len() > 0 && files.last() == file {
        files
    } else {
        files.push(file)
    }
}

/// The place in the ring after the viewer was left.
pub open spec fn turned(index: int, len: int, exit: ViewerExit) -> int {
    if len > 1 {
        match exit {
            ViewerExit::Quit => index,
            ViewerExit::BufferNext => ring_next(index, len),
            ViewerExit::BufferPrev => ring_prev(index, len),
        }
    } else {
        index
    }
}

/// The next file and then the previous one is the file itself, and the other way round.
pub proof fn law_turns_cancel(index: int, len: int)
    requires
        0 <= index < len,
    ensures
        turned(turned(index, len, ViewerExit::BufferNext), len, ViewerExit::BufferPrev) == index,
        turned(turned(index, len, ViewerExit::BufferPrev), len, ViewerExit::BufferNext) == index,
{
    law_ring_steps_cancel(index, len);
}

/// However files are opened, no two that follow one another are the same.
pub proof fn law_no_file_twice_in_a_row(files: Seq<Seq<char>>, file: Seq<char>)
    requires
        forall|i: int| 0 < i < files.len() ==> #[trigger] files[i] != files[i - 1],
    ensures
        forall|i: int|
            0 < i < with_file(files, file).len() ==> #[trigger] with_file(files, file)[i]
                != with_file(files, file)[i - 1],
        with_file(files, file).last() == file,
{
}

/// The next buffer is the one behind, from the last to the first; a single one stays, and so does
/// the one that is quit.
pub proof fn law_turns(index: int, len: int)
    requires
        0 <= index < len,
    ensures
        len > 1 && index + 1 < len ==> turned(index, len, ViewerExit::BufferNext) == index + 1,
        len > 1 && index + 1 == len ==> turned(index, len, ViewerExit::BufferNext) == 0,
        len > 1 && index > 0 ==> turned(index, len, ViewerExit::BufferPrev) == index - 1,
        len > 1 && index == 0 ==> turned(index, len, ViewerExit::BufferPrev) == len - 1,
        len == 1 ==> turned(index, len, ViewerExit::BufferNext) == index && turned(
            index,
            len,
            ViewerExit::BufferPrev,
        ) == index,
        turned(index, len, ViewerExit::Quit) == index,
{
    law_ring_steps(index, len);
}

/// Files keep their places when one is added behind them.
pub proof fn law_files_keep_their_places(files: Seq<Seq<char>>, file: Seq<char>, i: int)
    ensures
        0 <= i < files.len() ==> with_file(files, file)[i] == files[i],
        files.len() <= with_file(files, file).len() <= files.len() + 1,
        files.len() > 0 && files.last() == file ==> with_file(files, file) == files,
        files.len() == 0 || files.last() != file ==> with_file(files, file).len() == files.len() + 1,
{
}

/// The directories that are left out of the listing.
pub proof fn law_vendor_dirs()
    ensures
        VENDOR_DIRS[0]@ == "node_modules"@ && VENDOR_DIRS[1]@ == "vendor"@,
        VENDOR_DIRS[2]@ == ".git"@ && VENDOR_DIRS[3]@ == "target"@,
        VENDOR_DIRS[4]@ == "build"@ && VENDOR_DIRS[5]@ == "dist"@,
        VENDOR_DIRS[6]@ == ".next"@ && VENDOR_DIRS[7]@ == "__pycache__"@,
        VENDOR_DIRS[8]@ == ".venv"@ && VENDOR_DIRS[9]@ == "venv"@,
{
}

/// A listing that is not filtered is the beginning of the filtered one, which goes on to leave out
/// each of those directories.
pub proof fn law_listings(bin: Seq<char>)
    ensures
        listing(None, true) == "find . -type f"@,
        listing(None, false) == "find . -type f"@,
        listing(Some(bin), false) == bin + " --type f --hidden"@,
        listing(Some(bin), true) == listing(Some(bin), false) + excludes(10),
        forall|n: int|
            0 < n <= 10 ==> #[trigger] excludes(n) == excludes(n - 1) + " --exclude "@
                + VENDOR_DIRS[n - 1]@,
        excludes(0).len() == 0,
{
}

/// What the picker is told: to preview files by this program, the header, and which keys change the
/// preview's window and the theme; and where it lists the files itself, the key that filters them.
pub proof fn law_picker_args(
    bin: Seq<char>,
    header: Seq<char>,
    finder: Option<Seq<char>>,
    piped: bool,
)
    ensures
        ({
            let args = picker_args(bin, header, finder, piped);
            let reed = shell_quoted(bin);
            let redraw = ")+refresh-preview+transform-header("@ + reed + " --print-header)"@;
            &&& args[0] == "--height"@ && args[1] == "100%"@
            &&& args[2] == "--preview"@ && args[3] == reed + " --preview {}"@
            &&& args[4] == "--preview-window"@ && args[5] == "right:64%"@
            &&& args[6] == "--header"@ && args[7] == header
            &&& args[8] == "--bind"@ && args[10] == "--bind"@ && args[12] == "--bind"@
            &&& args[9] == "ctrl-/:change-preview-window(right:64%|up:70%|down:40%|hidden)"@
            &&& args[11] == "ctrl-n"@ + ":execute-silent("@ + reed + " --next-theme"@ + redraw
            &&& args[13] == "ctrl-b"@ + ":execute-silent("@ + reed + " --prev-theme"@ + redraw
            &&& finder is Some && !piped ==> args.len() == 18 && args[14] == "--prompt"@ && args[15]
                == "filtered> "@ && args[16] == "--bind"@ && args[17]
                == "ctrl-v:transform:[[ {fzf:prompt} =~ filtered ]] && echo \"change-prompt(all> )+reload("@
                + listing(finder, false) + ")\" || echo \"change-prompt(filtered> )+reload("@
                + listing(finder, true) + ")\""@
            &&& finder is None || piped ==> args.len() == 14
        }),
{
    let reed = shell_quoted(bin);
    let a = "ctrl-n"@ + ":execute-silent("@ + reed + " --next-theme"@;
    let b = "ctrl-b"@ + ":execute-silent("@ + reed + " --prev-theme"@;
    let redraw = ")+refresh-preview+transform-header("@ + reed + " --print-header)"@;
    assert(theme_binding("ctrl-n"@, reed, " --next-theme"@) =~= a + redraw);
    assert(theme_binding("ctrl-b"@, reed, " --prev-theme"@) =~= b + redraw);
}

} // verus!
