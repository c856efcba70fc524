//! Searching a collection of notes with `zmd`, and finding the files behind its answers.

use vstd::prelude::*;

use crate::citations::{
    case_views, citations, extract_case_citations, found_in, paren_findings, section_text, CaseRef,
    CaseView,
};
use crate::paths::{
    ancestors, extension, extension_of, file_stem, join, joined, law_extensions_of_names,
    list_ancestors, optional_string, optional_text, stem_of,
};
use crate::patterns::{found, CASE_NUM, STRUCTURED};
use crate::text::{
    before_char, begins, chars_of, cut, find_char, first_piece, is_text, law_lines, law_replaced,
    law_start_left, law_trimmed, lemma_position, lemma_position_at, lemma_trimmed_end_prefix,
    lines_of, one_line, position, push_chars, push_str, replace_char, replaced, split_lines,
    starts_with, string_of, texts, trim, trimmed, trimmed_start, views, white_space,
};

verus! {

// ---------------------------------------------------------------- shell quoting

/// Whether a character means nothing but itself to a shell, wherever it stands in a word.
pub open spec fn plain_to_shell(c: char) -> bool {
    ||| 'a' <= c <= 'z'
    ||| 'A' <= c <= 'Z'
    ||| '0' <= c <= '9'
    ||| c == '_' || c == '-' || c == '.' || c == '/' || c == ':' || c == ',' || c == '@' || c == '%'
        || c == '+'
}

/// Whether a text is quoted before it goes into a shell command: it is empty, or holds a
/// character that a shell may take for more than itself.
pub open spec fn needs_quotes(s: Seq<char>) -> bool {
    s.len() == 0 || exists|i: int| 0 <= i < s.len() && !plain_to_shell(#[trigger] s[i])
}

/// A text as it stands in a shell command: in single quotes where needed, every single quote
/// in it replaced by one that stands outside of them.
pub open spec fn shell_quoted(s: Seq<char>) -> Seq<char> {
    if needs_quotes(s) {
        seq!['\''] + replaced(s, '\'', "'\\''"@) + seq!['\'']
    } else {
        s
    }
}

fn is_plain_to_shell(c: char) -> (r: bool)
    ensures
        r == plain_to_shell(c),
{
    ('a' <= c && c <= 'z') || ('A' <= c && c <= 'Z') || ('0' <= c && c <= '9') || c == '_' || c
        == '-' || c == '.' || c == '/' || c == ':' || c == ',' || c == '@' || c == '%' || c == '+'
}

fn wants_quotes(s: &Vec<char>) -> (r: bool)
    ensures
        r == needs_quotes(s@),
{
    let mut i: usize = 0;
    while i < s.len()
        invariant
            i <= s@.len(),
            forall|j: int| 0 <= j < i ==> plain_to_shell(#[trigger] s@[j]),
        decreases s@.len() - i,
    {
        if !is_plain_to_shell(s[i]) {
            return true;
        }
        i += 1;
    }
    s.len() == 0
}

/// Escape a string for safe embedding in a shell command.
pub fn shell_escape_str(s: &str) -> (r: String)
    ensures
        r@ == shell_quoted(s@),
{
    let chars = chars_of(s);
    if wants_quotes(&chars) {
        let inner = replace_char(&chars, '\'', "'\\''");
        let mut out: Vec<char> = Vec::new();
        out.push('\'');
        push_chars(&mut out, &inner);
        out.push('\'');
        assert(out@ =~= seq!['\''] + inner@ + seq!['\'']);
        string_of(&out)
    } else {
        s.to_owned()
    }
}

/// A character and what follows it, if anything does follow.
pub open spec fn followed(c: char, rest: Option<Seq<char>>) -> Option<Seq<char>> {
    match rest {
        Some(r) => Some(seq![c] + r),
        None => None,
    }
}

/// The rest of the word that a shell reads from a text. Inside of single quotes every character
/// stands for itself; outside, a backslash keeps the next character, and a character that may
/// mean more than itself ends the word or changes it. A quote that stays open makes no word.
pub open spec fn word_from(s: Seq<char>, quoted: bool) -> Option<Seq<char>>
    decreases s.len(),
{
    if s.len() == 0 {
        if quoted {
            None
        } else {
            Some(seq![])
        }
    } else if s[0] == '\'' {
        word_from(s.skip(1), !quoted)
    } else if quoted {
        followed(s[0], word_from(s.skip(1), true))
    } else if s[0] == '\\' && s.len() > 1 && s[1] != '\n' {
        followed(s[1], word_from(s.skip(2), false))
    } else if plain_to_shell(s[0]) {
        followed(s[0], word_from(s.skip(1), false))
    } else {
        None
    }
}

/// The one word that a shell reads from a text; none where it may split, expand or drop it.
pub open spec fn shell_reads(s: Seq<char>) -> Option<Seq<char>> {
    if s.len() == 0 {
        None
    } else {
        word_from(s, false)
    }
}

/// A shell reads from a quoted text one word, the text itself.
pub proof fn law_quoted_text_read_back(s: Seq<char>)
    ensures
        shell_reads(shell_quoted(s)) == Some(s),
{
    if needs_quotes(s) {
        let inner = replaced(s, '\'', "'\\''"@);
        let all = shell_quoted(s);
        assert(all[0] == '\'');
        assert(all.skip(1) =~= inner + seq!['\'']);
        lemma_reads_inside(s);
    } else {
        lemma_reads_plain(s);
    }
}

proof fn lemma_reads_plain(s: Seq<char>)
    requires
        forall|i: int| 0 <= i < s.len() ==> plain_to_shell(#[trigger] s[i]),
    ensures
        word_from(s, false) == Some(s),
    decreases s.len(),
{
    if s.len() > 0 {
        assert(plain_to_shell(s[0]));
        let rest = s.skip(1);
        assert forall|i: int| 0 <= i < rest.len() implies plain_to_shell(#[trigger] rest[i]) by {
            assert(rest[i] == s[i + 1]);
        }
        lemma_reads_plain(rest);
        assert(seq![s[0]] + rest =~= s);
    } else {
        assert(s =~= seq![]);
    }
}

proof fn lemma_replaced_front(s: Seq<char>, c: char, with: Seq<char>)
    requires
        s.len() > 0,
    ensures
        replaced(s, c, with) == (if s[0] == c {
            with
        } else {
            seq![s[0]]
        }) + replaced(s.skip(1), c, with),
    decreases s.len(),
{
    if s.len() == 1 {
        assert(s.drop_last() =~= seq![]);
        assert(s.skip(1) =~= seq![]);
        assert(replaced(s.drop_last(), c, with) =~= seq![]);
        assert(replaced(s.skip(1), c, with) =~= seq![]);
        assert(s.last() == s[0]);
        assert(seq![] + (if s[0] == c {
            with
        } else {
            seq![s[0]]
        }) =~= (if s[0] == c {
            with
        } else {
            seq![s[0]]
        }) + seq![]);
    } else {
        lemma_replaced_front(s.drop_last(), c, with);
        assert(s.drop_last().skip(1) =~= s.skip(1).drop_last());
        assert(s.skip(1).last() == s.last());
        assert(s.drop_last()[0] == s[0]);
        let head = if s[0] == c {
            with
        } else {
            seq![s[0]]
        };
        let tail = if s.last() == c {
            with
        } else {
            seq![s.last()]
        };
        let mid = replaced(s.skip(1).drop_last(), c, with);
        assert((head + mid) + tail =~= head + (mid + tail));
    }
}

proof fn lemma_reads_inside(s: Seq<char>)
    ensures
        word_from(replaced(s, '\'', "'\\''"@) + seq!['\''], true) == Some(s),
    decreases s.len(),
{
    let with = "'\\''"@;
    let end = seq!['\''];
    reveal_strlit("'\\''");
    assert(with =~= seq!['\'', '\\', '\'', '\'']);
    if s.len() == 0 {
        assert(replaced(s, '\'', with) + end =~= end);
        assert(end.skip(1) =~= seq![]);
        assert(word_from(end.skip(1), false) == Some(Seq::<char>::empty()));
        assert(s =~= seq![]);
    } else {
        lemma_replaced_front(s, '\'', with);
        lemma_reads_inside(s.skip(1));
        let rest = replaced(s.skip(1), '\'', with) + end;
        let all = replaced(s, '\'', with) + end;
        if s[0] == '\'' {
            assert(all =~= with + rest);
            assert(all[0] == '\'');
            let one = all.skip(1);
            assert(one =~= seq!['\\', '\'', '\''] + rest);
            assert(word_from(all, true) == word_from(one, false));
            let two = one.skip(2);
            assert(two =~= seq!['\''] + rest);
            assert(one[0] == '\\' && one[1] == '\'');
            assert(word_from(one, false) == followed('\'', word_from(two, false)));
            assert(two.skip(1) =~= rest);
            assert(word_from(two, false) == word_from(rest, true));
        } else {
            assert(all =~= seq![s[0]] + rest);
            assert(all.skip(1) =~= rest);
        }
        assert(seq![s[0]] + s.skip(1) =~= s);
    }
}

// ---------------------------------------------------------------- the search picker

/// The command that lists the answers to the query being typed.
pub open spec fn reload_command(reed: Seq<char>, mode: Seq<char>) -> Seq<char> {
    reed + " --zmd-reload {q} --zmd-mode "@ + mode
}

/// The command that shows the note under the cursor.
pub open spec fn preview_command(reed: Seq<char>, root: Seq<char>) -> Seq<char> {
    "cd "@ + root
        + " && zmd get zmd://{1} > /tmp/reed-zmd-preview.md 2>/dev/null && [ -s /tmp/reed-zmd-preview.md ] && "@
        + reed + " --preview --highlight {q} /tmp/reed-zmd-preview.md"@
}

/// The binding that switches between keyword and semantic search; the prompt is the state.
pub open spec fn toggle_binding(keyword: Seq<char>, semantic: Seq<char>) -> Seq<char> {
    "ctrl-t:transform:if [[ $FZF_PROMPT == *search* ]]; then echo \"change-prompt(zmd query> )+change-header(ctrl-t: switch to FTS)+reload("@
        + semantic
        + ")\"; else echo \"change-prompt(zmd search> )+change-header(ctrl-t: switch to semantic)+reload("@
        + keyword + ")\"; fi"@
}

/// The binding that searches again, in the current mode, whenever the query changes.
pub open spec fn change_binding(keyword: Seq<char>, semantic: Seq<char>) -> Seq<char> {
    "change:transform:if [[ $FZF_PROMPT == *search* ]]; then echo \"reload("@ + keyword
        + ")\"; else echo \"reload("@ + semantic + ")\"; fi"@
}

/// The arguments of the picker over search answers.
pub open spec fn zmd_args(reed_bin: Seq<char>, root: Seq<char>, label: Seq<char>) -> Seq<Seq<char>> {
    let reed = shell_quoted(reed_bin);
    let keyword = reload_command(reed, "search"@);
    let semantic = reload_command(reed, "query"@);
    seq![
        "--ansi"@,
        "--no-multi"@,
        "--disabled"@,
        "--prompt"@,
        "zmd search> "@,
        "--header"@,
        "ctrl-t: switch to semantic  ctrl-r: referenced precedents"@,
        "--expect"@,
        "ctrl-r"@,
        "--delimiter"@,
        "\t"@,
        "--with-nth"@,
        "2.."@,
        "--preview"@,
        preview_command(reed, shell_quoted(root)),
        "--preview-window"@,
        "right:64%"@,
        "--height"@,
        "100%"@,
        "--layout"@,
        "reverse"@,
        "--border"@,
        "rounded"@,
        "--border-label"@,
        label,
        "--border-label-pos"@,
        "-2"@,
        "--color"@,
        "bg:-1"@,
        "--bind"@,
        change_binding(keyword, semantic),
        "--bind"@,
        "start:reload:true"@,
        "--bind"@,
        toggle_binding(keyword, semantic),
    ]
}

fn reload(reed: &str, mode: &str) -> (s: String)
    ensures
        s@ == reload_command(reed@, mode@),
{
    let mut out = chars_of(reed);
    push_str(&mut out, " --zmd-reload {q} --zmd-mode ");
    push_str(&mut out, mode);
    string_of(&out)
}

/// Ask for a note: the arguments of a picker whose lines come from searches while the user
/// types. `reed_bin` is this program's own path.
pub fn zmd_search_pick(zmd_root: &str, reed_bin: &str, label: &str) -> (args: Vec<String>)
    ensures
        texts(args@) == zmd_args(reed_bin@, zmd_root@, label@),
{
    let reed = shell_escape_str(reed_bin);
    let keyword = reload(reed.as_str(), "search");
    let semantic = reload(reed.as_str(), "query");
    let root = shell_escape_str(zmd_root);

    let mut preview = chars_of("cd ");
    push_str(&mut preview, root.as_str());
    push_str(
        &mut preview,
        " && zmd get zmd://{1} > /tmp/reed-zmd-preview.md 2>/dev/null && [ -s /tmp/reed-zmd-preview.md ] && ",
    );
    push_str(&mut preview, reed.as_str());
    push_str(&mut preview, " --preview --highlight {q} /tmp/reed-zmd-preview.md");

    let mut change = chars_of(
        "change:transform:if [[ $FZF_PROMPT == *search* ]]; then echo \"reload(",
    );
    push_str(&mut change, keyword.as_str());
    push_str(&mut change, ")\"; else echo \"reload(");
    push_str(&mut change, semantic.as_str());
    push_str(&mut change, ")\"; fi");

    let mut toggle = chars_of(
        "ctrl-t:transform:if [[ $FZF_PROMPT == *search* ]]; then echo \"change-prompt(zmd query> )+change-header(ctrl-t: switch to FTS)+reload(",
    );
    push_str(&mut toggle, semantic.as_str());
    push_str(
        &mut toggle,
        ")\"; else echo \"change-prompt(zmd search> )+change-header(ctrl-t: switch to semantic)+reload(",
    );
    push_str(&mut toggle, keyword.as_str());
    push_str(&mut toggle, ")\"; fi");

    let mut args: Vec<String> = Vec::new();
    args.push("--ansi".to_owned());
    args.push("--no-multi".to_owned());
    args.push("--disabled".to_owned());
    args.push("--prompt".to_owned());
    args.push("zmd search> ".to_owned());
    args.push("--header".to_owned());
    args.push("ctrl-t: switch to semantic  ctrl-r: referenced precedents".to_owned());
    args.push("--expect".to_owned());
    args.push("ctrl-r".to_owned());
    args.push("--delimiter".to_owned());
    args.push("\t".to_owned());
    args.push("--with-nth".to_owned());
    args.push("2..".to_owned());
    args.push("--preview".to_owned());
    args.push(string_of(&preview));
    args.push("--preview-window".to_owned());
    args.push("right:64%".to_owned());
    args.push("--height".to_owned());
    args.push("100%".to_owned());
    args.push("--layout".to_owned());
    args.push("reverse".to_owned());
    args.push("--border".to_owned());
    args.push("rounded".to_owned());
    args.push("--border-label".to_owned());
    args.push(label.to_owned());
    args.push("--border-label-pos".to_owned());
    args.push("-2".to_owned());
    args.push("--color".to_owned());
    args.push("bg:-1".to_owned());
    args.push("--bind".to_owned());
    args.push(string_of(&change));
    args.push("--bind".to_owned());
    args.push("start:reload:true".to_owned());
    args.push("--bind".to_owned());
    args.push(string_of(&toggle));
    assert(texts(args@) =~= zmd_args(reed_bin@, zmd_root@, label@));
    args
}

/// What the user did in the picker.
#[derive(Debug, Clone, PartialEq, Eq)]
pub enum ZmdChoice {
    /// Nothing was picked.
    Nothing,
    /// Open the note with this reference.
    Open(String),
    /// Pick among the cases that the note with this reference cites.
    References(String),
}

/// What a [`ZmdChoice`] stands for.
pub enum ChoiceView {
    Nothing,
    Open(Seq<char>),
    References(Seq<char>),
}

impl View for ZmdChoice {
    type V = ChoiceView;

    open spec fn view(&self) -> ChoiceView {
        match self {
            ZmdChoice::Nothing => ChoiceView::Nothing,
            ZmdChoice::Open(s) => ChoiceView::Open(s@),
            ZmdChoice::References(s) => ChoiceView::References(s@),
        }
    }
}

/// A line of the picker's output, trimmed; empty where there is none.
pub open spec fn output_line(output: Seq<char>, i: int) -> Seq<char> {
    if i < lines_of(output).len() {
        trimmed(lines_of(output)[i])
    } else {
        seq![]
    }
}

/// What the picker's output means: its first line is the key that ended it, its second the
/// line picked, whose first field is the note's reference.
pub open spec fn zmd_choice(success: bool, output: Seq<char>) -> ChoiceView {
    let note = first_piece(output_line(output, 1), '\t');
    if !success || note.len() == 0 {
        ChoiceView::Nothing
    } else if output_line(output, 0) == "ctrl-r"@ {
        ChoiceView::References(note)
    } else {
        ChoiceView::Open(note)
    }
}

fn line_of_output(lines: &Vec<Vec<char>>, i: usize) -> (line: Vec<char>)
    ensures
        line@ == (if i < lines@.len() {
            trimmed(views(lines@)[i as int])
        } else {
            seq![]
        }),
{
    if i < lines.len() {
        trim(&lines[i])
    } else {
        let line: Vec<char> = Vec::new();
        assert(line@ =~= seq![]);
        line
    }
}

/// What the user did in the picker.
pub fn zmd_picked(success: bool, output: &str) -> (choice: ZmdChoice)
    ensures
        choice@ == zmd_choice(success, output@),
{
    if !success {
        return ZmdChoice::Nothing;
    }
    let chars = chars_of(output);
    let lines = split_lines(&chars);
    let key = line_of_output(&lines, 0);
    let selected = line_of_output(&lines, 1);
    let note = before_char(&selected, '\t');
    if note.len() == 0 {
        return ZmdChoice::Nothing;
    }
    if is_text(&key, "ctrl-r") {
        ZmdChoice::References(string_of(&note))
    } else {
        ZmdChoice::Open(string_of(&note))
    }
}

/// The cases that a document cites, over what the patterns find in it.
pub open spec fn cited(content: Seq<char>) -> Seq<CaseView> {
    citations(
        found_in(STRUCTURED@, section_text(content, "참조판례"@)),
        found_in(CASE_NUM@, section_text(content, "참조판례"@)),
        found(STRUCTURED@, content),
        paren_findings(content),
        found(CASE_NUM@, content),
    )
}

/// The cases to pick from once a note's content is there; `None` where it is not, or cites
/// none.
pub fn references_in(content: Option<&str>) -> (refs: Option<Vec<CaseRef>>)
    ensures
        match refs {
            Some(r) => content is Some && r@.len() > 0 && case_views(r@) == cited(
                (content->0)@,
            ),
            None => content is None || cited((content->0)@).len() == 0,
        },
{
    match content {
        None => None,
        Some(text) => {
            let refs = extract_case_citations(text);
            assert(case_views(refs@).len() == refs@.len());
            if refs.len() == 0 {
                None
            } else {
                Some(refs)
            }
        },
    }
}

/// What a fetch of a note gave: its content, unless the fetch failed or the note is empty.
pub fn zmd_get_content(success: bool, output: String) -> (content: Option<String>)
    ensures
        content == if success && output@.len() > 0 {
            Some(output)
        } else {
            None
        },
{
    if !success || output.as_str().is_empty() {
        None
    } else {
        Some(output)
    }
}

// ---------------------------------------------------------------- notes and their files

/// The collections in a listing: of every line that has a colon the name before and the
/// directory behind it, below the root.
pub open spec fn collections_in(lines: Seq<Seq<char>>, root: Seq<char>) -> Seq<
    (Seq<char>, Seq<char>),
>
    decreases lines.len(),
{
    if lines.len() == 0 {
        seq![]
    } else {
        let before = collections_in(lines.drop_last(), root);
        let line = trimmed(lines.last());
        let n = position(line, ':') as int;
        if n < line.len() {
            before.push((trimmed(line.take(n)), joined(root, trimmed(line.skip(n + 1)))))
        } else {
            before
        }
    }
}

/// What a list of collections stands for.
pub open spec fn collection_views(list: Seq<(String, String)>) -> Seq<(Seq<char>, Seq<char>)> {
    list.map_values(|c: (String, String)| (c.0@, c.1@))
}

/// The collections that `zmd` lists, with their directories.
pub fn load_zmd_collections(listing: &str, zmd_root: &str) -> (list: Vec<(String, String)>)
    ensures
        collection_views(list@) == collections_in(lines_of(listing@), zmd_root@),
{
    let root = chars_of(zmd_root);
    let chars = chars_of(listing);
    let lines = split_lines(&chars);
    let ghost all = views(lines@);
    let mut list: Vec<(String, String)> = Vec::new();
    let mut i: usize = 0;
    assert(all.take(0) =~= seq![]);
    assert(collection_views(list@) =~= collections_in(all.take(0), zmd_root@));
    while i < lines.len()
        invariant
            i <= lines@.len(),
            all == views(lines@),
            root@ == zmd_root@,
            collection_views(list@) == collections_in(all.take(i as int), zmd_root@),
        decreases lines@.len() - i,
    {
        assert(all.take(i + 1).drop_last() =~= all.take(i as int));
        assert(all.take(i + 1).last() == lines@[i as int]@);
        let line = trim(&lines[i]);
        assert(line@.skip(0) =~= line@);
        let n: usize = find_char(&line, ':', 0);
        if n < line.len() {
            let left = cut(&line, 0, n);
            let right = cut(&line, n + 1, line.len());
            assert(left@ =~= line@.take(n as int));
            assert(right@ =~= line@.skip(n + 1));
            let name = trim(&left);
            let dir = join(&root, &trim(&right));
            let ghost before = collection_views(list@);
            let ghost entry = (name@, dir@);
            list.push((string_of(&name), string_of(&dir)));
            assert(collection_views(list@) =~= before.push(entry));
        }
        i += 1;
    }
    assert(all.take(i as int) =~= all);
    list
}

/// The directory of the collection with the given name; of several, that of the last.
pub open spec fn directory_of(list: Seq<(Seq<char>, Seq<char>)>, name: Seq<char>) -> Option<
    Seq<char>,
>
    decreases list.len(),
{
    if list.len() == 0 {
        None
    } else if list.last().0 == name {
        Some(list.last().1)
    } else {
        directory_of(list.drop_last(), name)
    }
}

/// The collection and the path that a note's reference is made of, if it has a slash.
pub open spec fn reference_parts(note: Seq<char>) -> Option<(Seq<char>, Seq<char>)> {
    let n = position(note, '/') as int;
    if n < note.len() {
        Some((note.take(n), note.skip(n + 1)))
    } else {
        None
    }
}

/// Where a note may be: the file it is in if that exists, and how to fetch it otherwise.
#[derive(Debug, Clone)]
pub struct NotePlaces {
    /// The file in the collection's directory, if the collection is known.
    pub file: Option<String>,
    /// The address under which `zmd` has the note.
    pub uri: String,
    /// The name of the temporary file for a note that was fetched.
    pub temp_name: String,
}

/// The file of a note in its collection's directory, if the collection is known.
pub open spec fn note_file(
    list: Seq<(Seq<char>, Seq<char>)>,
    collection: Seq<char>,
    path: Seq<char>,
) -> Option<Seq<char>> {
    match directory_of(list, collection) {
        Some(dir) => Some(joined(dir, path)),
        None => None,
    }
}

fn find_directory(list: &Vec<(String, String)>, name: &Vec<char>) -> (dir: Option<Vec<char>>)
    ensures
        optional_text(dir) == directory_of(collection_views(list@), name@),
{
    let ghost all = collection_views(list@);
    let mut n: usize = list.len();
    assert(all.take(n as int) =~= all);
    while n > 0
        invariant
            n <= list@.len(),
            all == collection_views(list@),
            directory_of(all, name@) == directory_of(all.take(n as int), name@),
        decreases n,
    {
        assert(all.take(n as int).last() == all[n - 1]);
        assert(all.take(n as int).drop_last() =~= all.take(n - 1));
        let entry = &list[n - 1];
        if is_text(name, entry.0.as_str()) {
            return Some(chars_of(entry.1.as_str()));
        }
        n -= 1;
    }
    None
}

/// Where the note with the given reference may be; `None` for a reference without a slash.
pub fn resolve_zmd_ref_to_path(list: &Vec<(String, String)>, zmd_ref: &str) -> (places: Option<
    NotePlaces,
>)
    ensures
        match places {
            Some(p) => reference_parts(zmd_ref@) matches Some((collection, path)) && {
                &&& optional_string(p.file) == note_file(
                    collection_views(list@),
                    collection,
                    path,
                )
                &&& p.uri@ == "zmd://"@ + zmd_ref@
                &&& p.temp_name@ == "reed-zmd-"@ + replaced(path, '/', "_"@)
            },
            None => reference_parts(zmd_ref@) is None,
        },
{
    let chars = chars_of(zmd_ref);
    assert(chars@.skip(0) =~= chars@);
    let n: usize = find_char(&chars, '/', 0);
    if n == chars.len() {
        return None;
    }
    let collection = cut(&chars, 0, n);
    let path = cut(&chars, n + 1, chars.len());
    assert(collection@ =~= chars@.take(n as int));
    assert(path@ =~= chars@.skip(n + 1));
    let file = match find_directory(list, &collection) {
        Some(dir) => Some(string_of(&join(&dir, &path))),
        None => None,
    };
    let mut uri = chars_of("zmd://");
    push_chars(&mut uri, &chars);
    let mut temp = chars_of("reed-zmd-");
    push_chars(&mut temp, &replace_char(&path, '/', "_"));
    Some(NotePlaces { file, uri: string_of(&uri), temp_name: string_of(&temp) })
}

// ---------------------------------------------------------------- cases and their files

/// The stem that the file of a case has: commas become underscores, spaces go.
pub open spec fn case_stem(number: Seq<char>) -> Seq<char> {
    replaced(replaced(number, ',', "_"@), ' ', ""@)
}

/// Whether a path is the file of a case: a `md` file whose stem is the case's, or begins with
/// it and an underscore (merged cases).
pub open spec fn case_file(path: Seq<char>, needle: Seq<char>) -> bool {
    extension(path) == Some("md"@) && match file_stem(path) {
        Some(stem) => stem == needle || begins(stem, needle.push('_')),
        None => false,
    }
}

/// Whether a path is the file of a case.
pub fn is_case_file(path: &str, needle: &str) -> (r: bool)
    ensures
        r == case_file(path@, needle@),
{
    let chars = chars_of(path);
    let md = match extension_of(&chars) {
        Some(ext) => is_text(&ext, "md"),
        None => false,
    };
    if !md {
        return false;
    }
    match stem_of(&chars) {
        Some(stem) => {
            let mut merged = chars_of(needle);
            merged.push('_');
            is_text(&stem, needle) || starts_with(&stem, string_of(&merged).as_str())
        },
        None => false,
    }
}

/// The kinds of cases that the precedent collection keeps apart.
pub const CASE_TYPES: [&'static str; 6] = ["민사", "형사", "가사", "특허", "세무", "일반행정"];

/// The courts that the precedent collection keeps apart.
pub const COURTS: [&'static str; 2] = ["대법원", "헌법재판소"];

/// The address of a case of the given kind and court.
pub open spec fn case_uri(kind: Seq<char>, court: Seq<char>, needle: Seq<char>) -> Seq<char> {
    "zmd://precedent-kr/"@ + kind + "/"@ + court + "/"@ + needle
}

/// Where a case may be: the stem its file has, the addresses to fetch it from otherwise, in
/// order, and the name of the temporary file for what was fetched.
#[derive(Debug, Clone)]
pub struct CasePlaces {
    pub needle: String,
    pub uris: Vec<String>,
    pub temp_name: String,
}

/// Where the case with the given number may be.
pub fn resolve_case_to_file(case_number: &str) -> (places: CasePlaces)
    ensures
        places.needle@ == case_stem(case_number@),
        texts(places.uris@) == Seq::new(
            12,
            |i: int| case_uri(CASE_TYPES@[i / 2]@, COURTS@[i % 2]@, case_stem(case_number@)),
        ),
        places.temp_name@ == "reed-case-"@ + case_stem(case_number@) + ".md"@,
{
    let chars = chars_of(case_number);
    let needle = replace_char(&replace_char(&chars, ',', "_"), ' ', "");
    let types: [&'static str; 6] = CASE_TYPES;
    let courts: [&'static str; 2] = COURTS;
    let mut uris: Vec<String> = Vec::new();
    let mut i: usize = 0;
    while i < 12
        invariant
            i <= 12,
            types == CASE_TYPES,
            courts == COURTS,
            uris@.len() == i,
            forall|k: int|
                0 <= k < i ==> (#[trigger] uris@[k])@ == case_uri(
                    CASE_TYPES@[k / 2]@,
                    COURTS@[k % 2]@,
                    needle@,
                ),
        decreases 12 - i,
    {
        let mut uri = chars_of("zmd://precedent-kr/");
        push_str(&mut uri, types[i / 2]);
        push_str(&mut uri, "/");
        push_str(&mut uri, courts[i % 2]);
        push_str(&mut uri, "/");
        push_chars(&mut uri, &needle);
        uris.push(string_of(&uri));
        i += 1;
    }
    assert(texts(uris@) =~= Seq::new(
        12,
        |i: int| case_uri(CASE_TYPES@[i / 2]@, COURTS@[i % 2]@, needle@),
    ));
    let mut temp = chars_of("reed-case-");
    push_chars(&mut temp, &needle);
    push_str(&mut temp, ".md");
    CasePlaces { needle: string_of(&needle), uris, temp_name: string_of(&temp) }
}

// ---------------------------------------------------------------- the index

/// Where the index of a collection root is.
pub open spec fn index_of(root: Seq<char>) -> Seq<char> {
    joined(joined(root, ".qmd"@), "data.db"@)
}

/// A place where the collections may be rooted, and the file that tells.
#[derive(Debug, Clone)]
pub struct RootPlace {
    pub root: String,
    pub index: String,
}

/// What a list of places stands for.
pub open spec fn place_views(places: Seq<RootPlace>) -> Seq<(Seq<char>, Seq<char>)> {
    places.map_values(|p: RootPlace| (p.root@, p.index@))
}

/// Where the collections may be rooted: the current directory and its ancestors, in this order.
/// The root is the first whose index exists.
pub fn detect_zmd_root(current_dir: &str) -> (places: Vec<RootPlace>)
    ensures
        place_views(places@) == ancestors(current_dir@).map_values(
            |root: Seq<char>| (root, index_of(root)),
        ),
{
    let dirs = list_ancestors(&chars_of(current_dir));
    let ghost all = ancestors(current_dir@);
    let mut places: Vec<RootPlace> = Vec::new();
    let sub = chars_of(".qmd");
    let name = chars_of("data.db");
    let mut i: usize = 0;
    while i < dirs.len()
        invariant
            i <= dirs@.len(),
            all == views(dirs@),
            sub@ == ".qmd"@,
            name@ == "data.db"@,
            places@.len() == i,
            forall|k: int|
                0 <= k < i ==> (#[trigger] places@[k]).root@ == all[k] && places@[k].index@
                    == index_of(all[k]),
        decreases dirs@.len() - i,
    {
        let index = join(&join(&dirs[i], &sub), &name);
        places.push(RootPlace { root: string_of(&dirs[i]), index: string_of(&index) });
        i += 1;
    }
    assert(place_views(places@) =~= all.map_values(|root: Seq<char>| (root, index_of(root))));
    places
}

/// What the search in notes is told: it starts with keywords and can go over to meaning and back,
/// its results come from this program, the note is previewed by it, and one key asks for the cases
/// that a note cites.
pub proof fn law_zmd_args(bin: Seq<char>, root: Seq<char>, label: Seq<char>)
    ensures
        ({
            let a = zmd_args(bin, root, label);
            let reed = shell_quoted(bin);
            let keyword = reed + " --zmd-reload {q} --zmd-mode "@ + "search"@;
            let semantic = reed + " --zmd-reload {q} --zmd-mode "@ + "query"@;
            &&& a.len() == 35
            &&& a[0] == "--ansi"@ && a[1] == "--no-multi"@ && a[2] == "--disabled"@
            &&& a[3] == "--prompt"@ && a[4] == "zmd search> "@
            &&& a[5] == "--header"@
            &&& a[6] == "ctrl-t: switch to semantic  ctrl-r: referenced precedents"@
            &&& a[7] == "--expect"@ && a[8] == "ctrl-r"@
            &&& a[9] == "--delimiter"@ && a[10] == "\t"@
            &&& a[11] == "--with-nth"@ && a[12] == "2.."@
            &&& a[13] == "--preview"@
            &&& a[14] == "cd "@ + shell_quoted(root)
                + " && zmd get zmd://{1} > /tmp/reed-zmd-preview.md 2>/dev/null && [ -s /tmp/reed-zmd-preview.md ] && "@
                + reed + " --preview --highlight {q} /tmp/reed-zmd-preview.md"@
            &&& a[15] == "--preview-window"@ && a[16] == "right:64%"@
            &&& a[17] == "--height"@ && a[18] == "100%"@
            &&& a[19] == "--layout"@ && a[20] == "reverse"@
            &&& a[21] == "--border"@ && a[22] == "rounded"@
            &&& a[23] == "--border-label"@ && a[24] == label
            &&& a[25] == "--border-label-pos"@ && a[26] == "-2"@
            &&& a[27] == "--color"@ && a[28] == "bg:-1"@
            &&& a[29] == "--bind"@ && a[31] == "--bind"@ && a[33] == "--bind"@
            &&& a[30] == "change:transform:if [[ $FZF_PROMPT == *search* ]]; then echo \"reload("@
                + keyword + ")\"; else echo \"reload("@ + semantic + ")\"; fi"@
            &&& a[32] == "start:reload:true"@
            &&& a[34]
                == "ctrl-t:transform:if [[ $FZF_PROMPT == *search* ]]; then echo \"change-prompt(zmd query> )+change-header(ctrl-t: switch to FTS)+reload("@
                + semantic
                + ")\"; else echo \"change-prompt(zmd search> )+change-header(ctrl-t: switch to semantic)+reload("@
                + keyword + ")\"; fi"@
        }),
{
}

/// What was picked is the first field of the second line; the first line tells whether it is to be
/// opened or its cases are asked for.
pub proof fn law_zmd_choice(key: Seq<char>, note: Seq<char>, more: Seq<char>, rest: Seq<char>)
    requires
        one_line(key),
        one_line(note),
        one_line(more),
        trimmed(key) == key,
        note.len() > 0,
        !white_space(note[0]),
        !white_space(note.last()),
        !note.contains('\t'),
    ensures
        ({
            let output = key.push('\n') + (note + seq!['\t'] + more + seq!['|']).push('\n') + rest;
            let single = key.push('\n') + note.push('\n') + rest;
            &&& zmd_choice(true, output) == (if key == "ctrl-r"@ {
                ChoiceView::References(note)
            } else {
                ChoiceView::Open(note)
            })
            &&& zmd_choice(true, single) == zmd_choice(true, output)
            &&& zmd_choice(false, output) == ChoiceView::Nothing
        }),
{
    let line = note + seq!['\t'] + more + seq!['|'];
    let output = key.push('\n') + line.push('\n') + rest;
    let single = key.push('\n') + note.push('\n') + rest;
    assert(output =~= key.push('\n') + (line.push('\n') + rest));
    assert(single =~= key.push('\n') + (note.push('\n') + rest));
    assert(key.len() > 0 ==> key.last() != '\r') by {
        if key.len() > 0 && key.last() == '\r' {
            lemma_trimmed_ends(key);
        }
    }
    law_lines(key, line.push('\n') + rest);
    law_lines(key, note.push('\n') + rest);
    law_lines(line, rest);
    law_lines(note, rest);
    assert(lines_of(output)[0] == key && lines_of(output)[1] == line);
    assert(lines_of(single)[0] == key && lines_of(single)[1] == note);
    law_trimmed(Seq::empty(), line, Seq::empty());
    law_trimmed(Seq::empty(), note, Seq::empty());
    assert(Seq::<char>::empty() + line + Seq::<char>::empty() =~= line);
    assert(Seq::<char>::empty() + note + Seq::<char>::empty() =~= note);
    assert(line[note.len() as int] == '\t');
    assert forall|i: int| 0 <= i < note.len() implies line[i] != '\t' && note[i] != '\t' by {
        assert(note.contains(note[i]));
        assert(line[i] == note[i]);
    }
    lemma_position_at(line, '\t', note.len() as int);
    lemma_position_at(note, '\t', note.len() as int);
    assert(line.take(note.len() as int) =~= note);
    assert(note.take(note.len() as int) =~= note);
}

proof fn lemma_trimmed_ends(s: Seq<char>)
    requires
        trimmed(s) == s,
        s.len() > 0,
    ensures
        !white_space(s.last()),
{
    if white_space(s.last()) {
        let a = law_start_left(s);
        assert(trimmed_start(s).len() <= s.len());
        if trimmed_start(s).len() == s.len() {
            assert(a.len() == 0);
            assert(trimmed_start(s) =~= s);
            lemma_trimmed_end_prefix(s.drop_last());
        } else {
            lemma_trimmed_end_prefix(trimmed_start(s));
        }
    }
}

/// Nothing is picked where there is no second line.
pub proof fn law_nothing_picked(key: Seq<char>)
    requires
        one_line(key),
        key.len() > 0 ==> key.last() != '\r',
    ensures
        zmd_choice(true, key.push('\n')) == ChoiceView::Nothing,
        zmd_choice(true, seq![]) == ChoiceView::Nothing,
{
    law_lines(key, seq![]);
    assert(key.push('\n') + Seq::<char>::empty() =~= key.push('\n'));
    law_lines(seq![], seq![]);
    lemma_position(Seq::<char>::empty(), '\t');
}

/// A collection is listed by its name and, behind a colon, its directory, which lies in the root.
pub proof fn law_collections(
    lines: Seq<Seq<char>>,
    name: Seq<char>,
    dir: Seq<char>,
    root: Seq<char>,
)
    requires
        name.len() > 0,
        !name.contains(':'),
        !white_space(name[0]),
        !white_space(name.last()),
        dir.len() > 0,
        !white_space(dir[0]),
        !white_space(dir.last()),
    ensures
        collections_in(lines.push(name + seq![':', ' '] + dir), root) == collections_in(
            lines,
            root,
        ).push((name, joined(root, dir))),
{
    let line = name + seq![':', ' '] + dir;
    assert(lines.push(line).drop_last() =~= lines);
    law_trimmed(Seq::empty(), line, Seq::empty());
    assert(Seq::<char>::empty() + line + Seq::<char>::empty() =~= line);
    let n = name.len() as int;
    assert(line[n] == ':');
    assert forall|i: int| 0 <= i < n implies line[i] != ':' by {
        assert(name.contains(name[i]));
        assert(line[i] == name[i]);
    }
    lemma_position_at(line, ':', n);
    assert(line.take(n) =~= name);
    assert(line.skip(n + 1) =~= seq![' '] + dir + Seq::<char>::empty());
    law_trimmed(seq![' '], dir, Seq::empty());
    law_trimmed(Seq::empty(), name, Seq::empty());
    assert(Seq::<char>::empty() + name + Seq::<char>::empty() =~= name);
}

/// Lines without a colon list nothing.
pub proof fn law_no_collection(lines: Seq<Seq<char>>, line: Seq<char>, root: Seq<char>)
    requires
        !trimmed(line).contains(':'),
    ensures
        collections_in(lines.push(line), root) == collections_in(lines, root),
{
    assert(lines.push(line).drop_last() =~= lines);
    lemma_position(trimmed(line), ':');
}

/// A collection that is listed twice is where it was listed last.
pub proof fn law_directories(list: Seq<(Seq<char>, Seq<char>)>, name: Seq<char>, dir: Seq<char>)
    ensures
        directory_of(list.push((name, dir)), name) == Some(dir),
        forall|other: Seq<char>| #[trigger]
            directory_of(list.push((name, dir)), other) == (if other == name {
                Some(dir)
            } else {
                directory_of(list, other)
            }),
        directory_of(seq![], name) is None,
{
    assert(list.push((name, dir)).drop_last() =~= list);
}

/// A reference names a collection and, behind the first slash, the note in it.
pub proof fn law_references(collection: Seq<char>, path: Seq<char>)
    requires
        !collection.contains('/'),
    ensures
        reference_parts(collection + seq!['/'] + path) == Some((collection, path)),
        reference_parts(collection) is None,
{
    let s = collection + seq!['/'] + path;
    let n = collection.len() as int;
    assert(s[n] == '/');
    assert forall|i: int| 0 <= i < n implies s[i] != '/' by {
        assert(collection.contains(collection[i]));
        assert(s[i] == collection[i]);
    }
    lemma_position_at(s, '/', n);
    assert(s.take(n) =~= collection);
    assert(s.skip(n + 1) =~= path);
    lemma_position(collection, '/');
}

/// The file of a case is named by its number, commas for joined cases written otherwise and without
/// blanks; it may have more numbers behind it.
pub proof fn law_case_files(a: Seq<char>, b: Seq<char>, dir: Seq<char>, needle: Seq<char>)
    requires
        !a.contains(',') && !a.contains(' '),
        !b.contains(',') && !b.contains(' '),
        !needle.contains('/') && needle.len() > 0,
        needle != seq!['.'],
        needle != seq!['.', '.'],
    ensures
        case_stem(a + seq![','] + b) == a + seq!['_'] + b,
        case_stem(a + seq![' '] + b) == a + b,
        case_stem(a) == a,
        case_file(dir.push('/') + (needle.push('.') + seq!['m', 'd']), needle),
        case_file(dir.push('/') + ((needle + seq!['_', '1']).push('.') + seq!['m', 'd']), needle),
        !case_file(dir.push('/') + (needle.push('.') + seq!['t', 'x', 't']), needle),
{
    reveal_strlit("_");
    reveal_strlit("");
    reveal_strlit("md");
    assert("_"@ =~= seq!['_']);
    assert(""@ =~= seq![]);
    assert("md"@ =~= seq!['m', 'd']);
    lemma_stem_of_pair(a, b, ',', seq!['_']);
    lemma_stem_of_pair(a, b, ' ', seq![]);
    law_replaced(a, seq![], ',', "_"@);
    law_replaced(a, seq![], ' ', ""@);
    let joined_number = a + seq!['_'] + b;
    assert(!joined_number.contains(' ')) by {
        if joined_number.contains(' ') {
            let i = choose|i: int| 0 <= i < joined_number.len() && joined_number[i] == ' ';
            if i < a.len() {
                assert(a.contains(a[i]));
            } else if i > a.len() {
                assert(b.contains(b[i - a.len() - 1]));
            }
        }
    }
    law_replaced(joined_number, seq![], ' ', ""@);
    let spaced = a + seq![' '] + b;
    assert(!spaced.contains(',')) by {
        if spaced.contains(',') {
            let i = choose|i: int| 0 <= i < spaced.len() && spaced[i] == ',';
            if i < a.len() {
                assert(a.contains(a[i]));
            } else if i > a.len() {
                assert(b.contains(b[i - a.len() - 1]));
            }
        }
    }
    law_replaced(spaced, seq![], ',', "_"@);
    assert(a + Seq::<char>::empty() + b =~= a + b);
    lemma_no_slash(needle);
    law_extensions_of_names(dir, needle, seq!['m', 'd']);
    law_extensions_of_names(dir, needle, seq!['t', 'x', 't']);
    let more = needle + seq!['_', '1'];
    assert(!more.contains('/')) by {
        if more.contains('/') {
            let i = choose|i: int| 0 <= i < more.len() && more[i] == '/';
            if i < needle.len() {
                assert(needle.contains(needle[i]));
            }
        }
    }
    law_extensions_of_names(dir, more, seq!['m', 'd']);
    assert(more.take(needle.len() as int + 1) =~= needle.push('_'));
    assert(seq!['t', 'x', 't'].len() != seq!['m', 'd'].len());
}

proof fn lemma_no_slash(needle: Seq<char>)
    ensures
        !seq!['m', 'd'].contains('/') && !seq!['m', 'd'].contains('.'),
        !seq!['t', 'x', 't'].contains('/') && !seq!['t', 'x', 't'].contains('.'),
{
}

proof fn lemma_stem_of_pair(a: Seq<char>, b: Seq<char>, c: char, with: Seq<char>)
    requires
        !a.contains(c),
        !b.contains(c),
    ensures
        replaced(a + seq![c] + b, c, with) == a + with + b,
{
    law_replaced(a + seq![c], b, c, with);
    law_replaced(a, seq![c], c, with);
    law_replaced(b, seq![], c, with);
}

/// The kinds of cases and the courts, and the addresses they make.
pub proof fn law_case_uris(needle: Seq<char>)
    ensures
        CASE_TYPES@[0]@ == "민사"@ && CASE_TYPES@[1]@ == "형사"@ && CASE_TYPES@[2]@ == "가사"@,
        CASE_TYPES@[3]@ == "특허"@ && CASE_TYPES@[4]@ == "세무"@ && CASE_TYPES@[5]@ == "일반행정"@,
        COURTS@[0]@ == "대법원"@ && COURTS@[1]@ == "헌법재판소"@,
        case_uri(CASE_TYPES@[0]@, COURTS@[0]@, needle) == "zmd://precedent-kr/"@ + "민사"@ + "/"@
            + "대법원"@ + "/"@ + needle,
        case_uri(CASE_TYPES@[5]@, COURTS@[1]@, needle) == "zmd://precedent-kr/"@ + "일반행정"@ + "/"@
            + "헌법재판소"@ + "/"@ + needle,
{
}

/// The index of a collection lies in a hidden directory of the root.
pub proof fn law_index(root: Seq<char>)
    requires
        root.len() > 0,
        root.last() != '/',
    ensures
        index_of(root) == root + seq!['/', '.', 'q', 'm', 'd', '/'] + "data.db"@,
{
    reveal_strlit(".qmd");
    reveal_strlit("data.db");
    assert(".qmd"@ =~= seq!['.', 'q', 'm', 'd']);
    assert(joined(root, ".qmd"@) =~= root + seq!['/', '.', 'q', 'm', 'd']);
    assert(index_of(root) =~= root + seq!['/', '.', 'q', 'm', 'd', '/'] + "data.db"@);
}

/// A text of letters, digits and a few signs stays as it is in a shell command; every other text
/// is put into single quotes.
pub proof fn law_quotes(s: Seq<char>)
    ensures
        ({
            let letters = |c: char|
                0x61 <= c as int <= 0x7a || 0x41 <= c as int <= 0x5a || 0x30 <= c as int <= 0x39;
            let signs = seq!['%', '+', ',', '-', '.', '/', ':', '@', '_'];
            let harmless = s.len() > 0 && forall|i: int|
                0 <= i < s.len() ==> letters(#[trigger] s[i]) || signs.contains(s[i]);
            &&& harmless ==> shell_quoted(s) == s
            &&& !harmless ==> shell_quoted(s).len() >= s.len() + 2 && shell_quoted(s)[0] == '\''
                && shell_quoted(s).last() == '\''
        }),
{
    let letters = |c: char|
        0x61 <= c as int <= 0x7a || 0x41 <= c as int <= 0x5a || 0x30 <= c as int <= 0x39;
    let signs = seq!['%', '+', ',', '-', '.', '/', ':', '@', '_'];
    assert forall|c: char| #[trigger] plain_to_shell(c) == (letters(c) || signs.contains(c)) by {
        assert(signs[0] == '%' && signs[1] == '+' && signs[2] == ',' && signs[3] == '-' && signs[4]
            == '.' && signs[5] == '/' && signs[6] == ':' && signs[7] == '@' && signs[8] == '_');
        assert(plain_to_shell(c) ==> letters(c) || signs.contains(c));
        if signs.contains(c) {
            let i = choose|i: int| 0 <= i < signs.len() && signs[i] == c;
            assert(i == 0 || i == 1 || i == 2 || i == 3 || i == 4 || i == 5 || i == 6 || i == 7 || i
                == 8);
        }
    }
    assert forall|i: int| 0 <= i < s.len() implies plain_to_shell(#[trigger] s[i]) == (letters(s[i])
        || signs.contains(s[i])) by {}
    lemma_replaced_grows(s, '\'', "'\\''"@);
}

proof fn lemma_replaced_grows(s: Seq<char>, c: char, with: Seq<char>)
    requires
        with == "'\\''"@,
    ensures
        replaced(s, c, with).len() >= s.len(),
    decreases s.len(),
{
    reveal_strlit("'\\''");
    if s.len() > 0 {
        lemma_replaced_front(s, c, with);
        lemma_replaced_grows(s.skip(1), c, with);
    }
}

/// A choice stands for itself.
pub proof fn law_choices_stand_for_themselves(s: String)
    ensures
        ZmdChoice::Nothing@ == ChoiceView::Nothing,
        ZmdChoice::Open(s)@ == ChoiceView::Open(s@),
        ZmdChoice::References(s)@ == ChoiceView::References(s@),
{
}

} // verus!
