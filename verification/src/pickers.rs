//! The overlays in which the user picks a heading, a link, a code block or a case: what they
//! list, how they are asked for, and what the user's choice means.

use vstd::prelude::*;
use vstd::utf8::{decode_utf8, encode_utf8, encode_utf8_decode_utf8, is_char_boundary};

use crate::citations::{case_views, CaseRef, CaseView};
use crate::code_blocks::{code_views, CodeBlock, CodeView};
use crate::headings::{heading_views, Heading, HeadingView};
use crate::links::{link_views, Link, LinkView};
use crate::paths::optional_string;
use crate::text::{
    before_char, blank, chars_of, decimal, first_piece, is_blank, is_digit, lemma_decimal,
    lemma_parse_decimal, lemma_position_at, lemma_trimmed_end_keeps, lemma_trimmed_end_prefix,
    lines_of, parse_number, parsed_number, push_number, push_repeated, push_str, repeated,
    split_lines, string_of, texts, trim, trimmed, trimmed_start, views, white_space,
};

verus! {

/// A run of the picker program: its arguments and the lines it lists.
#[derive(Debug, Clone)]
pub struct PickerRequest {
    pub args: Vec<String>,
    pub input: String,
}

/// The arguments for a compact overlay that lists tab- or colon-separated lines without their
/// first field.
pub open spec fn overlay_args(
    prompt: Seq<char>,
    delimiter: Seq<char>,
    label: Seq<char>,
) -> Seq<Seq<char>> {
    seq![
        "--ansi"@,
        "--no-multi"@,
        "--prompt"@,
        prompt,
        "--delimiter"@,
        delimiter,
        "--with-nth"@,
        "2.."@,
        "--preview-window"@,
        "hidden"@,
        "--height"@,
        "~40%"@,
        "--layout"@,
        "reverse"@,
        "--border"@,
        "rounded"@,
        "--border-label"@,
        label,
        "--color"@,
        "bg:-1"@,
    ]
}

fn overlay(prompt: &str, delimiter: &str, label: &str) -> (args: Vec<String>)
    ensures
        texts(args@) == overlay_args(prompt@, delimiter@, label@),
{
    let mut args: Vec<String> = Vec::new();
    args.push("--ansi".to_owned());
    args.push("--no-multi".to_owned());
    args.push("--prompt".to_owned());
    args.push(prompt.to_owned());
    args.push("--delimiter".to_owned());
    args.push(delimiter.to_owned());
    args.push("--with-nth".to_owned());
    args.push("2..".to_owned());
    args.push("--preview-window".to_owned());
    args.push("hidden".to_owned());
    args.push("--height".to_owned());
    args.push("~40%".to_owned());
    args.push("--layout".to_owned());
    args.push("reverse".to_owned());
    args.push("--border".to_owned());
    args.push("rounded".to_owned());
    args.push("--border-label".to_owned());
    args.push(label.to_owned());
    args.push("--color".to_owned());
    args.push("bg:-1".to_owned());
    assert(texts(args@) =~= overlay_args(prompt@, delimiter@, label@));
    args
}

/// The row at which an overlay begins: three tenths down the screen.
pub fn overlay_row(term_rows: u16) -> (row: u16)
    requires
        term_rows * 30 <= u16::MAX,
    ensures
        row == overlay_top(term_rows as int),
        row == term_rows as int * 30 / 100,
{
    term_rows * 30 / 100
}

/// The first field of what the picker printed: what stands before the delimiter, white space
/// around the whole aside.
pub open spec fn chosen_field(output: Seq<char>, delimiter: char) -> Seq<char> {
    first_piece(trimmed(output), delimiter)
}

fn choose_field(output: &str, delimiter: char) -> (field: Vec<char>)
    ensures
        field@ == chosen_field(output@, delimiter),
{
    let chars = chars_of(output);
    let t = trim(&chars);
    before_char(&t, delimiter)
}

// ---------------------------------------------------------------- headings

/// A heading's line in the picker: its row, a colon, two spaces per level below the first, its
/// text.
pub open spec fn heading_entry(h: HeadingView) -> Seq<char> {
    decimal(h.line as nat) + seq![':'] + repeated(
        ' ',
        if h.level > 1 {
            (2 * (h.level - 1)) as nat
        } else {
            0
        },
    ) + h.text + seq!['\n']
}

/// The lines of a list of headings.
pub open spec fn heading_entries(headings: Seq<HeadingView>) -> Seq<char>
    decreases headings.len(),
{
    if headings.len() == 0 {
        seq![]
    } else {
        heading_entries(headings.drop_last()) + heading_entry(headings.last())
    }
}

/// Ask for a heading; `None` where there are none.
pub fn fzf_heading_picker(headings: &Vec<Heading>) -> (request: Option<PickerRequest>)
    ensures
        match request {
            Some(r) => headings@.len() > 0 && r.input@ == heading_entries(heading_views(headings@))
                && texts(r.args@) == overlay_args("Heading> "@, ":"@, " Headings "@),
            None => headings@.len() == 0,
        },
{
    if headings.len() == 0 {
        return None;
    }
    let ghost all = heading_views(headings@);
    let mut input: Vec<char> = Vec::new();
    let mut i: usize = 0;
    assert(all.take(0) =~= seq![]);
    while i < headings.len()
        invariant
            i <= headings@.len(),
            all == heading_views(headings@),
            input@ == heading_entries(all.take(i as int)),
        decreases headings@.len() - i,
    {
        assert(all.take(i + 1).drop_last() =~= all.take(i as int));
        assert(all.take(i + 1).last() == all[i as int]);
        let ghost before = input@;
        let h = &headings[i];
        push_number(&mut input, h.line as u64);
        input.push(':');
        let indent: usize = if h.level > 1 {
            2 * (h.level as usize - 1)
        } else {
            0
        };
        push_repeated(&mut input, ' ', indent);
        push_str(&mut input, h.text.as_str());
        input.push('\n');
        assert(input@ =~= before + heading_entry(all[i as int]));
        i += 1;
    }
    assert(all.take(i as int) =~= all);
    Some(
        PickerRequest {
            args: overlay("Heading> ", ":", " Headings "),
            input: string_of(&input),
        },
    )
}

/// The row of the heading that was picked; `None` if the user cancelled.
pub fn heading_picked(success: bool, output: &str) -> (row: Option<usize>)
    ensures
        match row {
            Some(n) => success && parsed_number(chosen_field(output@, ':')) == Some(n as nat),
            None => !success || parsed_number(chosen_field(output@, ':')) is None,
        },
{
    if !success {
        return None;
    }
    let field = choose_field(output, ':');
    parse_number(&field)
}

// ---------------------------------------------------------------- links

/// The lines of a list of links: URL, tab, text.
pub open spec fn link_entries(links: Seq<LinkView>) -> Seq<char>
    decreases links.len(),
{
    if links.len() == 0 {
        seq![]
    } else {
        link_entries(links.drop_last()) + (links.last().url + seq!['\t'] + links.last().text
            + seq!['\n'])
    }
}

/// Ask for a link; `None` where there are none.
pub fn fzf_link_picker(links: &Vec<Link>) -> (request: Option<PickerRequest>)
    ensures
        match request {
            Some(r) => links@.len() > 0 && r.input@ == link_entries(link_views(links@)) && texts(
                r.args@,
            ) == overlay_args("Link> "@, "\t"@, " Links "@),
            None => links@.len() == 0,
        },
{
    if links.len() == 0 {
        return None;
    }
    let ghost all = link_views(links@);
    let mut input: Vec<char> = Vec::new();
    let mut i: usize = 0;
    assert(all.take(0) =~= seq![]);
    while i < links.len()
        invariant
            i <= links@.len(),
            all == link_views(links@),
            input@ == link_entries(all.take(i as int)),
        decreases links@.len() - i,
    {
        assert(all.take(i + 1).drop_last() =~= all.take(i as int));
        assert(all.take(i + 1).last() == all[i as int]);
        let ghost before = input@;
        let link = &links[i];
        push_str(&mut input, link.url.as_str());
        input.push('\t');
        push_str(&mut input, link.text.as_str());
        input.push('\n');
        assert(input@ =~= before + (link.url@ + seq!['\t'] + link.text@ + seq!['\n']));
        i += 1;
    }
    assert(all.take(i as int) =~= all);
    Some(PickerRequest { args: overlay("Link> ", "\t", " Links "), input: string_of(&input) })
}

/// The URL of the link that was picked; `None` if the user cancelled.
pub fn link_picked(success: bool, output: &str) -> (url: Option<String>)
    ensures
        optional_string(url) == if success {
            Some(chosen_field(output@, '\t'))
        } else {
            None
        },
{
    if !success {
        return None;
    }
    let field = choose_field(output, '\t');
    Some(string_of(&field))
}

// ---------------------------------------------------------------- code blocks

/// The first line that is not blank; `(empty)` if there is none.
pub open spec fn first_line_shown(lines: Seq<Seq<char>>) -> Seq<char>
    decreases lines.len(),
{
    if lines.len() == 0 {
        "(empty)"@
    } else if !blank(lines[0]) {
        lines[0]
    } else {
        first_line_shown(lines.skip(1))
    }
}

/// Whether a line can be shortened: it need not be, or its character at byte 57 begins there.
pub open spec fn can_shorten(line: Seq<char>) -> bool {
    encode_utf8(line).len() > 60 ==> is_char_boundary(encode_utf8(line), 57)
}

/// A line of more than 60 bytes as its first 57 bytes and three dots; any other as it is.
pub open spec fn shortened(line: Seq<char>) -> Seq<char> {
    if encode_utf8(line).len() > 60 {
        decode_utf8(encode_utf8(line).subrange(0, 57)) + "..."@
    } else {
        line
    }
}

/// A code block's line in the picker: its position, tab, its language, how many lines it has
/// and the first of them that is not blank.
pub open spec fn code_entry(i: nat, block: CodeView) -> Seq<char> {
    let lines = lines_of(block.content);
    decimal(i) + "\t["@ + (if block.lang.len() == 0 {
        "plain"@
    } else {
        block.lang
    }) + "] ("@ + decimal(lines.len()) + " lines) "@ + shortened(first_line_shown(lines)) + seq![
        '\n',
    ]
}

/// The lines of a list of code blocks.
pub open spec fn code_entries(blocks: Seq<CodeView>) -> Seq<char>
    decreases blocks.len(),
{
    if blocks.len() == 0 {
        seq![]
    } else {
        code_entries(blocks.drop_last()) + code_entry((blocks.len() - 1) as nat, blocks.last())
    }
}

/// Whether every block's first line can be shortened.
pub open spec fn can_list(blocks: Seq<CodeView>) -> bool {
    forall|i: int|
        0 <= i < blocks.len() ==> can_shorten(
            first_line_shown(lines_of((#[trigger] blocks[i]).content)),
        )
}

fn first_shown(content: &str) -> (r: (String, usize))
    ensures
        r.0@ == first_line_shown(lines_of(content@)),
        r.1 == lines_of(content@).len(),
{
    let chars = chars_of(content);
    let lines = split_lines(&chars);
    let ghost all = views(lines@);
    let count: usize = lines.len();
    let mut i: usize = 0;
    assert(all.skip(0) =~= all);
    while i < lines.len()
        invariant
            i <= lines@.len(),
            count == lines@.len(),
            all == views(lines@),
            all == lines_of(content@),
            first_line_shown(all) == first_line_shown(all.skip(i as int)),
        decreases lines@.len() - i,
    {
        assert(all.skip(i as int)[0] == lines@[i as int]@);
        assert(all.skip(i as int).skip(1) =~= all.skip(i + 1));
        if !is_blank(&lines[i]) {
            return (string_of(&lines[i]), count);
        }
        i += 1;
    }
    ("(empty)".to_owned(), count)
}

fn shorten(line: &str) -> (r: String)
    requires
        can_shorten(line@),
    ensures
        r@ == shortened(line@),
{
    if line.as_bytes().len() > 60 {
        let (head, _) = line.split_at(57);
        proof {
            encode_utf8_decode_utf8(head@);
        }
        let mut out = chars_of(head);
        push_str(&mut out, "...");
        string_of(&out)
    } else {
        line.to_owned()
    }
}

/// Whether every block's first line can be shortened for the picker.
pub fn can_list_blocks(blocks: &Vec<CodeBlock>) -> (r: bool)
    ensures
        r == can_list(code_views(blocks@)),
{
    let ghost all = code_views(blocks@);
    let mut i: usize = 0;
    while i < blocks.len()
        invariant
            i <= blocks@.len(),
            all == code_views(blocks@),
            forall|k: int|
                0 <= k < i ==> can_shorten(
                    first_line_shown(lines_of((#[trigger] all[k]).content)),
                ),
        decreases blocks@.len() - i,
    {
        assert(all[i as int].content == blocks@[i as int].content@);
        let (line, _) = first_shown(blocks[i].content.as_str());
        if line.as_str().as_bytes().len() > 60 && !line.as_str().is_char_boundary(57) {
            assert(!can_shorten(first_line_shown(lines_of(all[i as int].content))));
            return false;
        }
        i += 1;
    }
    true
}

fn push_code_entry(input: &mut Vec<char>, i: usize, block: &CodeBlock)
    requires
        can_shorten(first_line_shown(lines_of(block@.content))),
    ensures
        final(input)@ == old(input)@ + code_entry(i as nat, block@),
{
    let ghost before = input@;
    let (line, count) = first_shown(block.content.as_str());
    let preview = shorten(line.as_str());
    push_number(input, i as u64);
    push_str(input, "\t[");
    if block.lang.as_str().is_empty() {
        push_str(input, "plain");
    } else {
        push_str(input, block.lang.as_str());
    }
    push_str(input, "] (");
    push_number(input, count as u64);
    push_str(input, " lines) ");
    push_str(input, preview.as_str());
    input.push('\n');
    assert(input@ =~= before + code_entry(i as nat, block@));
}

/// Ask for a code block; `None` where there are none.
pub fn fzf_code_block_picker(blocks: &Vec<CodeBlock>) -> (request: Option<PickerRequest>)
    requires
        can_list(code_views(blocks@)),
    ensures
        match request {
            Some(r) => blocks@.len() > 0 && r.input@ == code_entries(code_views(blocks@)) && texts(
                r.args@,
            ) == overlay_args("Copy block> "@, "\t"@, " Code Blocks "@),
            None => blocks@.len() == 0,
        },
{
    if blocks.len() == 0 {
        return None;
    }
    let ghost all = code_views(blocks@);
    let mut input: Vec<char> = Vec::new();
    let mut i: usize = 0;
    assert(all.take(0) =~= seq![]);
    while i < blocks.len()
        invariant
            i <= blocks@.len(),
            all == code_views(blocks@),
            can_list(all),
            input@ == code_entries(all.take(i as int)),
        decreases blocks@.len() - i,
    {
        assert(all.take(i + 1).drop_last() =~= all.take(i as int));
        assert(all.take(i + 1).last() == all[i as int]);
        assert(all[i as int] == blocks@[i as int]@);
        push_code_entry(&mut input, i, &blocks[i]);
        i += 1;
    }
    assert(all.take(i as int) =~= all);
    Some(
        PickerRequest {
            args: overlay("Copy block> ", "\t", " Code Blocks "),
            input: string_of(&input),
        },
    )
}

/// The position of the code block that was picked, out of `count`; `None` if the user
/// cancelled or there is no such block.
pub fn code_block_picked(success: bool, output: &str, count: usize) -> (index: Option<usize>)
    ensures
        match index {
            Some(n) => success && n < count && parsed_number(chosen_field(output@, '\t')) == Some(
                n as nat,
            ),
            None => !success || (match parsed_number(chosen_field(output@, '\t')) {
                Some(n) => n >= count,
                None => true,
            }),
        },
{
    if !success {
        return None;
    }
    let field = choose_field(output, '\t');
    match parse_number(&field) {
        Some(n) => if n < count {
            Some(n)
        } else {
            None
        },
        None => None,
    }
}

// ---------------------------------------------------------------- cases

/// How a case is named in the picker: court, date and number, as far as they are known.
pub open spec fn case_label(c: CaseView) -> Seq<char> {
    match c.ruling_date {
        Some(date) => if c.court.len() == 0 {
            c.case_number + " ("@ + date + ")"@
        } else {
            c.court + " "@ + date + " 선고 "@ + c.case_number
        },
        None => if c.court.len() == 0 {
            c.case_number
        } else {
            c.court + " "@ + c.case_number
        },
    }
}

/// The lines of a list of cases: number, tab, source, name.
pub open spec fn case_entries(cases: Seq<CaseView>) -> Seq<char>
    decreases cases.len(),
{
    if cases.len() == 0 {
        seq![]
    } else {
        let c = cases.last();
        case_entries(cases.drop_last()) + (c.case_number + "\t["@ + c.source + "] "@ + case_label(c)
            + seq!['\n'])
    }
}

fn push_label(out: &mut Vec<char>, c: &CaseRef)
    ensures
        final(out)@ == old(out)@ + case_label(c@),
{
    match &c.ruling_date {
        Some(date) => {
            if c.court.as_str().is_empty() {
                push_str(out, c.case_number.as_str());
                push_str(out, " (");
                push_str(out, date.as_str());
                push_str(out, ")");
            } else {
                push_str(out, c.court.as_str());
                push_str(out, " ");
                push_str(out, date.as_str());
                push_str(out, " 선고 ");
                push_str(out, c.case_number.as_str());
            }
        },
        None => {
            if !c.court.as_str().is_empty() {
                push_str(out, c.court.as_str());
                push_str(out, " ");
            }
            push_str(out, c.case_number.as_str());
        },
    }
    assert(out@ =~= old(out)@ + case_label(c@));
}

/// Ask for a referenced case; `None` where there are none.
pub fn case_ref_pick(case_refs: &Vec<CaseRef>) -> (request: Option<PickerRequest>)
    ensures
        match request {
            Some(r) => case_refs@.len() > 0 && r.input@ == case_entries(case_views(case_refs@))
                && texts(r.args@) == overlay_args("참조판례> "@, "\t"@, " Referenced Precedents "@),
            None => case_refs@.len() == 0,
        },
{
    if case_refs.len() == 0 {
        return None;
    }
    let ghost all = case_views(case_refs@);
    let mut input: Vec<char> = Vec::new();
    let mut i: usize = 0;
    assert(all.take(0) =~= seq![]);
    while i < case_refs.len()
        invariant
            i <= case_refs@.len(),
            all == case_views(case_refs@),
            input@ == case_entries(all.take(i as int)),
        decreases case_refs@.len() - i,
    {
        assert(all.take(i + 1).drop_last() =~= all.take(i as int));
        assert(all.take(i + 1).last() == all[i as int]);
        let ghost before = input@;
        let c = &case_refs[i];
        push_str(&mut input, c.case_number.as_str());
        push_str(&mut input, "\t[");
        push_str(&mut input, c.source);
        push_str(&mut input, "] ");
        push_label(&mut input, c);
        input.push('\n');
        assert(input@ =~= before + (c@.case_number + "\t["@ + c@.source + "] "@ + case_label(c@)
            + seq!['\n']));
        i += 1;
    }
    assert(all.take(i as int) =~= all);
    Some(
        PickerRequest {
            args: overlay("참조판례> ", "\t", " Referenced Precedents "),
            input: string_of(&input),
        },
    )
}

/// The number of the case that was picked; `None` if the user cancelled or it is empty.
pub fn case_picked(success: bool, output: &str) -> (number: Option<String>)
    ensures
        optional_string(number) == if success && chosen_field(output@, '\t').len() > 0 {
            Some(chosen_field(output@, '\t'))
        } else {
            None
        },
{
    if !success {
        return None;
    }
    let field = choose_field(output, '\t');
    if field.len() == 0 {
        None
    } else {
        Some(string_of(&field))
    }
}

// ---------------------------------------------------------------- laws

/// Whether a text can be the first field of a picker's line: it is not empty, does not hold the
/// delimiter, and neither begins nor ends with white space.
pub open spec fn field_like(field: Seq<char>, delimiter: char) -> bool {
    &&& field.len() > 0
    &&& !white_space(field[0])
    &&& !white_space(field.last())
    &&& !field.contains(delimiter)
}

/// The first field of a line is read back from it.
pub proof fn law_chosen_field(field: Seq<char>, delimiter: char, rest: Seq<char>)
    requires
        field_like(field, delimiter),
    ensures
        chosen_field(field + seq![delimiter] + rest, delimiter) == field,
{
    let s = field + seq![delimiter] + rest;
    let k = field.len() as int;
    assert(s[0] == field[0]);
    assert(trimmed_start(s) == s);
    assert(s[k - 1] == field.last());
    lemma_trimmed_end_keeps(s, k - 1);
    lemma_trimmed_end_prefix(s);
    let t = trimmed(s);
    assert(s.take(k) =~= field);
    assert forall|i: int| 0 <= i < k implies t[i] != delimiter by {
        assert(t[i] == s[i]);
        assert(s[i] == field[i]);
        assert(field.contains(field[i]));
    }
    if t.len() > k {
        assert(t[k] == s[k]);
    }
    lemma_position_at(t, delimiter, k);
    assert(t.take(k) =~= field);
}

/// Picking a heading's line goes to the heading's row.
pub proof fn law_heading_choice(h: HeadingView)
    requires
        0 <= h.line <= usize::MAX,
    ensures
        parsed_number(chosen_field(heading_entry(h), ':')) == Some(h.line as nat),
{
    let field = decimal(h.line as nat);
    lemma_decimal_field(h.line as nat, ':');
    let indent = repeated(
        ' ',
        if h.level > 1 {
            (2 * (h.level - 1)) as nat
        } else {
            0
        },
    );
    assert(heading_entry(h) =~= field + seq![':'] + (indent + h.text + seq!['\n']));
    law_chosen_field(field, ':', indent + h.text + seq!['\n']);
    lemma_parse_decimal(h.line as nat);
}

/// Picking a code block's line copies that block.
pub proof fn law_code_block_choice(i: nat, block: CodeView)
    requires
        i <= usize::MAX,
    ensures
        parsed_number(chosen_field(code_entry(i, block), '\t')) == Some(i),
{
    reveal_strlit("\t[");
    let field = decimal(i);
    lemma_decimal_field(i, '\t');
    let rest = code_entry(i, block).skip((field.len() + 1) as int);
    let tail = (if block.lang.len() == 0 {
        "plain"@
    } else {
        block.lang
    }) + "] ("@ + decimal(lines_of(block.content).len()) + " lines) "@ + shortened(
        first_line_shown(lines_of(block.content)),
    ) + seq!['\n'];
    assert(code_entry(i, block) =~= field + "\t["@ + tail);
    assert(code_entry(i, block) =~= field + seq!['\t'] + rest);
    law_chosen_field(field, '\t', rest);
    lemma_parse_decimal(i);
}

/// Picking a link's line opens its URL, where that can be a field of a line.
pub proof fn law_link_choice(link: LinkView)
    requires
        field_like(link.url, '\t'),
    ensures
        chosen_field(link.url + seq!['\t'] + link.text + seq!['\n'], '\t') == link.url,
{
    assert(link.url + seq!['\t'] + link.text + seq!['\n'] =~= link.url + seq!['\t'] + (link.text
        + seq!['\n']));
    law_chosen_field(link.url, '\t', link.text + seq!['\n']);
}

/// Picking a case's line opens that case, where its number can be a field of a line.
pub proof fn law_case_choice(c: CaseView)
    requires
        field_like(c.case_number, '\t'),
    ensures
        chosen_field(
            c.case_number + "\t["@ + c.source + "] "@ + case_label(c) + seq!['\n'],
            '\t',
        ) == c.case_number,
{
    reveal_strlit("\t[");
    let entry = c.case_number + "\t["@ + c.source + "] "@ + case_label(c) + seq!['\n'];
    let rest = entry.skip((c.case_number.len() + 1) as int);
    let tail = c.source + "] "@ + case_label(c) + seq!['\n'];
    assert(entry =~= c.case_number + "\t["@ + tail);
    assert(entry =~= c.case_number + seq!['\t'] + rest);
    law_chosen_field(c.case_number, '\t', rest);
}

proof fn lemma_decimal_field(n: nat, delimiter: char)
    requires
        delimiter == ':' || delimiter == '\t',
    ensures
        field_like(decimal(n), delimiter),
{
    lemma_decimal(n);
    let s = decimal(n);
    assert(is_digit(s[0]));
    assert(is_digit(s[s.len() - 1]));
    assert forall|i: int| 0 <= i < s.len() implies s[i] != delimiter by {
        assert(is_digit(s[i]));
    }
}

/// What a picker over the text is told: its prompt, what separates the fields, that the first one is
/// not shown, its label, and its looks.
pub proof fn law_overlay_args(prompt: Seq<char>, delimiter: Seq<char>, label: Seq<char>)
    ensures
        ({
            let a = overlay_args(prompt, delimiter, label);
            &&& a.len() == 20
            &&& a[0] == "--ansi"@ && a[1] == "--no-multi"@
            &&& a[2] == "--prompt"@ && a[3] == prompt
            &&& a[4] == "--delimiter"@ && a[5] == delimiter
            &&& a[6] == "--with-nth"@ && a[7] == "2.."@
            &&& a[8] == "--preview-window"@ && a[9] == "hidden"@
            &&& a[10] == "--height"@ && a[11] == "~40%"@
            &&& a[12] == "--layout"@ && a[13] == "reverse"@
            &&& a[14] == "--border"@ && a[15] == "rounded"@
            &&& a[16] == "--border-label"@ && a[17] == label
            &&& a[18] == "--color"@ && a[19] == "bg:-1"@
        }),
{
}

/// A heading is listed with its row, indented by two blanks for each level below the first.
pub proof fn law_heading_entries(headings: Seq<HeadingView>, h: HeadingView)
    requires
        h.line >= 0,
        h.level >= 1,
    ensures
        heading_entries(headings.push(h)) == heading_entries(headings) + (decimal(h.line as nat)
            + seq![':'] + repeated(' ', (2 * h.level - 2) as nat) + h.text + seq!['\n']),
        heading_entries(seq![]).len() == 0,
{
    assert(headings.push(h).drop_last() =~= headings);
}

/// A link is listed with its address and its text.
pub proof fn law_link_entries(links: Seq<LinkView>, l: LinkView)
    ensures
        link_entries(links.push(l)) == link_entries(links) + (l.url + seq!['\t'] + l.text + seq![
            '\n',
        ]),
        link_entries(seq![]).len() == 0,
{
    assert(links.push(l).drop_last() =~= links);
}

/// A block of code is listed with its number, its language, how many lines it has, and the first
/// line of it that is not blank.
pub proof fn law_code_entries(blocks: Seq<CodeView>, b: CodeView)
    ensures
        ({
            let lines = lines_of(b.content);
            let lang = if b.lang.len() == 0 {
                "plain"@
            } else {
                b.lang
            };
            code_entries(blocks.push(b)) == code_entries(blocks) + (decimal(blocks.len()) + seq![
                '\t',
                '[',
            ] + lang + seq![']', ' ', '('] + decimal(lines.len()) + " lines) "@ + shortened(
                first_line_shown(lines),
            ) + seq!['\n'])
        }),
        code_entries(seq![]).len() == 0,
{
    reveal_strlit("\t[");
    reveal_strlit("] (");
    assert("\t["@ =~= seq!['\t', '[']);
    assert("] ("@ =~= seq![']', ' ', '(']);
    assert(blocks.push(b).drop_last() =~= blocks);
}

/// The first line that is not blank stands for the block, or else a word.
pub proof fn law_first_line_shown(blanks: Seq<Seq<char>>, line: Seq<char>, rest: Seq<Seq<char>>)
    requires
        forall|i: int| 0 <= i < blanks.len() ==> blank(#[trigger] blanks[i]),
    ensures
        !blank(line) ==> first_line_shown(blanks + seq![line] + rest) == line,
        first_line_shown(blanks) == "(empty)"@,
    decreases blanks.len(),
{
    if blanks.len() > 0 {
        assert(blank(blanks[0]));
        assert forall|i: int| 0 <= i < blanks.skip(1).len() implies blank(
            #[trigger] blanks.skip(1)[i],
        ) by {
            assert(blanks.skip(1)[i] == blanks[i + 1]);
        }
        assert((blanks + seq![line] + rest).skip(1) =~= blanks.skip(1) + seq![line] + rest);
        law_first_line_shown(blanks.skip(1), line, rest);
    } else {
        assert((blanks + seq![line] + rest)[0] == line);
    }
}

/// A line of more than 60 bytes is cut behind the 57th, and dots say so.
pub proof fn law_shortened(line: Seq<char>)
    ensures
        encode_utf8(line).len() <= 60 ==> shortened(line) == line,
        encode_utf8(line).len() > 60 ==> shortened(line) == decode_utf8(encode_utf8(line).take(57))
            + seq!['.', '.', '.'],
{
    reveal_strlit("...");
    assert("..."@ =~= seq!['.', '.', '.']);
    let bytes = encode_utf8(line);
    if bytes.len() > 60 {
        assert(bytes.subrange(0, 57) =~= bytes.take(57));
    }
}

/// A case is listed with its number, where it was found, and what is known of it: the court, the
/// date of the ruling and the number.
pub proof fn law_case_entries(cases: Seq<CaseView>, c: CaseView)
    ensures
        case_entries(cases.push(c)) == case_entries(cases) + (c.case_number + seq!['\t', '[']
            + c.source + seq![']', ' '] + case_label(c) + seq!['\n']),
        case_entries(seq![]).len() == 0,
        c.ruling_date is None && c.court.len() == 0 ==> case_label(c) == c.case_number,
        c.ruling_date is None && c.court.len() > 0 ==> case_label(c) == c.court + seq![' ']
            + c.case_number,
        c.ruling_date is Some && c.court.len() == 0 ==> case_label(c) == c.case_number + seq![
            ' ',
            '(',
        ] + c.ruling_date->0 + seq![')'],
        c.ruling_date is Some && c.court.len() > 0 ==> case_label(c) == c.court + seq![' ']
            + c.ruling_date->0 + " 선고 "@ + c.case_number,
{
    reveal_strlit("\t[");
    reveal_strlit("] ");
    reveal_strlit(" ");
    reveal_strlit(" (");
    reveal_strlit(")");
    assert("\t["@ =~= seq!['\t', '[']);
    assert("] "@ =~= seq![']', ' ']);
    assert(" "@ =~= seq![' ']);
    assert(" ("@ =~= seq![' ', '(']);
    assert(")"@ =~= seq![')']);
    assert(cases.push(c).drop_last() =~= cases);
}

/// The row at which an overlay begins.
pub open spec fn overlay_top(term_rows: int) -> int {
    term_rows * 30 / 100
}

/// Three tenths of the screen are above an overlay, as far as whole rows go; it is never below the
/// screen.
pub proof fn law_overlay_row(term_rows: int)
    requires
        0 < term_rows,
    ensures
        10 * overlay_top(term_rows) <= 3 * term_rows < 10 * (overlay_top(term_rows) + 1),
        0 <= overlay_top(term_rows) < term_rows,
{
}

} // verus!
