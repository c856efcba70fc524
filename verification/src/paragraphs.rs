//! Joining the source lines of a paragraph, so that it can be reflowed to the terminal's width.

use vstd::prelude::*;

use crate::text::{
    begins, blank, chars_of, cut, ended_lines, holds, is_blank, is_text, is_whitespace,
    law_blanks_have_no_words, law_start_left, law_trimmed_start, law_trimming_keeps_words,
    law_words_apart, lemma_blank_trimmed, lemma_ended_first, lemma_ended_sum, lemma_lines_of_ended,
    lemma_lines_whole, lemma_lines_without, lemma_occurrence_from, lemma_trimmed_end_prefix,
    lines_of, occurs_at, one_line, push_chars, split_lines, starts_with, string_of, trim,
    trim_start, trimmed, trimmed_end, trimmed_start, views, white_space, without_cr, words,
};

verus! {

// ---------------------------------------------------------------- kinds of lines

/// Whether a line opens or closes a fenced code block.
pub open spec fn code_fence(line: Seq<char>) -> bool {
    begins(trimmed_start(line), "```"@) || begins(trimmed_start(line), "~~~"@)
}

/// Returns `true` if a line opens or closes a fenced code block.
pub fn is_code_fence(line: &Vec<char>) -> (r: bool)
    ensures
        r == code_fence(line@),
{
    let t = trim_start(line);
    starts_with(&t, "```") || starts_with(&t, "~~~")
}

/// How many decimal digits a text begins with.
pub open spec fn digit_run(s: Seq<char>) -> nat
    decreases s.len(),
{
    if s.len() > 0 && '0' <= s[0] <= '9' {
        1 + digit_run(s.skip(1))
    } else {
        0
    }
}

/// Whether a text begins with an ordered list marker: digits, then `. ` or `) `.
pub open spec fn ordered_marker(s: Seq<char>) -> bool {
    let rest = s.skip(digit_run(s) as int);
    digit_run(s) > 0 && (begins(rest, ". "@) || begins(rest, ") "@))
}

/// How often a character occurs in a text.
pub open spec fn occurrences(s: Seq<char>, c: char) -> nat
    decreases s.len(),
{
    if s.len() == 0 {
        0
    } else {
        occurrences(s.drop_last(), c) + (if s.last() == c {
            1nat
        } else {
            0nat
        })
    }
}

/// Whether a text is made of at least three `c` and nothing else but white space.
pub open spec fn rule_of(s: Seq<char>, c: char) -> bool {
    occurrences(s, c) >= 3 && forall|i: int|
        0 <= i < s.len() ==> (#[trigger] s[i]) == c || white_space(s[i])
}

/// Whether a text is a horizontal rule: at least three of the same of `-`, `*` and `_`, with
/// nothing but white space around and between them.
pub open spec fn horizontal_rule(s: Seq<char>) -> bool {
    rule_of(s, '-') || rule_of(s, '*') || rule_of(s, '_')
}

/// Whether a line is an element of its own that is never joined with its neighbours: a
/// heading, a list item, a blockquote, a table row, HTML or a horizontal rule.
pub open spec fn structural(line: Seq<char>) -> bool {
    let t = trimmed_start(line);
    ||| begins(t, "#"@)
    ||| begins(t, "- "@) || begins(t, "* "@) || begins(t, "+ "@)
    ||| t == "-"@ || t == "*"@ || t == "+"@
    ||| ordered_marker(t)
    ||| begins(t, ">"@) || begins(t, "|"@) || begins(t, "<"@)
    ||| horizontal_rule(t)
}

fn is_ordered_marker(t: &Vec<char>) -> (r: bool)
    ensures
        r == ordered_marker(t@),
{
    let mut n: usize = 0;
    assert(t@.skip(0) =~= t@);
    while n < t.len() && '0' <= t[n] && t[n] <= '9'
        invariant
            n <= t@.len(),
            digit_run(t@) == n + digit_run(t@.skip(n as int)),
        decreases t@.len() - n,
    {
        assert(t@.skip(n as int).skip(1) =~= t@.skip(n + 1));
        n += 1;
    }
    let rest = cut(t, n, t.len());
    assert(rest@ =~= t@.skip(n as int));
    n > 0 && (starts_with(&rest, ". ") || starts_with(&rest, ") "))
}

fn is_rule_of(t: &Vec<char>, c: char) -> (r: bool)
    ensures
        r == rule_of(t@, c),
{
    let mut i: usize = 0;
    let mut count: usize = 0;
    assert(t@.take(0) =~= seq![]);
    while i < t.len()
        invariant
            i <= t@.len(),
            count <= i,
            count == occurrences(t@.take(i as int), c),
            forall|j: int| 0 <= j < i ==> (#[trigger] t@[j]) == c || white_space(t@[j]),
        decreases t@.len() - i,
    {
        assert(t@.take(i + 1).drop_last() =~= t@.take(i as int));
        assert(t@.take(i + 1).last() == t@[i as int]);
        if t[i] == c {
            count += 1;
        } else if !is_whitespace(t[i]) {
            return false;
        }
        i += 1;
    }
    assert(t@.take(i as int) =~= t@);
    count >= 3
}

/// Check for horizontal rules: at least three of the same of `-`, `*` and `_`, optionally
/// separated by spaces.
pub fn is_horizontal_rule(trimmed: &Vec<char>) -> (r: bool)
    ensures
        r == horizontal_rule(trimmed@),
{
    is_rule_of(trimmed, '-') || is_rule_of(trimmed, '*') || is_rule_of(trimmed, '_')
}

/// Returns `true` if a line is a structural markdown element that should never be joined with
/// adjacent lines.
pub fn is_structural(line: &Vec<char>) -> (r: bool)
    ensures
        r == structural(line@),
{
    let t = trim_start(line);
    starts_with(&t, "#") || starts_with(&t, "- ") || starts_with(&t, "* ") || starts_with(&t, "+ ")
        || is_text(&t, "-") || is_text(&t, "*") || is_text(&t, "+") || is_ordered_marker(&t)
        || starts_with(&t, ">") || starts_with(&t, "|") || starts_with(&t, "<")
        || is_horizontal_rule(&t)
}

// ---------------------------------------------------------------- frontmatter

/// Where the body of a document begins: at its first line, or behind the frontmatter, a block
/// that a first line `---` opens and a line `---` or `...` closes. One that is never closed
/// takes up the whole document.
pub open spec fn body_start(lines: Seq<Seq<char>>) -> int {
    if lines.len() > 0 && trimmed(lines[0]) == "---"@ {
        frontmatter_end(lines, 1)
    } else {
        0
    }
}

/// The line behind the first one, at or after `from`, that closes frontmatter.
pub open spec fn frontmatter_end(lines: Seq<Seq<char>>, from: int) -> int
    decreases lines.len() - from,
{
    if from >= lines.len() {
        from
    } else if trimmed(lines[from]) == "---"@ || trimmed(lines[from]) == "..."@ {
        from + 1
    } else {
        frontmatter_end(lines, from + 1)
    }
}

fn find_body(lines: &Vec<Vec<char>>) -> (start: usize)
    ensures
        start == body_start(views(lines@)),
        start <= lines@.len(),
{
    let ghost all = views(lines@);
    if lines.len() == 0 {
        return 0;
    }
    let first = trim(&lines[0]);
    assert(all[0] == lines@[0]@);
    if !is_text(&first, "---") {
        return 0;
    }
    let mut i: usize = 1;
    while i < lines.len()
        invariant
            1 <= i <= lines@.len(),
            all == views(lines@),
            body_start(all) == frontmatter_end(all, 1),
            frontmatter_end(all, 1) == frontmatter_end(all, i as int),
        decreases lines@.len() - i,
    {
        let t = trim(&lines[i]);
        assert(all[i as int] == lines@[i as int]@);
        if is_text(&t, "---") || is_text(&t, "...") {
            return i + 1;
        }
        i += 1;
    }
    i
}

// ---------------------------------------------------------------- joining

/// Whether a line stands for itself: it opens or closes a code block, is inside one, is
/// structural, or is blank.
pub open spec fn stands_alone(line: Seq<char>, in_fence: bool) -> bool {
    code_fence(line) || in_fence || structural(line) || blank(line)
}

/// How many lines, from the first on, continue a paragraph.
pub open spec fn continuation(lines: Seq<Seq<char>>) -> nat
    decreases lines.len(),
{
    if lines.len() > 0 && !stands_alone(lines[0], false) {
        1 + continuation(lines.skip(1))
    } else {
        0
    }
}

/// The text by which lines continue a paragraph: each one trimmed, behind a space.
pub open spec fn continued(lines: Seq<Seq<char>>) -> Seq<char>
    decreases lines.len(),
{
    if lines.len() == 0 {
        seq![]
    } else {
        continued(lines.drop_last()) + seq![' '] + trimmed(lines.last())
    }
}

pub proof fn lemma_continuation(lines: Seq<Seq<char>>)
    ensures
        continuation(lines) <= lines.len(),
        continuation(lines) < lines.len() ==> stands_alone(
            lines[continuation(lines) as int],
            false,
        ),
        forall|i: int|
            0 <= i < continuation(lines) ==> !stands_alone(#[trigger] lines[i], false),
    decreases lines.len(),
{
    if lines.len() > 0 && !stands_alone(lines[0], false) {
        lemma_continuation(lines.skip(1));
        assert forall|i: int| 0 <= i < continuation(lines) implies !stands_alone(
            #[trigger] lines[i],
            false,
        ) by {
            if i > 0 {
                assert(lines[i] == lines.skip(1)[i - 1]);
            }
        }
    }
}

/// The text of a document's lines with every paragraph on one line. `in_fence` says whether
/// the first line lies inside a code block.
pub open spec fn reflowed(lines: Seq<Seq<char>>, in_fence: bool) -> Seq<char>
    decreases lines.len(),
    via reflowed_decreases
{
    if lines.len() == 0 {
        seq![]
    } else if stands_alone(lines[0], in_fence) {
        lines[0].push('\n') + reflowed(lines.skip(1), code_fence(lines[0]) != in_fence)
    } else {
        let n = continuation(lines.skip(1)) as int;
        (lines[0] + continued(lines.subrange(1, n + 1))).push('\n') + reflowed(
            lines.skip(n + 1),
            false,
        )
    }
}

#[via_fn]
proof fn reflowed_decreases(lines: Seq<Seq<char>>, in_fence: bool) {
    if lines.len() > 0 {
        lemma_continuation(lines.skip(1));
    }
}

/// A document with its frontmatter gone and every paragraph on one line. Of a document that is
/// all frontmatter, a line end stays if it had one.
pub open spec fn joined_paragraphs(markdown: Seq<char>) -> Seq<char> {
    let lines = lines_of(markdown);
    let out = reflowed(lines.skip(body_start(lines)), false);
    if out.len() == 0 && markdown.len() > 0 && markdown.last() == '\n' {
        seq!['\n']
    } else {
        out
    }
}

/// Join consecutive plain-text lines into single lines.
///
/// The renderer takes every source line as a paragraph of its own, while markdown joins
/// consecutive non-blank lines. Structural lines are never joined: blank lines, headings, list
/// items, blockquotes, code fences and what is between them, tables, horizontal rules, HTML.
/// Frontmatter at the start of the document is dropped.
pub fn join_paragraphs(markdown: &str) -> (r: String)
    ensures
        r@ == joined_paragraphs(markdown@),
{
    let chars = chars_of(markdown);
    let lines = split_lines(&chars);
    let ghost all = views(lines@);
    let start: usize = find_body(&lines);
    let ghost body = all.skip(start as int);
    let mut output: Vec<char> = Vec::new();
    let mut in_fence = false;
    let mut i: usize = start;
    assert(output@ + reflowed(body, false) =~= reflowed(body, false));
    while i < lines.len()
        invariant
            start <= i <= lines@.len(),
            all == views(lines@),
            output@ + reflowed(all.skip(i as int), in_fence) == reflowed(body, false),
            output@.len() == 0 ==> i == start,
            output@.len() > 0 ==> output@.last() == '\n',
        decreases lines@.len() - i,
    {
        let ghost before = output@;
        let ghost rest = all.skip(i as int);
        let line = &lines[i];
        assert(rest[0] == line@);
        assert(rest.skip(1) =~= all.skip(i + 1));
        let fence = is_code_fence(line);
        if fence || in_fence || is_structural(line) || is_blank(line) {
            push_chars(&mut output, line);
            output.push('\n');
            i += 1;
            assert(output@ + reflowed(all.skip(i as int), fence != in_fence) =~= before + (
            line@.push('\n') + reflowed(all.skip(i as int), fence != in_fence)));
            in_fence = fence != in_fence;
        } else {
            push_chars(&mut output, line);
            i += 1;
            let ghost first = i as int;
            let ghost head = before + line@;
            let ghost tail = all.skip(first);
            assert(all.subrange(first, first) =~= seq![]);
            assert(output@ =~= head + continued(all.subrange(first, first)));
            while i < lines.len() && !(is_blank(&lines[i]) || is_structural(&lines[i])
                || is_code_fence(&lines[i]))
                invariant
                    first <= i <= lines@.len(),
                    all == views(lines@),
                    0 <= first <= all.len(),
                    continuation(all.skip(first)) == (i - first) + continuation(
                        all.skip(i as int),
                    ),
                    output@ == head + continued(all.subrange(first, i as int)),
                decreases lines@.len() - i,
            {
                let ghost sofar = output@;
                assert(all.skip(i as int)[0] == lines@[i as int]@);
                assert(all.skip(i as int).skip(1) =~= all.skip(i + 1));
                let next = trim(&lines[i]);
                output.push(' ');
                push_chars(&mut output, &next);
                i += 1;
                let ghost part = all.subrange(first, i as int);
                assert(part.drop_last() =~= all.subrange(first, i - 1));
                assert(part.last() == all[i - 1]);
                assert(output@ =~= head + (continued(part.drop_last()) + seq![' '] + next@));
            }
            assert(i < lines@.len() ==> all.skip(i as int)[0] == lines@[i as int]@);
            output.push('\n');
            let ghost n = i - first;
            assert(rest.skip(1) =~= all.skip(first));
            assert(n == continuation(rest.skip(1)));
            assert(rest.subrange(1, n + 1) =~= all.subrange(first, i as int));
            assert(rest.skip(n + 1) =~= all.skip(i as int));
            assert(output@ + reflowed(all.skip(i as int), false) =~= before + ((rest[0] + continued(
                rest.subrange(1, n + 1),
            )).push('\n') + reflowed(rest.skip(n + 1), false)));
        }
    }
    assert(output@ + reflowed(all.skip(i as int), in_fence) =~= output@);
    if ends_in_newline(&chars) && output.len() == 0 {
        output.push('\n');
        assert(output@ =~= seq!['\n']);
    }
    string_of(&output)
}

fn ends_in_newline(s: &Vec<char>) -> (r: bool)
    ensures
        r == (s@.len() > 0 && s@.last() == '\n'),
{
    s.len() > 0 && s[s.len() - 1] == '\n'
}

// ---------------------------------------------------------------- laws

/// Whether the line behind `lines` lies inside a code block.
pub open spec fn fence_after(lines: Seq<Seq<char>>, in_fence: bool) -> bool
    decreases lines.len(),
{
    if lines.len() == 0 {
        in_fence
    } else {
        fence_after(lines.skip(1), code_fence(lines[0]) != in_fence)
    }
}

/// A line that stands for itself is never joined with its neighbours: whatever stands before
/// and behind it, it comes out unchanged on a line of its own, between what the lines before
/// it and the lines behind it give by themselves.
pub proof fn law_structural_lines_never_joined(
    before: Seq<Seq<char>>,
    line: Seq<char>,
    behind: Seq<Seq<char>>,
    in_fence: bool,
)
    requires
        stands_alone(line, fence_after(before, in_fence)),
    ensures
        reflowed(before + seq![line] + behind, in_fence) == reflowed(before, in_fence) + line.push(
            '\n',
        ) + reflowed(behind, code_fence(line) != fence_after(before, in_fence)),
    decreases before.len(),
{
    let all = before + seq![line] + behind;
    if before.len() == 0 {
        assert(all[0] == line);
        assert(all.skip(1) =~= behind);
        assert(reflowed(before, in_fence) =~= seq![]);
        assert(seq![] + line.push('\n') =~= line.push('\n'));
    } else if stands_alone(before[0], in_fence) {
        let after = code_fence(before[0]) != in_fence;
        assert(all[0] == before[0]);
        assert(all.skip(1) =~= before.skip(1) + seq![line] + behind);
        law_structural_lines_never_joined(before.skip(1), line, behind, after);
        let tail = reflowed(behind, code_fence(line) != fence_after(before, in_fence));
        assert(before[0].push('\n') + (reflowed(before.skip(1), after) + line.push('\n') + tail)
            =~= before[0].push('\n') + reflowed(before.skip(1), after) + line.push('\n') + tail);
    } else {
        let rest = before.skip(1);
        lemma_continuation(rest);
        let n = continuation(rest) as int;
        assert forall|i: int| 0 <= i < n + 1 implies !stands_alone(#[trigger] before[i], false) by {
            if i > 0 {
                assert(before[i] == rest[i - 1]);
            }
        }
        lemma_fence_after_paragraph(before, n + 1);
        lemma_continuation_stops(rest, line, behind);
        assert(all[0] == before[0]);
        assert(all.skip(1) =~= rest + seq![line] + behind);
        assert(all.subrange(1, n + 1) =~= before.subrange(1, n + 1));
        assert(all.skip(n + 1) =~= before.skip(n + 1) + seq![line] + behind);
        law_structural_lines_never_joined(before.skip(n + 1), line, behind, false);
        let head = (before[0] + continued(before.subrange(1, n + 1))).push('\n');
        let tail = reflowed(behind, code_fence(line) != fence_after(before, in_fence));
        assert(head + (reflowed(before.skip(n + 1), false) + line.push('\n') + tail) =~= head
            + reflowed(before.skip(n + 1), false) + line.push('\n') + tail);
    }
}

/// The lines of a paragraph leave the state outside of code blocks.
proof fn lemma_fence_after_paragraph(lines: Seq<Seq<char>>, n: int)
    requires
        0 <= n <= lines.len(),
        forall|i: int| 0 <= i < n ==> !stands_alone(#[trigger] lines[i], false),
    ensures
        fence_after(lines, false) == fence_after(lines.skip(n), false),
    decreases n,
{
    if n > 0 {
        assert(!stands_alone(lines[0], false));
        assert forall|i: int| 0 <= i < n - 1 implies !stands_alone(
            #[trigger] lines.skip(1)[i],
            false,
        ) by {
            assert(lines.skip(1)[i] == lines[i + 1]);
        }
        lemma_fence_after_paragraph(lines.skip(1), n - 1);
        assert(lines.skip(1).skip(n - 1) =~= lines.skip(n));
    } else {
        assert(lines.skip(0) =~= lines);
    }
}

/// A paragraph does not run past a line that stands for itself.
proof fn lemma_continuation_stops(lines: Seq<Seq<char>>, line: Seq<char>, behind: Seq<Seq<char>>)
    requires
        continuation(lines) < lines.len() || stands_alone(line, false),
    ensures
        continuation(lines + seq![line] + behind) == continuation(lines),
    decreases lines.len(),
{
    let all = lines + seq![line] + behind;
    if lines.len() == 0 {
        assert(all[0] == line);
    } else {
        assert(all[0] == lines[0]);
        if !stands_alone(lines[0], false) {
            assert(all.skip(1) =~= lines.skip(1) + seq![line] + behind);
            lemma_continuation_stops(lines.skip(1), line, behind);
        }
    }
}

/// Lines inside a code block come out as they are.
pub proof fn law_code_kept_verbatim(code: Seq<Seq<char>>, behind: Seq<Seq<char>>)
    requires
        forall|i: int| 0 <= i < code.len() ==> !code_fence(#[trigger] code[i]),
    ensures
        reflowed(code + behind, true) == unchanged(code) + reflowed(behind, true),
    decreases code.len(),
{
    if code.len() == 0 {
        assert(code + behind =~= behind);
        assert(unchanged(code) + reflowed(behind, true) =~= reflowed(behind, true));
    } else {
        let all = code + behind;
        assert(all[0] == code[0]);
        assert(all.skip(1) =~= code.skip(1) + behind);
        assert forall|i: int| 0 <= i < code.skip(1).len() implies !code_fence(
            #[trigger] code.skip(1)[i],
        ) by {
            assert(code.skip(1)[i] == code[i + 1]);
        }
        law_code_kept_verbatim(code.skip(1), behind);
        assert(code[0].push('\n') + (unchanged(code.skip(1)) + reflowed(behind, true)) =~= code[0].push(
            '\n',
        ) + unchanged(code.skip(1)) + reflowed(behind, true));
    }
}

/// Lines as they are, each with its end.
pub open spec fn unchanged(lines: Seq<Seq<char>>) -> Seq<char>
    decreases lines.len(),
{
    if lines.len() == 0 {
        seq![]
    } else {
        lines[0].push('\n') + unchanged(lines.skip(1))
    }
}

/// Joining the paragraphs of a document twice is joining them once: what is joined stays as it
/// is. The joined text may not begin as frontmatter does, and no line of it may end in a carriage
/// return: those would be dropped next.
pub proof fn law_joining_is_idempotent(markdown: Seq<char>)
    requires
        markdown.contains('\r') ==> !holds(joined_paragraphs(markdown), "\r\n"@),
        lines_of(joined_paragraphs(markdown)).len() > 0 ==> trimmed(
            lines_of(joined_paragraphs(markdown))[0],
        ) != "---"@,
    ensures
        joined_paragraphs(joined_paragraphs(markdown)) == joined_paragraphs(markdown),
{
    let lines = lines_of(markdown);
    let start = body_start(lines);
    let once = joined_paragraphs(markdown);
    lemma_body_start(lines);
    let body = lines.skip(start);
    let out = joined_rows(body, false);
    lemma_lines_whole(markdown);
    assert forall|i: int| 0 <= i < body.len() implies lacks(#[trigger] body[i], '\n') by {
        assert(body[i] == lines[i + start]);
        assert(one_line(lines[i + start]));
    }
    lemma_joined_rows(body, false, '\n');
    if !markdown.contains('\r') {
        lemma_lines_without(markdown, '\r');
        assert forall|i: int| 0 <= i < body.len() implies lacks(#[trigger] body[i], '\r') by {
            assert(body[i] == lines[i + start]);
            assert(!lines[i + start].contains('\r'));
        }
        lemma_joined_rows(body, false, '\r');
    }
    if reflowed(body, false).len() == 0 && markdown.len() > 0 && markdown.last() == '\n' {
        let empty = Seq::<char>::empty();
        let rows = seq![empty];
        assert(rows.drop_last() =~= seq![]);
        assert(ended_lines(rows.drop_last()) =~= seq![]);
        assert(ended_lines(rows) =~= once);
        lemma_lines_of_ended(rows);
        assert(lines_of(once) =~= rows);
        assert(rows.skip(0) =~= rows);
        assert(rows.skip(1) =~= seq![]);
        assert(stands_alone(rows[0], false));
        assert(reflowed(rows.skip(1), code_fence(rows[0]) != false) =~= seq![]);
        assert(reflowed(rows, false) =~= once);
    } else {
        assert forall|i: int| 0 <= i < out.len() implies one_line(#[trigger] out[i]) && without_cr(
            out[i],
        ) == out[i] by {
            assert(lacks(out[i], '\n'));
            if out[i].len() > 0 && out[i].last() == '\r' {
                if !markdown.contains('\r') {
                    assert(lacks(out[i], '\r'));
                }
                lemma_carriage_return_held(out, i);
            }
        }
        lemma_lines_of_ended(out);
        assert(lines_of(once) =~= out);
        assert(out.skip(0) =~= out);
        lemma_joined_again(body, false);
        lemma_joined_rows(out, false, '\n');
    }
}

/// A line that ends in a carriage return has it before its line end.
proof fn lemma_carriage_return_held(lines: Seq<Seq<char>>, i: int)
    requires
        0 <= i < lines.len(),
        lines[i].len() > 0,
        lines[i].last() == '\r',
    ensures
        holds(ended_lines(lines), "\r\n"@),
{
    reveal_strlit("\r\n");
    let all = ended_lines(lines);
    let front = lines.take(i + 1);
    assert(front + lines.skip(i + 1) =~= lines);
    lemma_ended_sum(front, lines.skip(i + 1));
    let head = ended_lines(front);
    assert(front.last() == lines[i]);
    assert(head == ended_lines(front.drop_last()) + lines[i].push('\n'));
    let n = head.len() as int;
    assert(all[n - 2] == '\r' && all[n - 1] == '\n');
    assert(all.subrange(n - 2, n) =~= "\r\n"@);
    lemma_occurrence_from(all, "\r\n"@, 0);
    assert(occurs_at(all, "\r\n"@, n - 2));
}

/// The lines of a document with every paragraph on one line.
spec fn joined_rows(lines: Seq<Seq<char>>, in_fence: bool) -> Seq<Seq<char>>
    decreases lines.len(),
    via joined_rows_decreases
{
    if lines.len() == 0 {
        seq![]
    } else if stands_alone(lines[0], in_fence) {
        seq![lines[0]] + joined_rows(lines.skip(1), code_fence(lines[0]) != in_fence)
    } else {
        let n = continuation(lines.skip(1)) as int;
        seq![lines[0] + continued(lines.subrange(1, n + 1))] + joined_rows(
            lines.skip(n + 1),
            false,
        )
    }
}

#[via_fn]
proof fn joined_rows_decreases(lines: Seq<Seq<char>>, in_fence: bool) {
    if lines.len() > 0 {
        lemma_continuation(lines.skip(1));
    }
}

proof fn lemma_body_start(lines: Seq<Seq<char>>)
    ensures
        0 <= body_start(lines) <= lines.len(),
{
    if lines.len() > 0 {
        lemma_frontmatter_end(lines, 1);
    }
}

proof fn lemma_frontmatter_end(lines: Seq<Seq<char>>, from: int)
    requires
        0 <= from <= lines.len(),
    ensures
        from <= frontmatter_end(lines, from) <= lines.len(),
    decreases lines.len() - from,
{
    if from < lines.len() {
        lemma_frontmatter_end(lines, from + 1);
    }
}

/// Whether a character is not in a text.
spec fn lacks(s: Seq<char>, c: char) -> bool {
    forall|i: int| 0 <= i < s.len() ==> #[trigger] s[i] != c
}

/// Whether a character is in none of some lines.
spec fn all_lack(lines: Seq<Seq<char>>, c: char) -> bool {
    forall|i: int| 0 <= i < lines.len() ==> lacks(#[trigger] lines[i], c)
}

/// Trimming brings no character in.
proof fn lemma_trimmed_lacks(s: Seq<char>, c: char)
    requires
        lacks(s, c),
    ensures
        lacks(trimmed(s), c),
    decreases s.len(),
{
    if s.len() > 0 && white_space(s[0]) {
        assert forall|i: int| 0 <= i < s.skip(1).len() implies #[trigger] s.skip(1)[i] != c by {
            assert(s.skip(1)[i] == s[i + 1]);
        }
        lemma_trimmed_lacks(s.skip(1), c);
    } else {
        lemma_trimmed_end_prefix(s);
    }
}

/// Joining brings no character in but the space, which begins what is joined.
proof fn lemma_continued(lines: Seq<Seq<char>>, c: char)
    requires
        all_lack(lines, c),
        c != ' ',
    ensures
        lacks(continued(lines), c),
        continued(lines).len() > 0 ==> continued(lines)[0] == ' ',
    decreases lines.len(),
{
    if lines.len() > 0 {
        let front = lines.drop_last();
        assert forall|i: int| 0 <= i < front.len() implies lacks(#[trigger] front[i], c) by {
            assert(front[i] == lines[i]);
        }
        lemma_continued(front, c);
        assert(lacks(lines[lines.len() - 1], c));
        lemma_trimmed_lacks(lines.last(), c);
        let last = trimmed(lines.last());
        let all = continued(lines);
        let head = continued(front);
        assert forall|i: int| 0 <= i < all.len() implies #[trigger] all[i] != c by {
            if i < head.len() {
                assert(all[i] == head[i]);
            } else if i > head.len() {
                assert(all[i] == last[i - head.len() - 1]);
            }
        }
    }
}

/// The joined lines, with their ends, are the joined text, and no character comes in.
proof fn lemma_joined_rows(lines: Seq<Seq<char>>, in_fence: bool, c: char)
    requires
        all_lack(lines, c),
        c != ' ',
    ensures
        reflowed(lines, in_fence) == ended_lines(joined_rows(lines, in_fence)),
        all_lack(joined_rows(lines, in_fence), c),
    decreases lines.len(),
{
    if lines.len() > 0 {
        let rows = joined_rows(lines, in_fence);
        let (n, after) = if stands_alone(lines[0], in_fence) {
            (0int, code_fence(lines[0]) != in_fence)
        } else {
            (continuation(lines.skip(1)) as int, false)
        };
        lemma_continuation(lines.skip(1));
        let rest = lines.skip(n + 1);
        assert forall|i: int| 0 <= i < rest.len() implies lacks(#[trigger] rest[i], c) by {
            assert(rest[i] == lines[i + n + 1]);
        }
        lemma_joined_rows(rest, after, c);
        assert(rows.skip(1) =~= joined_rows(rest, after));
        lemma_ended_first(rows);
        assert(lacks(lines[0], c));
        if !stands_alone(lines[0], in_fence) {
            let more = lines.subrange(1, n + 1);
            assert forall|i: int| 0 <= i < more.len() implies lacks(#[trigger] more[i], c) by {
                assert(more[i] == lines[i + 1]);
            }
            lemma_continued(more, c);
            let joined = lines[0] + continued(more);
            assert forall|i: int| 0 <= i < joined.len() implies #[trigger] joined[i] != c by {
                if i >= lines[0].len() {
                    assert(joined[i] == continued(more)[i - lines[0].len()]);
                }
            }
        }
        assert forall|i: int| 0 <= i < rows.len() implies lacks(#[trigger] rows[i], c) by {
            if i > 0 {
                assert(rows[i] == rows.skip(1)[i - 1]);
            }
        }
    }
}

/// What stands behind a text that is not blank does not change where it begins.
proof fn lemma_start_kept(a: Seq<char>, b: Seq<char>)
    requires
        !blank(a),
    ensures
        trimmed_start(a + b) == trimmed_start(a) + b,
    decreases a.len(),
{
    assert(a.len() > 0);
    assert((a + b)[0] == a[0]);
    if white_space(a[0]) {
        assert((a + b).skip(1) =~= a.skip(1) + b);
        lemma_blank_trimmed(a);
        lemma_blank_trimmed(a.skip(1));
        lemma_start_kept(a.skip(1), b);
    }
}

/// A paragraph is no fence, however it goes on, and it is not blank.
proof fn lemma_paragraph_no_fence(first: Seq<char>, more: Seq<char>)
    requires
        !blank(first),
        !code_fence(first),
        more.len() > 0 ==> more[0] == ' ',
    ensures
        !code_fence(first + more),
{
    reveal_strlit("```");
    reveal_strlit("~~~");
    lemma_start_kept(first, more);
    let t = trimmed_start(first);
    let all = t + more;
    if begins(all, "```"@) || begins(all, "~~~"@) {
        let p = if begins(all, "```"@) {
            "```"@
        } else {
            "~~~"@
        };
        assert(all.take(3) == p);
        if t.len() >= 3 {
            assert(t.take(3) =~= all.take(3));
        } else {
            assert(all[t.len() as int] == ' ');
            assert(all.take(3)[t.len() as int] == p[t.len() as int]);
        }
    }
}

/// The first joined line stands for itself if the first line does.
proof fn lemma_joined_rows_first(lines: Seq<Seq<char>>)
    requires
        lines.len() > 0,
        stands_alone(lines[0], false),
    ensures
        continuation(joined_rows(lines, false)) == 0,
{
    let rows = joined_rows(lines, false);
    assert(rows[0] == lines[0]);
}

/// Joined lines are not joined again.
proof fn lemma_joined_again(lines: Seq<Seq<char>>, in_fence: bool)
    requires
        all_lack(lines, '\n'),
    ensures
        joined_rows(joined_rows(lines, in_fence), in_fence) == joined_rows(lines, in_fence),
    decreases lines.len(),
{
    let rows = joined_rows(lines, in_fence);
    if lines.len() == 0 {
        assert(rows =~= seq![]);
    } else if stands_alone(lines[0], in_fence) {
        let rest = lines.skip(1);
        assert forall|i: int| 0 <= i < rest.len() implies lacks(#[trigger] rest[i], '\n') by {
            assert(rest[i] == lines[i + 1]);
        }
        lemma_joined_again(rest, code_fence(lines[0]) != in_fence);
        assert(rows[0] == lines[0]);
        assert(rows.skip(1) =~= joined_rows(rest, code_fence(lines[0]) != in_fence));
        assert(joined_rows(rows, in_fence) =~= rows);
    } else {
        lemma_continuation(lines.skip(1));
        let n = continuation(lines.skip(1)) as int;
        let rest = lines.skip(n + 1);
        assert forall|i: int| 0 <= i < rest.len() implies lacks(#[trigger] rest[i], '\n') by {
            assert(rest[i] == lines[i + n + 1]);
        }
        lemma_joined_again(rest, false);
        let more = lines.subrange(1, n + 1);
        assert forall|i: int| 0 <= i < more.len() implies lacks(#[trigger] more[i], '\n') by {
            assert(more[i] == lines[i + 1]);
        }
        lemma_continued(more, '\n');
        lemma_paragraph_no_fence(lines[0], continued(more));
        let joined = lines[0] + continued(more);
        assert(rows[0] == joined);
        assert(rows.skip(1) =~= joined_rows(rest, false));
        if rest.len() > 0 {
            assert(rest[0] == lines.skip(1)[n]);
            lemma_joined_rows_first(rest);
        }
        assert(continuation(rows.skip(1)) == 0);
        assert(rows.subrange(1, 1) =~= seq![]);
        assert(continued(rows.subrange(1, 1)) =~= seq![]);
        assert(joined + continued(rows.subrange(1, 1)) =~= joined);
        assert(joined_rows(rows, false) =~= seq![joined] + joined_rows(rows.skip(1), false));
        assert(joined_rows(rows, in_fence) =~= rows);
    }
}

/// The words of lines, one line behind the other.
pub open spec fn words_of_lines(lines: Seq<Seq<char>>) -> Seq<Seq<char>>
    decreases lines.len(),
{
    if lines.len() == 0 {
        seq![]
    } else {
        words(lines[0]) + words_of_lines(lines.skip(1))
    }
}

/// Joining lines loses no word, adds none and keeps their order.
pub proof fn law_words_are_kept(lines: Seq<Seq<char>>, in_fence: bool)
    ensures
        words(reflowed(lines, in_fence)) == words_of_lines(lines),
    decreases lines.len(),
{
    if lines.len() > 0 {
        if stands_alone(lines[0], in_fence) {
            let after = code_fence(lines[0]) != in_fence;
            let rest = reflowed(lines.skip(1), after);
            law_words_are_kept(lines.skip(1), after);
            assert(lines[0].push('\n') + rest =~= lines[0] + seq!['\n'] + rest);
            law_words_apart(lines[0], '\n', rest);
        } else {
            lemma_continuation(lines.skip(1));
            let n = continuation(lines.skip(1)) as int;
            let more = lines.subrange(1, n + 1);
            let rest = reflowed(lines.skip(n + 1), false);
            let head = lines[0] + continued(more);
            law_words_are_kept(lines.skip(n + 1), false);
            assert(head.push('\n') + rest =~= head + seq!['\n'] + rest);
            law_words_apart(head, '\n', rest);
            lemma_continued_words(lines[0], more);
            assert(lines.skip(1) =~= more + lines.skip(n + 1));
            lemma_words_of_lines(more, lines.skip(n + 1));
            assert(words(lines[0]) + (words_of_lines(more) + words_of_lines(lines.skip(n + 1)))
                =~= words(lines[0]) + words_of_lines(more) + words_of_lines(lines.skip(n + 1)));
        }
    }
}

proof fn lemma_words_of_lines(a: Seq<Seq<char>>, b: Seq<Seq<char>>)
    ensures
        words_of_lines(a + b) == words_of_lines(a) + words_of_lines(b),
    decreases a.len(),
{
    if a.len() == 0 {
        assert(a + b =~= b);
        assert(words_of_lines(a) + words_of_lines(b) =~= words_of_lines(b));
    } else {
        assert((a + b).skip(1) =~= a.skip(1) + b);
        lemma_words_of_lines(a.skip(1), b);
        assert(words(a[0]) + (words_of_lines(a.skip(1)) + words_of_lines(b)) =~= words(a[0])
            + words_of_lines(a.skip(1)) + words_of_lines(b));
    }
}

proof fn lemma_continued_words(head: Seq<char>, more: Seq<Seq<char>>)
    ensures
        words(head + continued(more)) == words(head) + words_of_lines(more),
    decreases more.len(),
{
    if more.len() == 0 {
        assert(head + continued(more) =~= head);
        assert(words(head) + words_of_lines(more) =~= words(head));
    } else {
        let front = more.drop_last();
        lemma_continued_words(head, front);
        let t = trimmed(more.last());
        assert(head + continued(more) =~= (head + continued(front)) + seq![' '] + t);
        law_words_apart(head + continued(front), ' ', t);
        law_trimming_keeps_words(more.last());
        assert(more =~= front + seq![more.last()]);
        lemma_words_of_lines(front, seq![more.last()]);
        let one = seq![more.last()];
        assert(one.skip(1) =~= seq![]);
        assert(words_of_lines(one.skip(1)) =~= seq![]);
        assert(words_of_lines(one) =~= words(more.last()));
        assert(words(head) + words_of_lines(front) + words(more.last()) =~= words(head) + (
        words_of_lines(front) + words(more.last())));
    }
}

/// A document without frontmatter keeps its words.
pub proof fn law_document_keeps_words(markdown: Seq<char>)
    requires
        lines_of(markdown).len() > 0 ==> trimmed(lines_of(markdown)[0]) != "---"@,
    ensures
        words(joined_paragraphs(markdown)) == words_of_lines(lines_of(markdown)),
{
    let lines = lines_of(markdown);
    assert(lines.skip(0) =~= lines);
    law_words_are_kept(lines, false);
    if joined_paragraphs(markdown) != reflowed(lines, false) {
        law_blanks_have_no_words(seq!['\n']);
        assert(reflowed(lines, false).len() == 0);
        law_blanks_have_no_words(reflowed(lines, false));
        assert(words(seq!['\n']) =~= words(reflowed(lines, false)));
    }
}

/// Frontmatter at the very start is left out: a line of three dashes, and the lines up to another
/// one of three dashes or three dots.
pub proof fn law_frontmatter_is_left_out(
    open: Seq<char>,
    meta: Seq<Seq<char>>,
    close: Seq<char>,
    body: Seq<Seq<char>>,
)
    requires
        trimmed(open) == seq!['-', '-', '-'],
        forall|i: int|
            0 <= i < meta.len() ==> trimmed(#[trigger] meta[i]) != seq!['-', '-', '-'] && trimmed(
                meta[i],
            ) != seq!['.', '.', '.'],
        trimmed(close) == seq!['-', '-', '-'] || trimmed(close) == seq!['.', '.', '.'],
    ensures
        ({
            let lines = seq![open] + meta + seq![close] + body;
            lines.skip(body_start(lines)) == body
        }),
{
    reveal_strlit("---");
    reveal_strlit("...");
    assert("---"@ =~= seq!['-', '-', '-']);
    assert("..."@ =~= seq!['.', '.', '.']);
    let lines = seq![open] + meta + seq![close] + body;
    assert(lines[0] == open);
    assert forall|i: int| 1 <= i < 1 + meta.len() implies #[trigger] lines[i] == meta[i - 1] by {}
    assert(lines[1 + meta.len() as int] == close);
    lemma_frontmatter_ends_at(lines, 1, (1 + meta.len()) as int);
    assert(lines.skip((2 + meta.len()) as int) =~= body);
}

proof fn lemma_frontmatter_ends_at(lines: Seq<Seq<char>>, from: int, end: int)
    requires
        1 <= from <= end < lines.len(),
        forall|i: int|
            from <= i < end ==> trimmed(#[trigger] lines[i]) != "---"@ && trimmed(lines[i])
                != "..."@,
        trimmed(lines[end]) == "---"@ || trimmed(lines[end]) == "..."@,
    ensures
        frontmatter_end(lines, from) == end + 1,
    decreases end - from,
{
    if from < end {
        assert(trimmed(lines[from]) != "---"@);
        lemma_frontmatter_ends_at(lines, from + 1, end);
    }
}

/// A document that does not begin with three dashes has no frontmatter.
pub proof fn law_no_frontmatter(lines: Seq<Seq<char>>)
    requires
        lines.len() > 0 ==> trimmed(lines[0]) != seq!['-', '-', '-'],
    ensures
        lines.skip(body_start(lines)) == lines,
{
    reveal_strlit("---");
    assert("---"@ =~= seq!['-', '-', '-']);
    assert(lines.skip(0) =~= lines);
}

/// What makes a line of a heading, a list, a quote, a table or HTML.
pub open spec fn line_mark(m: Seq<char>) -> bool {
    ||| m == seq!['#'] || m == seq!['>'] || m == seq!['|'] || m == seq!['<']
    ||| m == seq!['-', ' '] || m == seq!['*', ' '] || m == seq!['+', ' ']
}

/// A line that begins with such a mark, behind white space, is never joined with its neighbours
/// outside of code: it comes out as it is, between what the lines before it and those behind it
/// give.
pub proof fn law_marked_lines_stand_alone(
    before: Seq<Seq<char>>,
    a: Seq<char>,
    m: Seq<char>,
    rest: Seq<char>,
    behind: Seq<Seq<char>>,
    in_fence: bool,
)
    requires
        blank(a),
        line_mark(m),
        !fence_after(before, in_fence),
    ensures
        reflowed(before + seq![a + m + rest] + behind, in_fence) == reflowed(before, in_fence) + (a
            + m + rest).push('\n') + reflowed(behind, false),
{
    let line = a + m + rest;
    lemma_marked(a, m, rest);
    law_structural_lines_never_joined(before, line, behind, in_fence);
}

proof fn lemma_marked(a: Seq<char>, m: Seq<char>, rest: Seq<char>)
    requires
        blank(a),
        line_mark(m),
    ensures
        structural(a + m + rest),
        !code_fence(a + m + rest),
{
    lemma_markers();
    let t = m + rest;
    assert(a + m + rest =~= a + t);
    assert(!white_space(t[0]));
    law_trimmed_start(a, t);
    assert(t.take(m.len() as int) =~= m);
    if begins(t, "```"@) {
        assert(t.take(3)[0] == t[0]);
    }
    if begins(t, "~~~"@) {
        assert(t.take(3)[0] == t[0]);
    }
}

proof fn lemma_markers()
    ensures
        "#"@ == seq!['#'],
        ">"@ == seq!['>'],
        "|"@ == seq!['|'],
        "<"@ == seq!['<'],
        "- "@ == seq!['-', ' '],
        "* "@ == seq!['*', ' '],
        "+ "@ == seq!['+', ' '],
        "-"@ == seq!['-'],
        "*"@ == seq!['*'],
        "+"@ == seq!['+'],
        ". "@ == seq!['.', ' '],
        ") "@ == seq![')', ' '],
        "```"@ == seq!['`', '`', '`'],
        "~~~"@ == seq!['~', '~', '~'],
{
    reveal_strlit("#");
    reveal_strlit(">");
    reveal_strlit("|");
    reveal_strlit("<");
    reveal_strlit("- ");
    reveal_strlit("* ");
    reveal_strlit("+ ");
    reveal_strlit("-");
    reveal_strlit("*");
    reveal_strlit("+");
    reveal_strlit(". ");
    reveal_strlit(") ");
    reveal_strlit("```");
    reveal_strlit("~~~");
    assert("#"@ =~= seq!['#']);
    assert(">"@ =~= seq!['>']);
    assert("|"@ =~= seq!['|']);
    assert("<"@ =~= seq!['<']);
    assert("- "@ =~= seq!['-', ' ']);
    assert("* "@ =~= seq!['*', ' ']);
    assert("+ "@ =~= seq!['+', ' ']);
    assert("-"@ =~= seq!['-']);
    assert("*"@ =~= seq!['*']);
    assert("+"@ =~= seq!['+']);
    assert(". "@ =~= seq!['.', ' ']);
    assert(") "@ =~= seq![')', ' ']);
    assert("```"@ =~= seq!['`', '`', '`']);
    assert("~~~"@ =~= seq!['~', '~', '~']);
}

/// In a document, such a line comes out on a line of its own.
pub proof fn law_marked_lines_of_a_document(
    markdown: Seq<char>,
    before: Seq<Seq<char>>,
    a: Seq<char>,
    m: Seq<char>,
    rest: Seq<char>,
    behind: Seq<Seq<char>>,
)
    requires
        blank(a),
        line_mark(m),
        lines_of(markdown) == before + seq![a + m + rest] + behind,
        trimmed(lines_of(markdown)[0]) != seq!['-', '-', '-'],
        !fence_after(before, false),
    ensures
        joined_paragraphs(markdown) == reflowed(before, false) + (a + m + rest).push('\n')
            + reflowed(behind, false),
        before.len() > 0 ==> reflowed(before, false).len() > 0 && reflowed(before, false).last()
            == '\n',
{
    law_no_frontmatter(lines_of(markdown));
    law_marked_lines_stand_alone(before, a, m, rest, behind, false);
    lemma_reflowed_ends(before, false);
}

proof fn lemma_reflowed_ends(lines: Seq<Seq<char>>, in_fence: bool)
    ensures
        lines.len() > 0 ==> reflowed(lines, in_fence).len() > 0 && reflowed(lines, in_fence).last()
            == '\n',
    decreases lines.len(),
{
    if lines.len() > 0 {
        if stands_alone(lines[0], in_fence) {
            let after = code_fence(lines[0]) != in_fence;
            lemma_reflowed_ends(lines.skip(1), after);
            let rest = reflowed(lines.skip(1), after);
            assert(lines.skip(1).len() == 0 ==> rest.len() == 0);
            assert(reflowed(lines, in_fence) == lines[0].push('\n') + rest);
        } else {
            lemma_continuation(lines.skip(1));
            let n = continuation(lines.skip(1)) as int;
            lemma_reflowed_ends(lines.skip(n + 1), false);
            let rest = reflowed(lines.skip(n + 1), false);
            assert(lines.skip(n + 1).len() == 0 ==> rest.len() == 0);
        }
    }
}

/// Lists may be numbered, by digits and a dot or a bracket, and have items without text; and rules
/// are three or more of the same dash, star or underline, with blanks between them. Their lines
/// stand for themselves too, as blank lines do.
pub proof fn law_other_lines_stand_alone(
    a: Seq<char>,
    digits: Seq<char>,
    mark: char,
    rest: Seq<char>,
    line: Seq<char>,
    c: char,
    i: int,
    j: int,
    k: int,
)
    requires
        blank(a),
    ensures
        digits.len() > 0 && (forall|d: int|
            0 <= d < digits.len() ==> '0' <= #[trigger] digits[d] <= '9') && (mark == '.' || mark
            == ')') ==> stands_alone(a + digits + seq![mark, ' '] + rest, false),
        mark == '-' || mark == '*' || mark == '+' ==> stands_alone(a + seq![mark], false),
        (c == '-' || c == '*' || c == '_') && 0 <= i < j < k < line.len() && line[i] == c && line[j]
            == c && line[k] == c && (forall|x: int|
            0 <= x < line.len() ==> #[trigger] line[x] == c || white_space(line[x]))
            ==> stands_alone(line, false),
        stands_alone(a, false),
{
    lemma_markers();
    if digits.len() > 0 && (forall|d: int| 0 <= d < digits.len() ==> '0' <= #[trigger] digits[d] <= '9')
        && (mark == '.' || mark == ')') {
        let t = digits + seq![mark, ' '] + rest;
        assert(a + digits + seq![mark, ' '] + rest =~= a + t);
        assert('0' <= digits[0] <= '9');
        law_trimmed_start(a, t);
        lemma_digit_run(digits, mark, rest);
        assert(t.skip(digits.len() as int) =~= seq![mark, ' '] + rest);
        assert((seq![mark, ' '] + rest).take(2) =~= seq![mark, ' ']);
    }
    if mark == '-' || mark == '*' || mark == '+' {
        law_trimmed_start(a, seq![mark]);
    }
    if (c == '-' || c == '*' || c == '_') && 0 <= i < j < k < line.len() && line[i] == c && line[j]
        == c && line[k] == c && (forall|x: int|
        0 <= x < line.len() ==> #[trigger] line[x] == c || white_space(line[x])) {
        let b = law_start_left(line);
        let t = trimmed_start(line);
        let n = b.len() as int;
        assert(b =~= line.take(n));
        assert forall|x: int| 0 <= x < t.len() implies #[trigger] t[x] == c || white_space(t[x]) by {
            assert(t[x] == line[x + n]);
        }
        assert(n <= i) by {
            if i < n {
                assert(white_space(b[i]));
            }
        }
        assert(t[i - n] == c && t[j - n] == c && t[k - n] == c);
        lemma_three(t, c, i - n, j - n, k - n);
    }
}

proof fn lemma_digit_run(digits: Seq<char>, mark: char, rest: Seq<char>)
    requires
        forall|d: int| 0 <= d < digits.len() ==> '0' <= #[trigger] digits[d] <= '9',
        mark == '.' || mark == ')',
    ensures
        digit_run(digits + seq![mark, ' '] + rest) == digits.len(),
    decreases digits.len(),
{
    let t = digits + seq![mark, ' '] + rest;
    if digits.len() > 0 {
        assert(t[0] == digits[0]);
        assert(t.skip(1) =~= digits.skip(1) + seq![mark, ' '] + rest);
        lemma_digit_run(digits.skip(1), mark, rest);
    } else {
        assert(t[0] == mark);
    }
}

proof fn lemma_three(s: Seq<char>, c: char, i: int, j: int, k: int)
    requires
        0 <= i < j < k < s.len(),
        s[i] == c,
        s[j] == c,
        s[k] == c,
    ensures
        occurrences(s, c) >= 3,
    decreases s.len(),
{
    let f = s.drop_last();
    if k < f.len() {
        lemma_three(f, c, i, j, k);
    } else {
        lemma_two(f, c, i, j);
    }
}

proof fn lemma_two(s: Seq<char>, c: char, i: int, j: int)
    requires
        0 <= i < j < s.len(),
        s[i] == c,
        s[j] == c,
    ensures
        occurrences(s, c) >= 2,
    decreases s.len(),
{
    let f = s.drop_last();
    if j < f.len() {
        lemma_two(f, c, i, j);
    } else {
        lemma_one(f, c, i);
    }
}

proof fn lemma_one(s: Seq<char>, c: char, i: int)
    requires
        0 <= i < s.len(),
        s[i] == c,
    ensures
        occurrences(s, c) >= 1,
    decreases s.len(),
{
    if i < s.len() - 1 {
        lemma_one(s.drop_last(), c, i);
    }
}

/// Lines of a paragraph are joined by a blank each, without the white space around them: lines
/// whose first character is a letter are such lines.
pub proof fn law_text_lines_are_joined(
    a: Seq<char>,
    first: Seq<char>,
    b: Seq<char>,
    second: Seq<char>,
    behind: Seq<Seq<char>>,
)
    requires
        blank(a),
        blank(b),
        first.len() > 0 && ('a' <= first[0] <= 'z' || 'A' <= first[0] <= 'Z'),
        second.len() > 0 && ('a' <= second[0] <= 'z' || 'A' <= second[0] <= 'Z'),
        behind.len() > 0 ==> stands_alone(behind[0], false),
    ensures
        reflowed(seq![a + first, b + second] + behind, false) == (a + first + seq![' ']
            + trimmed_end(second)).push('\n') + reflowed(behind, false),
{
    let lines = seq![a + first, b + second] + behind;
    lemma_text_line(a, first);
    lemma_text_line(b, second);
    law_trimmed_start(b, second);
    assert(lines.skip(1)[0] == b + second);
    assert(lines.skip(1).skip(1) =~= behind);
    assert(continuation(behind) == 0);
    assert(continuation(lines.skip(1)) == 1);
    assert(lines.subrange(1, 2) =~= seq![b + second]);
    let one = seq![b + second];
    assert(one.drop_last() =~= seq![]);
    assert(continued(one.drop_last()) =~= seq![]);
    assert(continued(one) =~= seq![' '] + trimmed_end(second));
    assert(lines.skip(2) =~= behind);
    assert(lines[0] + continued(lines.subrange(1, 2)) =~= a + first + seq![' '] + trimmed_end(
        second,
    ));
}

proof fn lemma_text_line(a: Seq<char>, s: Seq<char>)
    requires
        blank(a),
        s.len() > 0,
        'a' <= s[0] <= 'z' || 'A' <= s[0] <= 'Z',
    ensures
        !stands_alone(a + s, false),
{
    lemma_markers();
    law_trimmed_start(a, s);
    lemma_blank_trimmed(a + s);
    let t = trimmed_start(a + s);
    assert(t == s);
    assert forall|p: Seq<char>| #[trigger] begins(t, p) && p.len() > 0 implies p[0] == t[0] by {
        assert(t.take(p.len() as int)[0] == t[0]);
    }
    assert(digit_run(t) == 0);
    assert(!rule_of(t, '-') && !rule_of(t, '*') && !rule_of(t, '_'));
}

/// Code is kept as it is: a line of three backquotes or three tildes begins it, behind white space,
/// and the next such line ends it.
pub proof fn law_fences(a: Seq<char>, mark: char, rest: Seq<char>, in_fence: bool)
    requires
        blank(a),
        mark == '`' || mark == '~',
    ensures
        code_fence(a + seq![mark, mark, mark] + rest),
        fence_after(seq![a + seq![mark, mark, mark] + rest], in_fence) == !in_fence,
{
    lemma_markers();
    let t = seq![mark, mark, mark] + rest;
    let line = a + seq![mark, mark, mark] + rest;
    assert(line =~= a + t);
    law_trimmed_start(a, t);
    assert(t.take(3) =~= seq![mark, mark, mark]);
    assert(seq![line].skip(1) =~= seq![]);
    assert(fence_after(seq![line].skip(1), !in_fence) == !in_fence);
}

/// A line that begins otherwise does not begin or end code.
pub proof fn law_no_fences(a: Seq<char>, s: Seq<char>)
    requires
        blank(a),
        s.len() > 0 ==> !white_space(s[0]) && (s.len() < 3 || !(s[0] == s[1] && s[1] == s[2] && (
        s[0] == '`' || s[0] == '~'))),
    ensures
        !code_fence(a + s),
{
    lemma_markers();
    law_trimmed_start(a, s);
    if begins(s, "```"@) {
        assert(s[0] == s.take(3)[0] && s[1] == s.take(3)[1] && s[2] == s.take(3)[2]);
    }
    if begins(s, "~~~"@) {
        assert(s[0] == s.take(3)[0] && s[1] == s.take(3)[1] && s[2] == s.take(3)[2]);
    }
}

} // verus!
