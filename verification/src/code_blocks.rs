//! Fenced code blocks of a markdown document.

use vstd::prelude::*;

use crate::text::{
    blank, chars_of, cut, is_blank, join_lines, joined_lines, law_trimmed, law_trimmed_start,
    leading_run, lemma_run_length, lines_of, repeated, run_length, split_lines, string_of, trim,
    trim_start, trimmed, trimmed_start, views, white_space,
};

verus! {

/// A fenced code block extracted from the markdown source.
#[derive(Debug, Clone)]
pub struct CodeBlock {
    /// Language tag (may be empty).
    pub lang: String,
    /// The raw content between the fences (no fence lines themselves).
    pub content: String,
}

/// What a [`CodeBlock`] stands for.
pub struct CodeView {
    pub lang: Seq<char>,
    pub content: Seq<char>,
}

impl View for CodeBlock {
    type V = CodeView;

    open spec fn view(&self) -> CodeView {
        CodeView { lang: self.lang@, content: self.content@ }
    }
}

/// What a list of blocks stands for.
pub open spec fn code_views(blocks: Seq<CodeBlock>) -> Seq<CodeView> {
    blocks.map_values(|b: CodeBlock| b@)
}

/// The fence that a line opens a block with, white space before it aside: its character, a
/// backtick or a tilde, and how often that stands there, at least three times.
pub open spec fn fence_opened(line: Seq<char>) -> Option<(char, nat)> {
    let t = trimmed_start(line);
    if run_length(t, '`') >= 3 {
        Some(('`', run_length(t, '`')))
    } else if run_length(t, '~') >= 3 {
        Some(('~', run_length(t, '~')))
    } else {
        None
    }
}

/// The language tag behind a fence.
pub open spec fn fence_lang(line: Seq<char>, len: nat) -> Seq<char> {
    trimmed(trimmed_start(line).skip(len as int))
}

/// Whether a line closes a block: white space aside it is nothing but the fence's character,
/// at least as often as in the opening fence.
pub open spec fn fence_closed(line: Seq<char>, fence: (char, nat)) -> bool {
    let t = trimmed_start(line);
    let n = run_length(t, fence.0);
    n >= fence.1 && blank(t.skip(n as int))
}

/// The first line at or after `from` that closes a block; the number of lines if none does.
pub open spec fn closing_fence(lines: Seq<Seq<char>>, from: int, fence: (char, nat)) -> int
    decreases lines.len() - from,
{
    if from >= lines.len() {
        lines.len() as int
    } else if fence_closed(lines[from], fence) {
        from
    } else {
        closing_fence(lines, from + 1, fence)
    }
}

/// The code blocks that open at line `i` or later. A block that is never closed is none.
pub open spec fn code_blocks_from(lines: Seq<Seq<char>>, i: int) -> Seq<CodeView>
    decreases lines.len() - i,
    via code_blocks_from_decreases
{
    if i < 0 || i >= lines.len() {
        seq![]
    } else {
        match fence_opened(lines[i]) {
            None => code_blocks_from(lines, i + 1),
            Some(fence) => {
                let close = closing_fence(lines, i + 1, fence);
                if close >= lines.len() {
                    seq![]
                } else {
                    seq![
                        CodeView {
                            lang: fence_lang(lines[i], fence.1),
                            content: joined_lines(lines.subrange(i + 1, close)),
                        },
                    ] + code_blocks_from(lines, close + 1)
                }
            },
        }
    }
}

#[via_fn]
proof fn code_blocks_from_decreases(lines: Seq<Seq<char>>, i: int) {
    if 0 <= i < lines.len() && fence_opened(lines[i]) is Some {
        lemma_closing_fence(lines, i + 1, fence_opened(lines[i])->0);
    }
}

proof fn lemma_closing_fence(lines: Seq<Seq<char>>, from: int, fence: (char, nat))
    requires
        0 <= from <= lines.len(),
    ensures
        from <= closing_fence(lines, from, fence) <= lines.len(),
        forall|j: int|
            from <= j < closing_fence(lines, from, fence) ==> !fence_closed(
                #[trigger] lines[j],
                fence,
            ),
    decreases lines.len() - from,
{
    if from < lines.len() && !fence_closed(lines[from], fence) {
        lemma_closing_fence(lines, from + 1, fence);
    }
}

fn opened(line: &Vec<char>) -> (fence: Option<(char, usize)>)
    ensures
        match fence {
            Some((c, n)) => fence_opened(line@) == Some((c, n as nat)) && n <= trimmed_start(
                line@,
            ).len(),
            None => fence_opened(line@) is None,
        },
{
    let t = trim_start(line);
    let ticks: usize = leading_run(&t, '`');
    if ticks >= 3 {
        return Some(('`', ticks));
    }
    let tildes: usize = leading_run(&t, '~');
    if tildes >= 3 {
        return Some(('~', tildes));
    }
    None
}

fn closed(line: &Vec<char>, c: char, len: usize) -> (r: bool)
    ensures
        r == fence_closed(line@, (c, len as nat)),
{
    let t = trim_start(line);
    let n: usize = leading_run(&t, c);
    let rest = cut(&t, n, t.len());
    assert(rest@ =~= t@.skip(n as int));
    n >= len && is_blank(&rest)
}

/// Extract all fenced code blocks from the raw markdown.
pub fn extract_code_blocks(markdown: &str) -> (blocks: Vec<CodeBlock>)
    ensures
        code_views(blocks@) == code_blocks_from(lines_of(markdown@), 0),
{
    let chars = chars_of(markdown);
    let lines = split_lines(&chars);
    let ghost all = views(lines@);
    let mut blocks: Vec<CodeBlock> = Vec::new();
    let mut i: usize = 0;
    assert(code_views(blocks@) + code_blocks_from(all, 0) =~= code_blocks_from(all, 0));
    while i < lines.len()
        invariant
            i <= lines@.len(),
            all == views(lines@),
            all == lines_of(markdown@),
            code_views(blocks@) + code_blocks_from(all, i as int) == code_blocks_from(all, 0),
        decreases lines@.len() - i,
    {
        let ghost before = code_views(blocks@);
        assert(all[i as int] == lines@[i as int]@);
        match opened(&lines[i]) {
            None => {
                i += 1;
            },
            Some((c, n)) => {
                let start: usize = i;
                let mut close: usize = i + 1;
                while close < lines.len() && !closed(&lines[close], c, n)
                    invariant
                        start < close <= lines@.len(),
                        all == views(lines@),
                        closing_fence(all, start + 1, (c, n as nat)) == closing_fence(
                            all,
                            close as int,
                            (c, n as nat),
                        ),
                    decreases lines@.len() - close,
                {
                    assert(all[close as int] == lines@[close as int]@);
                    close += 1;
                }
                if close == lines.len() {
                    assert(before + code_blocks_from(all, start as int) =~= before);
                    return blocks;
                }
                assert(all[close as int] == lines@[close as int]@);
                let t = trim_start(&lines[start]);
                let tag = cut(&t, n, t.len());
                assert(tag@ =~= t@.skip(n as int));
                let block = CodeBlock {
                    lang: string_of(&trim(&tag)),
                    content: string_of(&join_lines(&lines, start + 1, close)),
                };
                let ghost view = block@;
                blocks.push(block);
                i = close + 1;
                assert(code_views(blocks@) =~= before.push(view));
                assert(code_views(blocks@) + code_blocks_from(all, i as int) =~= before + (
                seq![view] + code_blocks_from(all, i as int)));
            },
        }
    }
    assert(code_views(blocks@) + code_blocks_from(all, i as int) =~= code_views(blocks@));
    blocks
}

/// A block comes out with the tag and the lines that stand in its fences: code between a fence
/// and a line that closes it, none of it closing the fence, is the first block's content.
pub proof fn law_fenced_code_comes_out(
    open: Seq<char>,
    code: Seq<Seq<char>>,
    close: Seq<char>,
    behind: Seq<Seq<char>>,
)
    requires
        fence_opened(open) is Some,
        fence_closed(close, fence_opened(open)->0),
        forall|i: int|
            0 <= i < code.len() ==> !fence_closed(#[trigger] code[i], fence_opened(open)->0),
    ensures
        ({
            let blocks = code_blocks_from(seq![open] + code + seq![close] + behind, 0);
            &&& blocks.len() >= 1
            &&& blocks[0].lang == fence_lang(open, (fence_opened(open)->0).1)
            &&& blocks[0].content == joined_lines(code)
        }),
{
    let lines = seq![open] + code + seq![close] + behind;
    let fence = fence_opened(open)->0;
    assert(lines[0] == open);
    lemma_closing_fence_at(lines, 1, fence, (code.len() + 1) as int, code);
    assert(lines.subrange(1, (code.len() + 1) as int) =~= code);
}

/// The first line that closes a block is where the code ends.
pub proof fn lemma_closing_fence_at(
    lines: Seq<Seq<char>>,
    from: int,
    fence: (char, nat),
    at: int,
    code: Seq<Seq<char>>,
)
    requires
        1 <= from <= at < lines.len(),
        at == code.len() + 1,
        fence_closed(lines[at], fence),
        forall|i: int| 1 <= i < at ==> #[trigger] lines[i] == code[i - 1],
        forall|i: int| 0 <= i < code.len() ==> !fence_closed(#[trigger] code[i], fence),
    ensures
        closing_fence(lines, from, fence) == at,
    decreases at - from,
{
    if from < at {
        assert(lines[from] == code[from - 1]);
        lemma_closing_fence_at(lines, from + 1, fence, at, code);
    }
}

/// Three or more backquotes or tildes open a block, behind white space, and what stands behind them
/// is the language.
pub proof fn law_opening_fences(
    a: Seq<char>,
    mark: char,
    n: nat,
    b: Seq<char>,
    lang: Seq<char>,
    c: Seq<char>,
)
    requires
        blank(a),
        blank(b),
        blank(c),
        mark == '`' || mark == '~',
        n >= 3,
        lang.len() > 0 ==> !white_space(lang[0]) && !white_space(lang.last()),
        lang.len() > 0 && b.len() == 0 ==> lang[0] != mark,
    ensures
        ({
            let line = a + repeated(mark, n) + b + lang + c;
            fence_opened(line) == Some((mark, n)) && fence_lang(line, n) == lang
        }),
{
    let rest = b + lang + c;
    let line = a + repeated(mark, n) + b + lang + c;
    let t = repeated(mark, n) + rest;
    assert(line =~= a + t);
    law_trimmed_start(a, t);
    assert(rest.len() > 0 ==> rest[0] != mark) by {
        if rest.len() > 0 {
            if b.len() > 0 {
                assert(white_space(b[0]));
            } else if lang.len() == 0 {
                assert(white_space(c[0]));
            }
        }
    }
    lemma_fence_run(mark, n, rest);
    lemma_run_length(t, '`');
    if mark == '~' {
        assert(t[0] == '~');
    }
    assert(t.skip(n as int) =~= rest);
    law_trimmed(b, lang, c);
}

proof fn lemma_fence_run(mark: char, n: nat, rest: Seq<char>)
    requires
        rest.len() > 0 ==> rest[0] != mark,
    ensures
        run_length(repeated(mark, n) + rest, mark) == n,
{
    let t = repeated(mark, n) + rest;
    lemma_run_length(t, mark);
    let k = run_length(t, mark) as int;
    if k < n {
        assert(t[k] == mark);
    }
    if k > n {
        assert(t[n as int] == rest[0]);
    }
}

/// As many of the same characters, or more, with nothing but white space around them close it;
/// fewer do not, nor others, nor with a text behind them.
pub proof fn law_closing_fences(a: Seq<char>, mark: char, n: nat, rest: Seq<char>, fence: (char, nat))
    requires
        blank(a),
        mark == '`' || mark == '~',
        fence.0 == '`' || fence.0 == '~',
        fence.1 >= 1,
        n >= 1,
        rest.len() > 0 ==> rest[0] != mark,
    ensures
        fence_closed(a + repeated(mark, n) + rest, fence) <==> mark == fence.0 && n >= fence.1
            && blank(rest),
{
    let t = repeated(mark, n) + rest;
    assert(a + repeated(mark, n) + rest =~= a + t);
    assert(t[0] == mark);
    law_trimmed_start(a, t);
    lemma_fence_run(mark, n, rest);
    assert(t.skip(n as int) =~= rest);
    lemma_run_length(t, fence.0);
}

/// Text without a fence has no code blocks, and neither has a fence that is not closed.
pub proof fn law_no_code_blocks(lines: Seq<Seq<char>>, i: int)
    requires
        0 <= i <= lines.len(),
        forall|j: int| i <= j < lines.len() ==> fence_opened(#[trigger] lines[j]) is None,
    ensures
        code_blocks_from(lines, i).len() == 0,
    decreases lines.len() - i,
{
    if i < lines.len() {
        assert(fence_opened(lines[i]) is None);
        law_no_code_blocks(lines, i + 1);
    }
}

/// A block stands for its language and its content, and a list for its blocks in their order.
pub proof fn law_blocks_stand_for_their_fields(blocks: Seq<CodeBlock>, i: int)
    requires
        0 <= i < blocks.len(),
    ensures
        code_views(blocks).len() == blocks.len(),
        code_views(blocks)[i].lang == blocks[i].lang@,
        code_views(blocks)[i].content == blocks[i].content@,
{
}

} // verus!
