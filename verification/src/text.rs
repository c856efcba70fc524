//! Characters, words and lines: the plain text operations that the viewer is made of.

use vstd::prelude::*;

verus! {

/// `String::push`: the character is appended.
pub assume_specification[ String::push ](s: &mut String, c: char)
    ensures
        final(s)@ == old(s)@.push(c),
;

// ---------------------------------------------------------------- conversions

/// The contents of a list of character vectors.
pub open spec fn views(rows: Seq<Vec<char>>) -> Seq<Seq<char>> {
    rows.map_values(|row: Vec<char>| row@)
}

/// The contents of a list of strings.
pub open spec fn texts(strings: Seq<String>) -> Seq<Seq<char>> {
    strings.map_values(|s: String| s@)
}

pub broadcast proof fn lemma_views_push(rows: Seq<Vec<char>>, row: Vec<char>)
    ensures
        #[trigger] views(rows.push(row)) == views(rows).push(row@),
{
    assert(views(rows.push(row)) =~= views(rows).push(row@));
}

/// The characters of a string.
pub fn chars_of(s: &str) -> (chars: Vec<char>)
    ensures
        chars@ == s@,
{
    let mut chars: Vec<char> = Vec::new();
    for c in it: s.chars()
        invariant
            it.seq() == s@,
            chars@ == s@.take(it.index() as int),
    {
        chars.push(c);
    }
    assert(chars@ =~= s@);
    chars
}

/// The string made of the given characters.
pub fn string_of(chars: &Vec<char>) -> (s: String)
    ensures
        s@ == chars@,
{
    let mut s = String::new();
    let mut i: usize = 0;
    while i < chars.len()
        invariant
            i <= chars@.len(),
            s@ == chars@.take(i as int),
        decreases chars@.len() - i,
    {
        s.push(chars[i]);
        i += 1;
        assert(chars@.take(i as int) =~= chars@.take(i - 1).push(chars@[i - 1]));
    }
    assert(s@ =~= chars@);
    s
}

/// A copy of `chars[from..to]`.
pub fn cut(chars: &Vec<char>, from: usize, to: usize) -> (part: Vec<char>)
    requires
        from <= to <= chars@.len(),
    ensures
        part@ == chars@.subrange(from as int, to as int),
{
    let mut part: Vec<char> = Vec::new();
    let mut i: usize = from;
    while i < to
        invariant
            from <= i <= to <= chars@.len(),
            part@ == chars@.subrange(from as int, i as int),
        decreases to - i,
    {
        part.push(chars[i]);
        i += 1;
        assert(chars@.subrange(from as int, i as int) =~= chars@.subrange(
            from as int,
            i - 1,
        ).push(chars@[i - 1]));
    }
    part
}

/// Append all of `more` to `out`.
pub fn push_chars(out: &mut Vec<char>, more: &Vec<char>)
    ensures
        final(out)@ == old(out)@ + more@,
{
    let mut i: usize = 0;
    while i < more.len()
        invariant
            i <= more@.len(),
            out@ == old(out)@ + more@.take(i as int),
        decreases more@.len() - i,
    {
        out.push(more[i]);
        i += 1;
        assert(old(out)@ + more@.take(i as int) =~= (old(out)@ + more@.take(i - 1)).push(
            more@[i - 1],
        ));
    }
    assert(more@.take(more@.len() as int) =~= more@);
}

/// Append a string to `out`.
pub fn push_str(out: &mut Vec<char>, s: &str)
    ensures
        final(out)@ == old(out)@ + s@,
{
    let more = chars_of(s);
    push_chars(out, &more);
}

/// `n` copies of `c`.
pub open spec fn repeated(c: char, n: nat) -> Seq<char> {
    Seq::new(n, |i: int| c)
}

/// Append `n` copies of `c` to `out`.
pub fn push_repeated(out: &mut Vec<char>, c: char, n: usize)
    ensures
        final(out)@ == old(out)@ + repeated(c, n as nat),
{
    let mut i: usize = 0;
    while i < n
        invariant
            i <= n,
            out@ == old(out)@ + repeated(c, i as nat),
        decreases n - i,
    {
        out.push(c);
        i += 1;
        assert(old(out)@ + repeated(c, i as nat) =~= (old(out)@ + repeated(
            c,
            (i - 1) as nat,
        )).push(c));
    }
}

/// Whether two character vectors hold the same text.
pub fn same(a: &Vec<char>, b: &Vec<char>) -> (r: bool)
    ensures
        r == (a@ == b@),
{
    if a.len() != b.len() {
        return false;
    }
    let mut i: usize = 0;
    while i < a.len()
        invariant
            i <= a@.len(),
            a@.len() == b@.len(),
            a@.take(i as int) =~= b@.take(i as int),
        decreases a@.len() - i,
    {
        if a[i] != b[i] {
            assert(a@[i as int] != b@[i as int]);
            return false;
        }
        i += 1;
        assert(a@.take(i as int) =~= a@.take(i - 1).push(a@[i - 1]));
        assert(b@.take(i as int) =~= b@.take(i - 1).push(b@[i - 1]));
    }
    assert(a@ =~= a@.take(i as int));
    assert(b@ =~= b@.take(i as int));
    true
}

/// Whether `chars` is the text `s`.
pub fn is_text(chars: &Vec<char>, s: &str) -> (r: bool)
    ensures
        r == (chars@ == s@),
{
    let other = chars_of(s);
    same(chars, &other)
}

/// Whether two strings hold the same text.
pub fn same_str(a: &str, b: &str) -> (r: bool)
    ensures
        r == (a@ == b@),
{
    let x = chars_of(a);
    is_text(&x, b)
}

// ---------------------------------------------------------------- whitespace

/// The characters with Unicode's White_Space property.
pub open spec fn white_space(c: char) -> bool {
    ||| '\u{9}' <= c <= '\u{d}'
    ||| c == ' ' || c == '\u{85}' || c == '\u{a0}' || c == '\u{1680}'
    ||| '\u{2000}' <= c <= '\u{200a}'
    ||| c == '\u{2028}' || c == '\u{2029}' || c == '\u{202f}' || c == '\u{205f}' || c == '\u{3000}'
}

/// Whether `c` is white space.
pub fn is_whitespace(c: char) -> (r: bool)
    ensures
        r == white_space(c),
{
    ('\u{9}' <= c && c <= '\u{d}') || c == ' ' || c == '\u{85}' || c == '\u{a0}' || c == '\u{1680}'
        || ('\u{2000}' <= c && c <= '\u{200a}') || c == '\u{2028}' || c == '\u{2029}' || c
        == '\u{202f}' || c == '\u{205f}' || c == '\u{3000}'
}

/// Whether a text is white space throughout (the empty text is).
pub open spec fn blank(s: Seq<char>) -> bool {
    forall|i: int| 0 <= i < s.len() ==> white_space(#[trigger] s[i])
}

/// `s` without its leading white space.
pub open spec fn trimmed_start(s: Seq<char>) -> Seq<char>
    decreases s.len(),
{
    if s.len() > 0 && white_space(s[0]) {
        trimmed_start(s.skip(1))
    } else {
        s
    }
}

/// `s` without its trailing white space.
pub open spec fn trimmed_end(s: Seq<char>) -> Seq<char>
    decreases s.len(),
{
    if s.len() > 0 && white_space(s.last()) {
        trimmed_end(s.drop_last())
    } else {
        s
    }
}

/// `s` without white space at either end.
pub open spec fn trimmed(s: Seq<char>) -> Seq<char> {
    trimmed_end(trimmed_start(s))
}

/// `s` without its leading white space.
pub fn trim_start(s: &Vec<char>) -> (r: Vec<char>)
    ensures
        r@ == trimmed_start(s@),
        r@.len() <= s@.len(),
        r@ == s@.skip(s@.len() - r@.len()),
{
    let mut i: usize = 0;
    assert(s@.skip(0) =~= s@);
    while i < s.len() && is_whitespace(s[i])
        invariant
            i <= s@.len(),
            trimmed_start(s@.skip(i as int)) == trimmed_start(s@),
        decreases s@.len() - i,
    {
        proof {
            assert(s@.skip(i as int).skip(1) =~= s@.skip(i + 1));
        }
        i += 1;
    }
    let r = cut(s, i, s.len());
    assert(r@ =~= s@.skip(i as int));
    r
}

/// `s` without its trailing white space.
pub fn trim_end(s: &Vec<char>) -> (r: Vec<char>)
    ensures
        r@ == trimmed_end(s@),
        r@.len() <= s@.len(),
        r@ == s@.take(r@.len() as int),
{
    let mut n: usize = s.len();
    assert(s@.take(n as int) =~= s@);
    while n > 0 && is_whitespace(s[n - 1])
        invariant
            n <= s@.len(),
            trimmed_end(s@.take(n as int)) == trimmed_end(s@),
        decreases n,
    {
        proof {
            assert(s@.take(n as int).drop_last() =~= s@.take(n - 1));
        }
        n -= 1;
    }
    let r = cut(s, 0, n);
    assert(r@ =~= s@.take(n as int));
    r
}

/// `s` without white space at either end.
pub fn trim(s: &Vec<char>) -> (r: Vec<char>)
    ensures
        r@ == trimmed(s@),
        r@.len() <= s@.len(),
{
    let t = trim_start(s);
    trim_end(&t)
}

/// A text is blank exactly when nothing is left of it after trimming.
pub proof fn lemma_blank_trimmed(s: Seq<char>)
    ensures
        blank(s) == (trimmed(s).len() == 0),
        blank(s) == (trimmed_start(s).len() == 0),
    decreases s.len(),
{
    if s.len() > 0 {
        if white_space(s[0]) {
            lemma_blank_trimmed(s.skip(1));
            if blank(s.skip(1)) {
                assert forall|i: int| 0 <= i < s.len() implies white_space(#[trigger] s[i]) by {
                    if i > 0 {
                        assert(s[i] == s.skip(1)[i - 1]);
                    }
                }
            }
            if blank(s) {
                assert forall|i: int| 0 <= i < s.skip(1).len() implies white_space(
                    #[trigger] s.skip(1)[i],
                ) by {
                    assert(s.skip(1)[i] == s[i + 1]);
                }
            }
        } else {
            lemma_trimmed_end_keeps(s, 0);
        }
    }
}

/// Trimming the end keeps everything up to any character that is not white space.
pub proof fn lemma_trimmed_end_keeps(s: Seq<char>, i: int)
    requires
        0 <= i < s.len(),
        !white_space(s[i]),
    ensures
        trimmed_end(s).len() > i,
        trimmed_end(s).take(i + 1) == s.take(i + 1),
    decreases s.len(),
{
    if white_space(s.last()) {
        lemma_trimmed_end_keeps(s.drop_last(), i);
        assert(s.drop_last().take(i + 1) =~= s.take(i + 1));
    }
}

/// Whether a text is white space throughout.
pub fn is_blank(s: &Vec<char>) -> (r: bool)
    ensures
        r == blank(s@),
{
    let mut i: usize = 0;
    while i < s.len()
        invariant
            i <= s@.len(),
            forall|j: int| 0 <= j < i ==> white_space(#[trigger] s@[j]),
        decreases s@.len() - i,
    {
        if !is_whitespace(s[i]) {
            assert(!white_space(s@[i as int]));
            return false;
        }
        i += 1;
    }
    true
}

// ---------------------------------------------------------------- searching

/// How many characters equal to `c` a text begins with.
pub open spec fn run_length(s: Seq<char>, c: char) -> nat
    decreases s.len(),
{
    if s.len() > 0 && s[0] == c {
        1 + run_length(s.skip(1), c)
    } else {
        0
    }
}

pub proof fn lemma_run_length(s: Seq<char>, c: char)
    ensures
        run_length(s, c) <= s.len(),
        forall|i: int| 0 <= i < run_length(s, c) ==> s[i] == c,
        run_length(s, c) < s.len() ==> s[run_length(s, c) as int] != c,
    decreases s.len(),
{
    if s.len() > 0 && s[0] == c {
        lemma_run_length(s.skip(1), c);
        assert forall|i: int| 0 <= i < run_length(s, c) implies s[i] == c by {
            if i > 0 {
                assert(s.skip(1)[i - 1] == s[i]);
            }
        }
    }
}

/// How many characters equal to `c` a text begins with.
pub fn leading_run(s: &Vec<char>, c: char) -> (n: usize)
    ensures
        n == run_length(s@, c),
        n <= s@.len(),
{
    let mut n: usize = 0;
    assert(s@.skip(0) =~= s@);
    while n < s.len() && s[n] == c
        invariant
            n <= s@.len(),
            run_length(s@, c) == n + run_length(s@.skip(n as int), c),
        decreases s@.len() - n,
    {
        proof {
            assert(s@.skip(n as int).skip(1) =~= s@.skip(n + 1));
        }
        n += 1;
    }
    n
}

/// Where `c` first stands in a text; the text's length where it does not.
pub open spec fn position(s: Seq<char>, c: char) -> nat
    decreases s.len(),
{
    if s.len() > 0 && s[0] != c {
        1 + position(s.skip(1), c)
    } else {
        0
    }
}

pub proof fn lemma_position(s: Seq<char>, c: char)
    ensures
        position(s, c) <= s.len(),
        position(s, c) < s.len() ==> s[position(s, c) as int] == c,
        forall|i: int| 0 <= i < position(s, c) ==> s[i] != c,
        s.contains(c) == (position(s, c) < s.len()),
    decreases s.len(),
{
    if s.len() > 0 && s[0] != c {
        lemma_position(s.skip(1), c);
        assert forall|i: int| 0 <= i < position(s, c) implies s[i] != c by {
            if i > 0 {
                assert(s.skip(1)[i - 1] == s[i]);
            }
        }
    }
}

/// Where `c` first stands in `s` at or after `from`; the length of `s` where it does not.
pub fn find_char(s: &Vec<char>, c: char, from: usize) -> (n: usize)
    requires
        from <= s@.len(),
    ensures
        n == from + position(s@.skip(from as int), c),
        from <= n <= s@.len(),
        n < s@.len() ==> s@[n as int] == c,
        forall|i: int| from <= i < n ==> s@[i] != c,
{
    let mut n: usize = from;
    while n < s.len() && s[n] != c
        invariant
            from <= n <= s@.len(),
            from + position(s@.skip(from as int), c) == n + position(s@.skip(n as int), c),
            forall|i: int| from <= i < n ==> s@[i] != c,
        decreases s@.len() - n,
    {
        proof {
            assert(s@.skip(n as int).skip(1) =~= s@.skip(n + 1));
        }
        n += 1;
    }
    n
}

/// Whether a text begins with `p`.
pub open spec fn begins(s: Seq<char>, p: Seq<char>) -> bool {
    p.len() <= s.len() && s.take(p.len() as int) == p
}

/// Whether `p` stands in `s` at index `i`.
pub open spec fn occurs_at(s: Seq<char>, p: Seq<char>, i: int) -> bool {
    0 <= i && i + p.len() <= s.len() && s.subrange(i, i + p.len()) == p
}

/// Whether `p` stands in `s` at index `from`.
pub fn matches_at(s: &Vec<char>, p: &Vec<char>, from: usize) -> (r: bool)
    requires
        from <= s@.len(),
    ensures
        r == occurs_at(s@, p@, from as int),
{
    if p.len() > s.len() - from {
        return false;
    }
    let mut i: usize = 0;
    while i < p.len()
        invariant
            i <= p@.len(),
            from + p@.len() <= s@.len() == s.len(),
            forall|j: int| 0 <= j < i ==> s@[from + j] == p@[j],
        decreases p@.len() - i,
    {
        if s[from + i] != p[i] {
            assert(s@.subrange(from as int, from + p@.len())[i as int] != p@[i as int]);
            return false;
        }
        i += 1;
    }
    assert(s@.subrange(from as int, from + p@.len()) =~= p@);
    true
}

/// Whether a text begins with `p`.
pub fn starts_with(s: &Vec<char>, p: &str) -> (r: bool)
    ensures
        r == begins(s@, p@),
{
    let prefix = chars_of(p);
    let r = matches_at(s, &prefix, 0);
    assert(prefix@.len() <= s@.len() ==> s@.subrange(0, prefix@.len() as int) =~= s@.take(
        prefix@.len() as int,
    ));
    r
}

/// The first index at or after `from` at which `p` stands in `s`.
pub open spec fn occurrence_from(s: Seq<char>, p: Seq<char>, from: int) -> Option<int>
    decreases s.len() + 1 - from,
{
    if from < 0 || from + p.len() > s.len() {
        None
    } else if occurs_at(s, p, from) {
        Some(from)
    } else {
        occurrence_from(s, p, from + 1)
    }
}

pub proof fn lemma_occurrence_from(s: Seq<char>, p: Seq<char>, from: int)
    requires
        0 <= from,
    ensures
        match occurrence_from(s, p, from) {
            Some(i) => from <= i && occurs_at(s, p, i) && forall|j: int|
                from <= j < i ==> !#[trigger] occurs_at(s, p, j),
            None => forall|j: int| from <= j ==> !#[trigger] occurs_at(s, p, j),
        },
    decreases s.len() + 1 - from,
{
    if from + p.len() <= s.len() && !occurs_at(s, p, from) {
        lemma_occurrence_from(s, p, from + 1);
    }
}

/// The first index at or after `from` at which `p` stands in `s`.
pub fn find(s: &Vec<char>, p: &Vec<char>, from: usize) -> (r: Option<usize>)
    requires
        from <= s@.len(),
    ensures
        match r {
            Some(i) => occurrence_from(s@, p@, from as int) == Some(i as int) && from <= i && i
                + p@.len() <= s@.len(),
            None => occurrence_from(s@, p@, from as int) is None,
        },
{
    let mut i: usize = from;
    while i <= s.len() && p.len() <= s.len() - i
        invariant
            from <= i,
            i <= s@.len() + 1,
            occurrence_from(s@, p@, from as int) == occurrence_from(s@, p@, i as int),
        decreases s@.len() + 1 - i,
    {
        if matches_at(s, p, i) {
            return Some(i);
        }
        if i == s.len() {
            assert(s@.subrange(i as int, i as int) =~= p@);
            return None;
        }
        i += 1;
    }
    None
}

/// Whether `p` stands anywhere in `s`.
pub open spec fn holds(s: Seq<char>, p: Seq<char>) -> bool {
    occurrence_from(s, p, 0) is Some
}

/// Whether `p` stands anywhere in `s`.
pub fn contains_text(s: &Vec<char>, p: &str) -> (r: bool)
    ensures
        r == holds(s@, p@),
{
    let part = chars_of(p);
    find(s, &part, 0).is_some()
}

// ---------------------------------------------------------------- lines and pieces

/// A line's text without one carriage return at its end.
pub open spec fn without_cr(s: Seq<char>) -> Seq<char> {
    if s.len() > 0 && s.last() == '\r' {
        s.drop_last()
    } else {
        s
    }
}

/// The lines of a text. A line ends in `\n` or `\r\n`, which is not part of it;
/// the last one need not end in either.
pub open spec fn lines_of(s: Seq<char>) -> Seq<Seq<char>>
    decreases s.len(),
    via lines_of_decreases
{
    if s.len() == 0 {
        seq![]
    } else {
        let n = position(s, '\n') as int;
        if n >= s.len() {
            seq![s]
        } else {
            seq![without_cr(s.take(n))] + lines_of(s.skip(n + 1))
        }
    }
}

#[via_fn]
proof fn lines_of_decreases(s: Seq<char>) {
    lemma_position(s, '\n');
}

/// The lines of a text.
pub fn split_lines(s: &Vec<char>) -> (lines: Vec<Vec<char>>)
    ensures
        views(lines@) == lines_of(s@),
{
    broadcast use lemma_views_push;

    let mut lines: Vec<Vec<char>> = Vec::new();
    let mut start: usize = 0;
    assert(s@.skip(0) =~= s@);
    assert(views(lines@) + lines_of(s@) =~= lines_of(s@));
    while start < s.len()
        invariant
            start <= s@.len(),
            views(lines@) + lines_of(s@.skip(start as int)) == lines_of(s@),
        decreases s@.len() - start,
    {
        let end: usize = find_char(s, '\n', start);
        let ghost rest = s@.skip(start as int);
        let ghost before = views(lines@);
        if end == s.len() {
            let line = cut(s, start, end);
            assert(line@ =~= rest);
            lines.push(line);
            assert(views(lines@) =~= before + seq![rest]);
            assert(before + lines_of(rest) == lines_of(s@));
            return lines;
        }
        assert(s@.subrange(start as int, end as int) =~= rest.take(end - start));
        assert(rest.skip(end - start + 1) =~= s@.skip(end + 1));
        let line = if end > start && s[end - 1] == '\r' {
            cut(s, start, end - 1)
        } else {
            cut(s, start, end)
        };
        assert(line@ =~= without_cr(rest.take(end - start)));
        lines.push(line);
        start = end + 1;
        assert(views(lines@) + lines_of(s@.skip(start as int)) =~= before + (seq![line@] + lines_of(
            s@.skip(start as int),
        )));
    }
    assert(views(lines@) + lines_of(s@.skip(start as int)) =~= views(lines@));
    lines
}

/// Lines put together again, with a line end between every two.
pub open spec fn joined_lines(lines: Seq<Seq<char>>) -> Seq<char>
    decreases lines.len(),
{
    if lines.len() == 0 {
        seq![]
    } else if lines.len() == 1 {
        lines[0]
    } else {
        joined_lines(lines.drop_last()).push('\n') + lines.last()
    }
}

/// The lines `from..to` put together, with a line end between every two.
pub fn join_lines(lines: &Vec<Vec<char>>, from: usize, to: usize) -> (s: Vec<char>)
    requires
        from <= to <= lines@.len(),
    ensures
        s@ == joined_lines(views(lines@).subrange(from as int, to as int)),
{
    let ghost all = views(lines@);
    let mut s: Vec<char> = Vec::new();
    let mut i: usize = from;
    assert(all.subrange(from as int, from as int) =~= seq![]);
    while i < to
        invariant
            from <= i <= to <= lines@.len(),
            all == views(lines@),
            s@ == joined_lines(all.subrange(from as int, i as int)),
        decreases to - i,
    {
        let ghost before = s@;
        let ghost part = all.subrange(from as int, i + 1);
        assert(part.drop_last() =~= all.subrange(from as int, i as int));
        assert(part.last() == lines@[i as int]@);
        if i > from {
            s.push('\n');
        }
        push_chars(&mut s, &lines[i]);
        if i == from {
            assert(part[0] == lines@[i as int]@);
            assert(s@ =~= part[0]);
        }
        i += 1;
    }
    s
}

/// The lines, each with a line end behind it.
pub open spec fn ended_lines(lines: Seq<Seq<char>>) -> Seq<char>
    decreases lines.len(),
{
    if lines.len() == 0 {
        seq![]
    } else {
        ended_lines(lines.drop_last()) + lines.last().push('\n')
    }
}

/// Put the lines `from..to` behind a text, each with a line end.
pub fn push_lines(out: &mut Vec<char>, lines: &Vec<Vec<char>>, from: usize, to: usize)
    requires
        from <= to <= lines@.len(),
    ensures
        final(out)@ == old(out)@ + ended_lines(views(lines@).subrange(from as int, to as int)),
{
    let ghost all = views(lines@);
    let ghost start = out@;
    let mut i: usize = from;
    assert(all.subrange(from as int, from as int) =~= seq![]);
    assert(start + ended_lines(seq![]) =~= start);
    while i < to
        invariant
            from <= i <= to <= lines@.len(),
            all == views(lines@),
            out@ == start + ended_lines(all.subrange(from as int, i as int)),
        decreases to - i,
    {
        let ghost part = all.subrange(from as int, i + 1);
        let ghost before = ended_lines(all.subrange(from as int, i as int));
        assert(part.drop_last() =~= all.subrange(from as int, i as int));
        assert(part.last() == lines@[i as int]@);
        push_chars(out, &lines[i]);
        out.push('\n');
        assert(out@ =~= start + (before + lines@[i as int]@.push('\n')));
        i += 1;
    }
}

/// A text without the line end at its end, where the text it was made from has none there.
pub open spec fn ended_as(out: Seq<char>, original: Seq<char>) -> Seq<char> {
    if !(original.len() > 0 && original.last() == '\n') && out.len() > 0 && out.last() == '\n' {
        out.drop_last()
    } else {
        out
    }
}

/// Take the line end at the end of a text away, where the text it was made from has none there.
pub fn end_as(out: &mut Vec<char>, original: &Vec<char>)
    ensures
        final(out)@ == ended_as(old(out)@, original@),
{
    let ends = original.len() > 0 && original[original.len() - 1] == '\n';
    if !ends && out.len() > 0 && out[out.len() - 1] == '\n' {
        out.pop();
    }
}

/// The pieces of a text between the characters equal to `c`; there is always one.
pub open spec fn pieces(s: Seq<char>, c: char) -> Seq<Seq<char>>
    decreases s.len(),
    via pieces_decreases
{
    let n = position(s, c) as int;
    if n >= s.len() {
        seq![s]
    } else {
        seq![s.take(n)] + pieces(s.skip(n + 1), c)
    }
}

#[via_fn]
proof fn pieces_decreases(s: Seq<char>, c: char) {
    lemma_position(s, c);
}

/// The pieces of a text between the characters equal to `c`.
pub fn split(s: &Vec<char>, c: char) -> (r: Vec<Vec<char>>)
    ensures
        views(r@) == pieces(s@, c),
        r@.len() >= 1,
{
    broadcast use lemma_views_push;

    let mut r: Vec<Vec<char>> = Vec::new();
    let mut start: usize = 0;
    assert(s@.skip(0) =~= s@);
    assert(views(r@) + pieces(s@, c) =~= pieces(s@, c));
    loop
        invariant
            start <= s@.len(),
            views(r@) + pieces(s@.skip(start as int), c) == pieces(s@, c),
        decreases s@.len() - start,
    {
        let end: usize = find_char(s, c, start);
        let ghost rest = s@.skip(start as int);
        let ghost before = views(r@);
        let piece = cut(s, start, end);
        let ghost text = piece@;
        assert(text =~= rest.take(end - start));
        r.push(piece);
        if end == s.len() {
            assert(rest.take(end - start) =~= rest);
            assert(views(r@) =~= before + seq![rest]);
            return r;
        }
        assert(rest.skip(end - start + 1) =~= s@.skip(end + 1));
        start = end + 1;
        assert(views(r@) + pieces(s@.skip(start as int), c) =~= before + (seq![text] + pieces(
            s@.skip(start as int),
            c,
        )));
    }
}

/// The first piece: what stands before the first `c`.
pub open spec fn first_piece(s: Seq<char>, c: char) -> Seq<char> {
    s.take(position(s, c) as int)
}

/// What stands before the first `c`.
pub fn before_char(s: &Vec<char>, c: char) -> (r: Vec<char>)
    ensures
        r@ == first_piece(s@, c),
{
    let n: usize = find_char(s, c, 0);
    assert(s@.skip(0) =~= s@);
    let r = cut(s, 0, n);
    assert(r@ =~= s@.take(n as int));
    r
}

/// A text with every `c` replaced.
pub open spec fn replaced(s: Seq<char>, c: char, with: Seq<char>) -> Seq<char>
    decreases s.len(),
{
    if s.len() == 0 {
        s
    } else {
        replaced(s.drop_last(), c, with) + (if s.last() == c {
            with
        } else {
            seq![s.last()]
        })
    }
}

/// A text with every `c` replaced.
pub fn replace_char(s: &Vec<char>, c: char, with: &str) -> (r: Vec<char>)
    ensures
        r@ == replaced(s@, c, with@),
{
    let mut r: Vec<char> = Vec::new();
    let mut i: usize = 0;
    assert(s@.take(0) =~= Seq::<char>::empty());
    while i < s.len()
        invariant
            i <= s@.len(),
            r@ == replaced(s@.take(i as int), c, with@),
        decreases s@.len() - i,
    {
        let ghost before = r@;
        if s[i] == c {
            push_str(&mut r, with);
        } else {
            r.push(s[i]);
            assert(r@ =~= before + seq![s@[i as int]]);
        }
        i += 1;
        assert(s@.take(i as int).drop_last() =~= s@.take(i - 1));
    }
    assert(s@.take(i as int) =~= s@);
    r
}

// ---------------------------------------------------------------- ASCII case and order

/// An ASCII capital letter as a small one; any other character as it is.
pub open spec fn ascii_lower(c: char) -> char {
    if 'A' <= c <= 'Z' {
        (c as int + 32) as char
    } else {
        c
    }
}

/// A text with its ASCII capital letters made small.
pub open spec fn ascii_lowered(s: Seq<char>) -> Seq<char> {
    s.map_values(|c: char| ascii_lower(c))
}

/// An ASCII capital letter as a small one; any other character as it is.
pub fn lower_char(c: char) -> (r: char)
    ensures
        r == ascii_lower(c),
{
    if 'A' <= c && c <= 'Z' {
        (c as u8 + 32) as char
    } else {
        c
    }
}

/// A text with its ASCII capital letters made small.
pub fn lower(s: &Vec<char>) -> (r: Vec<char>)
    ensures
        r@ == ascii_lowered(s@),
{
    let mut r: Vec<char> = Vec::new();
    let mut i: usize = 0;
    while i < s.len()
        invariant
            i <= s@.len(),
            r@ == ascii_lowered(s@.take(i as int)),
        decreases s@.len() - i,
    {
        r.push(lower_char(s[i]));
        i += 1;
        assert(ascii_lowered(s@.take(i as int)) =~= ascii_lowered(s@.take(i - 1)).push(
            ascii_lower(s@[i - 1]),
        ));
    }
    assert(s@.take(i as int) =~= s@);
    r
}

/// Whether `a` comes strictly before `b`, by their characters' code points.
pub open spec fn precedes(a: Seq<char>, b: Seq<char>) -> bool
    decreases a.len(),
{
    if b.len() == 0 {
        false
    } else if a.len() == 0 {
        true
    } else if a[0] != b[0] {
        a[0] < b[0]
    } else {
        precedes(a.skip(1), b.skip(1))
    }
}

/// Whether `a` comes strictly before `b`, by their characters' code points.
pub fn comes_before(a: &Vec<char>, b: &Vec<char>) -> (r: bool)
    ensures
        r == precedes(a@, b@),
{
    let mut i: usize = 0;
    assert(a@.skip(0) =~= a@);
    assert(b@.skip(0) =~= b@);
    while i < a.len() && i < b.len() && a[i] == b[i]
        invariant
            i <= a@.len(),
            i <= b@.len(),
            precedes(a@, b@) == precedes(a@.skip(i as int), b@.skip(i as int)),
        decreases a@.len() - i,
    {
        assert(a@.skip(i as int).skip(1) =~= a@.skip(i + 1));
        assert(b@.skip(i as int).skip(1) =~= b@.skip(i + 1));
        i += 1;
    }
    if i == b.len() {
        false
    } else if i == a.len() {
        true
    } else {
        a[i] < b[i]
    }
}

/// The order is a strict total one.
pub proof fn lemma_precedes_total(a: Seq<char>, b: Seq<char>)
    ensures
        !(precedes(a, b) && precedes(b, a)),
        precedes(a, b) || precedes(b, a) || a == b,
    decreases a.len(),
{
    if a.len() > 0 && b.len() > 0 && a[0] == b[0] {
        lemma_precedes_total(a.skip(1), b.skip(1));
        assert(a =~= seq![a[0]] + a.skip(1));
        assert(b =~= seq![b[0]] + b.skip(1));
    } else if a.len() == 0 && b.len() == 0 {
        assert(a =~= b);
    }
}

/// Not coming after is transitive.
pub proof fn lemma_precedes_transitive(a: Seq<char>, b: Seq<char>, c: Seq<char>)
    requires
        !precedes(b, a),
        !precedes(c, b),
    ensures
        !precedes(c, a),
    decreases a.len(),
{
    if a.len() > 0 && b.len() > 0 && c.len() > 0 && a[0] == b[0] && b[0] == c[0] {
        lemma_precedes_transitive(a.skip(1), b.skip(1), c.skip(1));
    }
}

/// Whether a text is one of a table's, whatever the case of its ASCII letters.
pub open spec fn listed(table: Seq<&'static str>, key: Seq<char>) -> bool {
    exists|i: int|
        0 <= i < table.len() && ascii_lowered((#[trigger] table[i])@) == ascii_lowered(key)
}

/// Whether a text is one of a table's, whatever the case of its ASCII letters.
pub fn is_listed(table: &[&'static str], key: &Vec<char>) -> (r: bool)
    ensures
        r == listed(table@, key@),
{
    let wanted = lower(key);
    let mut i: usize = 0;
    while i < table.len()
        invariant
            i <= table@.len(),
            wanted@ == ascii_lowered(key@),
            forall|j: int| 0 <= j < i ==> ascii_lowered((#[trigger] table@[j])@) != wanted@,
        decreases table@.len() - i,
    {
        let entry = chars_of(table[i]);
        let lowered = lower(&entry);
        if same(&lowered, &wanted) {
            assert(ascii_lowered(table@[i as int]@) == wanted@);
            return true;
        }
        i += 1;
    }
    false
}

/// The first position at or after `from` at which a table holds a text.
pub open spec fn table_index(table: Seq<&'static str>, key: Seq<char>, from: int) -> Option<int>
    decreases table.len() - from,
{
    if from < 0 || from >= table.len() {
        None
    } else if table[from]@ == key {
        Some(from)
    } else {
        table_index(table, key, from + 1)
    }
}

/// The first position at which a table holds a text.
pub fn find_in_table(table: &[&'static str], key: &str) -> (r: Option<usize>)
    ensures
        match r {
            Some(i) => i < table@.len() && table_index(table@, key@, 0) == Some(i as int),
            None => table_index(table@, key@, 0) is None,
        },
{
    let mut i: usize = 0;
    while i < table.len()
        invariant
            i <= table@.len(),
            table_index(table@, key@, 0) == table_index(table@, key@, i as int),
        decreases table@.len() - i,
    {
        if same_str(table[i], key) {
            return Some(i);
        }
        i += 1;
    }
    None
}

// ---------------------------------------------------------------- numbers

/// The decimal digit with the given value.
pub open spec fn digit(d: int) -> char {
    ('0' as int + d) as char
}

/// A number in decimal.
pub open spec fn decimal(n: nat) -> Seq<char>
    decreases n,
{
    if n < 10 {
        seq![digit(n as int)]
    } else {
        decimal(n / 10).push(digit((n % 10) as int))
    }
}

fn digit_char(d: u64) -> (c: char)
    requires
        d < 10,
    ensures
        c == digit(d as int),
{
    (48u8 + d as u8) as char
}

/// A number in decimal.
pub fn number(n: u64) -> (s: Vec<char>)
    ensures
        s@ == decimal(n as nat),
    decreases n,
{
    if n < 10 {
        let mut s: Vec<char> = Vec::new();
        s.push(digit_char(n));
        assert(s@ =~= decimal(n as nat));
        s
    } else {
        let mut s = number(n / 10);
        s.push(digit_char(n % 10));
        s
    }
}

/// Append a number in decimal to `out`.
pub fn push_number(out: &mut Vec<char>, n: u64)
    ensures
        final(out)@ == old(out)@ + decimal(n as nat),
{
    let s = number(n);
    push_chars(out, &s);
}

/// Whether `c` is a decimal digit.
pub open spec fn is_digit(c: char) -> bool {
    '0' <= c <= '9'
}

/// The number that a run of decimal digits stands for.
pub open spec fn digits_value(s: Seq<char>) -> nat
    decreases s.len(),
{
    if s.len() == 0 {
        0
    } else {
        digits_value(s.drop_last()) * 10 + (s.last() as int - '0' as int) as nat
    }
}

/// The number a text stands for: decimal digits, at least one, after at most one plus sign,
/// with a value that `usize` can hold.
pub open spec fn parsed_number(s: Seq<char>) -> Option<nat> {
    number_in(
        if s.len() > 0 && s[0] == '+' {
            s.skip(1)
        } else {
            s
        },
    )
}

/// The number that a text of nothing but decimal digits stands for, where `usize` can hold it.
pub open spec fn number_in(digits: Seq<char>) -> Option<nat> {
    if digits.len() > 0 && (forall|i: int| 0 <= i < digits.len() ==> is_digit(#[trigger] digits[i]))
        && digits_value(digits) <= usize::MAX {
        Some(digits_value(digits))
    } else {
        None
    }
}

proof fn lemma_digits_value_grows(s: Seq<char>, i: int)
    requires
        0 <= i <= s.len(),
    ensures
        digits_value(s.take(i)) <= digits_value(s),
    decreases s.len() - i,
{
    if i < s.len() {
        lemma_digits_value_grows(s, i + 1);
        assert(s.take(i + 1).drop_last() =~= s.take(i));
        assert(digits_value(s.take(i + 1)) >= digits_value(s.take(i)));
    } else {
        assert(s.take(i) =~= s);
    }
}

/// The number a text stands for.
pub fn parse_number(s: &Vec<char>) -> (r: Option<usize>)
    ensures
        match r {
            Some(n) => parsed_number(s@) == Some(n as nat),
            None => parsed_number(s@) is None,
        },
{
    let from: usize = if s.len() > 0 && s[0] == '+' {
        1
    } else {
        0
    };
    let ghost digits = s@.skip(from as int);
    assert(from == 0 ==> digits =~= s@);
    if from == s.len() {
        return None;
    }
    let mut n: usize = 0;
    let mut i: usize = from;
    assert(digits.take(0) =~= Seq::<char>::empty());
    while i < s.len()
        invariant
            from <= i <= s@.len(),
            digits == s@.skip(from as int),
            n == digits_value(digits.take(i - from)),
            forall|j: int| 0 <= j < i - from ==> is_digit(#[trigger] digits[j]),
            digits.len() > 0,
            parsed_number(s@) == number_in(digits),
        decreases s@.len() - i,
    {
        let c: char = s[i];
        assert(digits[i - from] == c);
        if !('0' <= c && c <= '9') {
            assert(!is_digit(digits[i - from]));
            return None;
        }
        let d: usize = (c as u32 - 48) as usize;
        proof {
            assert(digits.take(i - from + 1).drop_last() =~= digits.take(i - from));
            assert(digits_value(digits.take(i - from + 1)) == n * 10 + d);
            lemma_digits_value_grows(digits, i - from + 1);
        }
        if n > (usize::MAX - d) / 10 {
            return None;
        }
        n = n * 10 + d;
        i += 1;
    }
    assert(digits.take(i - from) =~= digits);
    Some(n)
}

/// A number in decimal is made of digits, at least one, and stands for the number.
pub proof fn lemma_decimal(n: nat)
    ensures
        decimal(n).len() > 0,
        forall|i: int| 0 <= i < decimal(n).len() ==> is_digit(#[trigger] decimal(n)[i]),
        digits_value(decimal(n)) == n,
    decreases n,
{
    if n < 10 {
        assert(decimal(n).drop_last() =~= seq![]);
        assert(digits_value(seq![]) == 0);
    } else {
        lemma_decimal(n / 10);
        let front = decimal(n / 10);
        assert(decimal(n).drop_last() =~= front);
        assert forall|i: int| 0 <= i < decimal(n).len() implies is_digit(#[trigger] decimal(n)[i]) by {
            if i < front.len() {
                assert(decimal(n)[i] == front[i]);
            }
        }
    }
}

/// Reading a number back from its decimal form gives the number.
pub proof fn lemma_parse_decimal(n: nat)
    requires
        n <= usize::MAX,
    ensures
        parsed_number(decimal(n)) == Some(n),
{
    lemma_decimal(n);
    assert(is_digit(decimal(n)[0]));
}

/// Trimming the end leaves a beginning of the text.
pub proof fn lemma_trimmed_end_prefix(s: Seq<char>)
    ensures
        trimmed_end(s).len() <= s.len(),
        trimmed_end(s) == s.take(trimmed_end(s).len() as int),
    decreases s.len(),
{
    if s.len() > 0 && white_space(s.last()) {
        lemma_trimmed_end_prefix(s.drop_last());
        let n = trimmed_end(s).len() as int;
        assert(s.drop_last().take(n) =~= s.take(n));
    } else {
        assert(s.take(s.len() as int) =~= s);
    }
}

/// Where `c` first stands is determined by what stands before it.
pub proof fn lemma_position_at(s: Seq<char>, c: char, n: int)
    requires
        0 <= n <= s.len(),
        n < s.len() ==> s[n] == c,
        forall|i: int| 0 <= i < n ==> s[i] != c,
    ensures
        position(s, c) == n,
    decreases n,
{
    if n > 0 {
        assert(s[0] != c);
        assert forall|i: int| 0 <= i < n - 1 implies s.skip(1)[i] != c by {
            assert(s.skip(1)[i] == s[i + 1]);
        }
        lemma_position_at(s.skip(1), c, n - 1);
    }
}

/// Whether a text has no line end.
pub open spec fn one_line(s: Seq<char>) -> bool {
    forall|i: int| 0 <= i < s.len() ==> #[trigger] s[i] != '\n'
}

/// No line of a text has a line end.
pub proof fn lemma_lines_whole(s: Seq<char>)
    ensures
        forall|i: int| 0 <= i < lines_of(s).len() ==> one_line(#[trigger] lines_of(s)[i]),
    decreases s.len(),
{
    if s.len() > 0 {
        let n = position(s, '\n') as int;
        lemma_position(s, '\n');
        if n < s.len() {
            lemma_lines_whole(s.skip(n + 1));
            let rest = lines_of(s.skip(n + 1));
            assert forall|i: int| 0 <= i < lines_of(s).len() implies one_line(
                #[trigger] lines_of(s)[i],
            ) by {
                if i > 0 {
                    assert(lines_of(s)[i] == rest[i - 1]);
                }
            }
        }
    }
}

/// A character that a text does not have is in none of its lines.
pub proof fn lemma_lines_without(s: Seq<char>, c: char)
    requires
        !s.contains(c),
    ensures
        forall|i: int| 0 <= i < lines_of(s).len() ==> !(#[trigger] lines_of(s)[i]).contains(c),
    decreases s.len(),
{
    if s.len() > 0 {
        let n = position(s, '\n') as int;
        lemma_position(s, '\n');
        if n < s.len() {
            let rest = s.skip(n + 1);
            assert(!rest.contains(c)) by {
                if rest.contains(c) {
                    let i = choose|i: int| 0 <= i < rest.len() && rest[i] == c;
                    assert(s[i + n + 1] == c);
                }
            }
            lemma_lines_without(rest, c);
            let first = without_cr(s.take(n));
            assert(!first.contains(c)) by {
                if first.contains(c) {
                    let i = choose|i: int| 0 <= i < first.len() && first[i] == c;
                    assert(s[i] == c);
                }
            }
            assert forall|i: int| 0 <= i < lines_of(s).len() implies !(#[trigger] lines_of(
                s,
            )[i]).contains(c) by {
                if i > 0 {
                    assert(lines_of(s)[i] == lines_of(rest)[i - 1]);
                }
            }
        }
    }
}

/// The lines with their ends begin with the first line.
pub proof fn lemma_ended_first(lines: Seq<Seq<char>>)
    requires
        lines.len() > 0,
    ensures
        ended_lines(lines) == lines[0].push('\n') + ended_lines(lines.skip(1)),
    decreases lines.len(),
{
    let rest = lines.skip(1);
    if lines.len() == 1 {
        assert(lines.drop_last() =~= seq![]);
        assert(rest =~= seq![]);
        assert(ended_lines(lines) =~= lines[0].push('\n') + ended_lines(rest));
    } else {
        lemma_ended_first(lines.drop_last());
        assert(lines.drop_last().skip(1) =~= rest.drop_last());
        assert(rest.last() == lines.last());
        assert(ended_lines(lines) =~= lines[0].push('\n') + (ended_lines(rest.drop_last())
            + lines.last().push('\n')));
    }
}

/// The lines of a text that ends in a line end, with their ends, are the text, if none of them
/// ends in a carriage return; none of them then has one at its end.
pub proof fn lemma_ended_rejoined(s: Seq<char>)
    requires
        s.len() == 0 || s.last() == '\n',
        !holds(s, "\r\n"@),
    ensures
        ended_lines(lines_of(s)) == s,
        forall|i: int|
            0 <= i < lines_of(s).len() ==> without_cr(#[trigger] lines_of(s)[i]) == lines_of(s)[i],
    decreases s.len(),
{
    let lines = lines_of(s);
    let end = "\r\n"@;
    reveal_strlit("\r\n");
    if s.len() == 0 {
        assert(ended_lines(lines) =~= s);
    } else {
        let n = position(s, '\n') as int;
        lemma_position(s, '\n');
        assert(n < s.len());
        let first = s.take(n);
        let rest = s.skip(n + 1);
        lemma_occurrence_from(s, end, 0);
        lemma_occurrence_from(rest, end, 0);
        if n > 0 && s[n - 1] == '\r' {
            assert(s.subrange(n - 1, n + 1) =~= end);
            assert(occurs_at(s, end, n - 1));
        }
        if holds(rest, end) {
            let i = choose|i: int| occurs_at(rest, end, i);
            assert(s.subrange(i + n + 1, i + n + 3) =~= rest.subrange(i, i + 2));
            assert(occurs_at(s, end, i + n + 1));
        }
        if rest.len() > 0 {
            assert(rest.last() == s.last());
        }
        lemma_ended_rejoined(rest);
        lemma_ended_first(lines);
        assert(lines[0] == first);
        assert(lines.skip(1) =~= lines_of(rest));
        assert(first.push('\n') + rest =~= s);
        assert forall|i: int| 0 <= i < lines.len() implies without_cr(#[trigger] lines[i])
            == lines[i] by {
            if i > 0 {
                assert(lines[i] == lines_of(rest)[i - 1]);
            }
        }
    }
}

/// A line end at the end of a text changes none of its lines, unless it comes behind a line end
/// or a carriage return.
pub proof fn lemma_end_added(s: Seq<char>)
    requires
        s.len() > 0,
        s.last() != '\n',
        s.last() != '\r',
    ensures
        lines_of(s.push('\n')) == lines_of(s),
    decreases s.len(),
{
    let ended = s.push('\n');
    let n = position(s, '\n') as int;
    lemma_position(s, '\n');
    assert forall|i: int| 0 <= i < n implies ended[i] != '\n' by {
        assert(ended[i] == s[i]);
    }
    lemma_position_at(ended, '\n', n);
    if n < s.len() {
        let rest = s.skip(n + 1);
        assert(s[n] == '\n');
        assert(rest.len() > 0);
        assert(rest.last() == s.last());
        lemma_end_added(rest);
        assert(ended.skip(n + 1) =~= rest.push('\n'));
        assert(ended.take(n) =~= s.take(n));
    } else {
        assert(ended.take(n) =~= s);
        assert(ended.skip(n + 1) =~= seq![]);
        assert(lines_of(ended.skip(n + 1)) =~= seq![]);
        assert(lines_of(ended) =~= seq![s]);
    }
}

/// Two lists of lines with their ends, one behind the other.
pub proof fn lemma_ended_sum(a: Seq<Seq<char>>, b: Seq<Seq<char>>)
    ensures
        ended_lines(a + b) == ended_lines(a) + ended_lines(b),
    decreases b.len(),
{
    if b.len() == 0 {
        assert(a + b =~= a);
        assert(ended_lines(a) + ended_lines(b) =~= ended_lines(a));
    } else {
        lemma_ended_sum(a, b.drop_last());
        assert((a + b).drop_last() =~= a + b.drop_last());
        assert((a + b).last() == b.last());
        assert(ended_lines(a + b) =~= ended_lines(a) + (ended_lines(b.drop_last())
            + b.last().push('\n')));
    }
}

/// Lines put together with their ends come apart again, without carriage returns before the
/// ends.
pub proof fn lemma_lines_of_ended(lines: Seq<Seq<char>>)
    requires
        forall|i: int| 0 <= i < lines.len() ==> one_line(#[trigger] lines[i]),
    ensures
        lines_of(ended_lines(lines)) == lines.map_values(|l: Seq<char>| without_cr(l)),
    decreases lines.len(),
{
    let stripped = |l: Seq<char>| without_cr(l);
    let s = ended_lines(lines);
    if lines.len() == 0 {
        assert(lines_of(s) =~= lines.map_values(stripped));
    } else {
        lemma_ended_first(lines);
        let rest = lines.skip(1);
        assert forall|i: int| 0 <= i < rest.len() implies one_line(#[trigger] rest[i]) by {
            assert(rest[i] == lines[i + 1]);
        }
        lemma_lines_of_ended(rest);
        let n = lines[0].len() as int;
        assert(one_line(lines[0]));
        assert(s[n] == '\n');
        assert forall|i: int| 0 <= i < n implies s[i] != '\n' by {
            assert(s[i] == lines[0][i]);
        }
        lemma_position_at(s, '\n', n);
        assert(s.take(n) =~= lines[0]);
        assert(s.skip(n + 1) =~= ended_lines(rest));
        assert(lines.map_values(stripped) =~= seq![without_cr(lines[0])] + rest.map_values(
            stripped,
        ));
    }
}

/// Lines put together with their ends but the last come apart again, without carriage returns
/// before the ends, if the last line is not empty.
pub proof fn lemma_lines_of_unended(lines: Seq<Seq<char>>)
    requires
        forall|i: int| 0 <= i < lines.len() ==> one_line(#[trigger] lines[i]),
        lines.len() > 0,
        lines.last().len() > 0,
    ensures
        lines_of(ended_lines(lines).drop_last()) == lines.drop_last().map_values(
            |l: Seq<char>| without_cr(l),
        ).push(lines.last()),
    decreases lines.len(),
{
    let stripped = |l: Seq<char>| without_cr(l);
    let s = ended_lines(lines).drop_last();
    lemma_ended_first(lines);
    let n = lines[0].len() as int;
    assert(one_line(lines[0]));
    if lines.len() == 1 {
        assert(lines.skip(1) =~= seq![]);
        assert(s =~= lines[0]);
        lemma_position(s, '\n');
        if position(s, '\n') < s.len() {
            assert(s[position(s, '\n') as int] == '\n');
        }
        assert(lines.drop_last().map_values(stripped) =~= seq![]);
        assert(lines_of(s) =~= seq![s]);
    } else {
        let rest = lines.skip(1);
        assert forall|i: int| 0 <= i < rest.len() implies one_line(#[trigger] rest[i]) by {
            assert(rest[i] == lines[i + 1]);
        }
        assert(rest.last() == lines.last());
        lemma_lines_of_unended(rest);
        assert(ended_lines(rest).len() > 0);
        assert(s[n] == '\n');
        assert forall|i: int| 0 <= i < n implies s[i] != '\n' by {
            assert(s[i] == lines[0][i]);
        }
        lemma_position_at(s, '\n', n);
        assert(s.take(n) =~= lines[0]);
        assert(s.skip(n + 1) =~= ended_lines(rest).drop_last());
        assert(lines.drop_last().map_values(stripped).push(lines.last()) =~= seq![
            without_cr(lines[0]),
        ] + rest.drop_last().map_values(stripped).push(rest.last()));
    }
}

/// Lines joined are the lines with their ends but the last.
pub proof fn lemma_joined_is_ended(lines: Seq<Seq<char>>)
    requires
        lines.len() > 0,
    ensures
        joined_lines(lines).push('\n') == ended_lines(lines),
    decreases lines.len(),
{
    if lines.len() == 1 {
        assert(lines.drop_last() =~= seq![]);
        assert(ended_lines(lines.drop_last()) =~= seq![]);
        assert(lines.last() == lines[0]);
        assert(joined_lines(lines) == lines[0]);
        assert(ended_lines(lines) =~= lines[0].push('\n'));
    } else {
        lemma_joined_is_ended(lines.drop_last());
        assert(joined_lines(lines).push('\n') =~= joined_lines(lines.drop_last()).push('\n')
            + lines.last().push('\n'));
    }
}

/// A text that does not end in a line end has a last line that is not empty.
pub proof fn lemma_last_line(s: Seq<char>)
    requires
        s.len() > 0,
        s.last() != '\n',
    ensures
        lines_of(s).len() > 0,
        lines_of(s).last().len() > 0,
    decreases s.len(),
{
    let n = position(s, '\n') as int;
    lemma_position(s, '\n');
    if n < s.len() {
        let rest = s.skip(n + 1);
        assert(s[n] == '\n');
        assert(n + 1 < s.len());
        assert(rest.last() == s.last());
        lemma_last_line(rest);
        assert(lines_of(s).last() == lines_of(rest).last());
    }
}

/// The lines of a text without carriage returns, with their ends, are the text.
pub proof fn lemma_lines_rejoined(s: Seq<char>)
    requires
        !s.contains('\r'),
    ensures
        ended_as(ended_lines(lines_of(s)), s) == s,
        s.len() > 0 && s.last() != '\n' ==> ended_lines(lines_of(s)) == s.push('\n'),
        s.len() == 0 || s.last() == '\n' ==> ended_lines(lines_of(s)) == s,
    decreases s.len(),
{
    let lines = lines_of(s);
    if s.len() == 0 {
        assert(ended_lines(lines) =~= s);
    } else {
        let n = position(s, '\n') as int;
        lemma_position(s, '\n');
        lemma_ended_first(lines);
        if n >= s.len() {
            assert(lines.skip(1) =~= seq![]);
            assert(ended_lines(lines) =~= s.push('\n'));
        } else {
            let rest = s.skip(n + 1);
            assert(!rest.contains('\r')) by {
                if rest.contains('\r') {
                    let i = choose|i: int| 0 <= i < rest.len() && rest[i] == '\r';
                    assert(s[i + n + 1] == '\r');
                }
            }
            lemma_lines_rejoined(rest);
            let first = s.take(n);
            assert(without_cr(first) == first) by {
                if first.len() > 0 {
                    assert(s.contains(s[n - 1]));
                }
            }
            assert(lines.skip(1) =~= lines_of(rest));
            assert(first.push('\n') + rest =~= s);
            if rest.len() > 0 {
                assert(rest.last() == s.last());
                assert(first.push('\n') + rest.push('\n') =~= s.push('\n'));
            } else {
                assert(s.last() == s[n]);
            }
        }
    }
    if s.len() > 0 && s.last() != '\n' {
        assert(s.push('\n').drop_last() =~= s);
    }
}

// ---------------------------------------------------------------- words

/// How many characters stand before the first white space.
pub open spec fn word_length(s: Seq<char>) -> nat
    decreases s.len(),
{
    if s.len() == 0 || white_space(s[0]) {
        0
    } else {
        1 + word_length(s.skip(1))
    }
}

proof fn lemma_word_length(s: Seq<char>)
    ensures
        word_length(s) <= s.len(),
        s.len() > 0 && !white_space(s[0]) ==> word_length(s) > 0,
    decreases s.len(),
{
    if s.len() > 0 && !white_space(s[0]) {
        lemma_word_length(s.skip(1));
    }
}

/// The words of a text: what stands between white space.
pub open spec fn words(s: Seq<char>) -> Seq<Seq<char>>
    decreases s.len(),
    via words_decreases
{
    if s.len() == 0 {
        seq![]
    } else if white_space(s[0]) {
        words(s.skip(1))
    } else {
        let n = word_length(s) as int;
        seq![s.take(n)] + words(s.skip(n))
    }
}

#[via_fn]
proof fn words_decreases(s: Seq<char>) {
    lemma_word_length(s);
}

/// The words of a text.
pub fn split_words(s: &Vec<char>) -> (r: Vec<Vec<char>>)
    ensures
        views(r@) == words(s@),
{
    broadcast use lemma_views_push;

    let mut r: Vec<Vec<char>> = Vec::new();
    let mut i: usize = 0;
    assert(s@.skip(0) =~= s@);
    assert(views(r@) + words(s@) =~= words(s@));
    while i < s.len()
        invariant
            i <= s@.len(),
            views(r@) + words(s@.skip(i as int)) == words(s@),
        decreases s@.len() - i,
    {
        let ghost rest = s@.skip(i as int);
        assert(rest[0] == s@[i as int]);
        if is_whitespace(s[i]) {
            i += 1;
            assert(rest.skip(1) =~= s@.skip(i as int));
        } else {
            let start: usize = i;
            let ghost before = views(r@);
            proof {
                lemma_word_length(rest);
            }
            while i < s.len() && !is_whitespace(s[i])
                invariant
                    start <= i <= s@.len(),
                    rest == s@.skip(start as int),
                    word_length(rest) == i - start + word_length(s@.skip(i as int)),
                decreases s@.len() - i,
            {
                assert(s@.skip(i as int)[0] == s@[i as int]);
                assert(s@.skip(i as int).skip(1) =~= s@.skip(i + 1));
                i += 1;
            }
            proof {
                if i < s@.len() {
                    assert(s@.skip(i as int)[0] == s@[i as int]);
                }
            }
            assert(word_length(rest) == i - start);
            let word = cut(s, start, i);
            assert(word@ =~= rest.take(i - start));
            r.push(word);
            assert(rest.skip(i - start) =~= s@.skip(i as int));
            assert(views(r@) + words(s@.skip(i as int)) =~= before + (seq![rest.take(i - start)]
                + words(rest.skip(i - start))));
        }
    }
    assert(views(r@) + words(s@.skip(i as int)) =~= views(r@));
    r
}

// ---------------------------------------------------------------- laws

/// A text holds another exactly where it is that text with something before and behind it.
pub proof fn law_holds(s: Seq<char>, p: Seq<char>)
    ensures
        holds(s, p) <==> within(s, p),
{
    lemma_occurrence_from(s, p, 0);
    if holds(s, p) {
        let i = occurrence_from(s, p, 0)->0;
        assert(s =~= s.take(i) + p + s.skip(i + p.len()));
    }
    if within(s, p) {
        let (a, b) = choose|a: Seq<char>, b: Seq<char>| s == #[trigger] (a + p + b);
        assert(s.subrange(a.len() as int, (a.len() + p.len()) as int) =~= p);
        assert(occurs_at(s, p, a.len() as int));
    }
}

/// Whether a text is another one with something before and behind it.
pub open spec fn within(s: Seq<char>, p: Seq<char>) -> bool {
    exists|a: Seq<char>, b: Seq<char>| s == #[trigger] (a + p + b)
}

/// Trimming the start takes away the blanks that a text begins with, and nothing else.
pub proof fn law_trimmed_start(a: Seq<char>, s: Seq<char>)
    requires
        blank(a),
        s.len() > 0 ==> !white_space(s[0]),
    ensures
        trimmed_start(a + s) == s,
    decreases a.len(),
{
    if a.len() == 0 {
        assert(a + s =~= s);
    } else {
        assert((a + s).skip(1) =~= a.skip(1) + s);
        assert(blank(a.skip(1))) by {
            assert forall|i: int| 0 <= i < a.skip(1).len() implies white_space(
                #[trigger] a.skip(1)[i],
            ) by {
                assert(a.skip(1)[i] == a[i + 1]);
            }
        }
        law_trimmed_start(a.skip(1), s);
    }
}

/// Trimming the end takes away the blanks that a text ends with, and nothing else.
pub proof fn law_trimmed_end(s: Seq<char>, b: Seq<char>)
    requires
        blank(b),
        s.len() > 0 ==> !white_space(s.last()),
    ensures
        trimmed_end(s + b) == s,
    decreases b.len(),
{
    if b.len() == 0 {
        assert(s + b =~= s);
    } else {
        assert((s + b).drop_last() =~= s + b.drop_last());
        assert((s + b).last() == b.last());
        law_trimmed_end(s, b.drop_last());
    }
}

/// Trimming takes away the blanks around a text, and nothing else.
pub proof fn law_trimmed(a: Seq<char>, s: Seq<char>, b: Seq<char>)
    requires
        blank(a),
        blank(b),
        s.len() > 0 ==> !white_space(s[0]) && !white_space(s.last()),
    ensures
        trimmed(a + s + b) == s,
{
    if s.len() == 0 {
        assert forall|i: int| 0 <= i < (a + s + b).len() implies white_space(
            #[trigger] (a + s + b)[i],
        ) by {
            if i >= a.len() {
                assert((a + s + b)[i] == b[i - a.len()]);
            }
        }
        lemma_blank_trimmed(a + s + b);
        assert(trimmed(a + s + b) =~= s);
    } else {
        assert(a + s + b =~= a + (s + b));
        law_trimmed_start(a, s + b);
        law_trimmed_end(s, b);
    }
}

/// What is left of a text without the blanks at its start: blanks come before it, and it does not
/// begin with one.
pub proof fn law_start_left(s: Seq<char>) -> (a: Seq<char>)
    ensures
        blank(a),
        s == a + trimmed_start(s),
        trimmed_start(s).len() > 0 ==> !white_space(trimmed_start(s)[0]),
    decreases s.len(),
{
    if s.len() > 0 && white_space(s[0]) {
        let b = law_start_left(s.skip(1));
        let a = seq![s[0]] + b;
        assert(s =~= seq![s[0]] + s.skip(1));
        assert(seq![s[0]] + (b + trimmed_start(s)) =~= a + trimmed_start(s));
        a
    } else {
        assert(s =~= Seq::<char>::empty() + s);
        Seq::empty()
    }
}

/// The lines of a text end at its line ends; a carriage return before one belongs to it.
pub proof fn law_lines(line: Seq<char>, rest: Seq<char>)
    requires
        one_line(line),
        line.len() > 0 ==> line.last() != '\r',
    ensures
        lines_of(line.push('\n') + rest) == seq![line] + lines_of(rest),
        lines_of(line.push('\r').push('\n') + rest) == seq![line] + lines_of(rest),
        line.len() > 0 ==> lines_of(line) == seq![line],
        lines_of(seq![]) == Seq::<Seq<char>>::empty(),
{
    let s = line.push('\n') + rest;
    let n = line.len() as int;
    lemma_position_at(s, '\n', n);
    assert(s.take(n) =~= line);
    assert(s.skip(n + 1) =~= rest);
    let t = line.push('\r').push('\n') + rest;
    lemma_position_at(t, '\n', n + 1);
    assert(t.take(n + 1) =~= line.push('\r'));
    assert(line.push('\r').drop_last() =~= line);
    assert(t.skip(n + 2) =~= rest);
    if n > 0 {
        lemma_position(line, '\n');
    }
}

/// White space between two texts separates their words.
pub proof fn law_words_apart(a: Seq<char>, c: char, b: Seq<char>)
    requires
        white_space(c),
    ensures
        words(a + seq![c] + b) == words(a) + words(b),
    decreases a.len(),
{
    let s = a + seq![c] + b;
    if a.len() == 0 {
        assert(s.skip(1) =~= b);
        assert(words(a) + words(b) =~= words(b));
    } else if white_space(a[0]) {
        assert(s.skip(1) =~= a.skip(1) + seq![c] + b);
        law_words_apart(a.skip(1), c, b);
    } else {
        lemma_word_length(a);
        lemma_word_stops(a, c, b);
        let n = word_length(a) as int;
        assert(s.take(n) =~= a.take(n));
        assert(s.skip(n) =~= a.skip(n) + seq![c] + b);
        law_words_apart(a.skip(n), c, b);
        assert(seq![a.take(n)] + (words(a.skip(n)) + words(b)) =~= seq![a.take(n)] + words(a.skip(n))
            + words(b));
    }
}

proof fn lemma_word_stops(a: Seq<char>, c: char, b: Seq<char>)
    requires
        white_space(c),
    ensures
        word_length(a + seq![c] + b) == word_length(a),
    decreases a.len(),
{
    let s = a + seq![c] + b;
    if a.len() > 0 && !white_space(a[0]) {
        assert(s.skip(1) =~= a.skip(1) + seq![c] + b);
        lemma_word_stops(a.skip(1), c, b);
    }
}

/// A blank text has no words.
pub proof fn law_blanks_have_no_words(s: Seq<char>)
    requires
        blank(s),
    ensures
        words(s).len() == 0,
    decreases s.len(),
{
    if s.len() > 0 {
        assert(white_space(s[0]));
        assert forall|i: int| 0 <= i < s.skip(1).len() implies white_space(#[trigger] s.skip(1)[i]) by {
            assert(s.skip(1)[i] == s[i + 1]);
        }
        law_blanks_have_no_words(s.skip(1));
    }
}

/// Trimming a text keeps its words.
pub proof fn law_trimming_keeps_words(s: Seq<char>)
    ensures
        words(trimmed(s)) == words(s),
        words(trimmed_start(s)) == words(s),
        words(trimmed_end(s)) == words(s),
    decreases s.len(),
{
    lemma_start_keeps_words(s);
    lemma_end_keeps_words(s);
    lemma_end_keeps_words(trimmed_start(s));
}

proof fn lemma_start_keeps_words(s: Seq<char>)
    ensures
        words(trimmed_start(s)) == words(s),
    decreases s.len(),
{
    if s.len() > 0 && white_space(s[0]) {
        lemma_start_keeps_words(s.skip(1));
    }
}

proof fn lemma_end_keeps_words(s: Seq<char>)
    ensures
        words(trimmed_end(s)) == words(s),
    decreases s.len(),
{
    if s.len() > 0 && white_space(s.last()) {
        lemma_end_keeps_words(s.drop_last());
        assert(s =~= s.drop_last() + seq![s.last()] + Seq::<char>::empty());
        law_words_apart(s.drop_last(), s.last(), Seq::empty());
        assert(words(s.drop_last()) + words(Seq::<char>::empty()) =~= words(s.drop_last()));
    }
}

/// Replacing a character leaves what has none of them, and replaces each by itself.
pub proof fn law_replaced(a: Seq<char>, b: Seq<char>, c: char, with: Seq<char>)
    ensures
        replaced(a + b, c, with) == replaced(a, c, with) + replaced(b, c, with),
        replaced(seq![c], c, with) == with,
        !a.contains(c) ==> replaced(a, c, with) == a,
    decreases a.len() + b.len(),
{
    if b.len() == 0 {
        assert(a + b =~= a);
        assert(replaced(a, c, with) + replaced(b, c, with) =~= replaced(a, c, with));
    } else {
        assert((a + b).drop_last() =~= a + b.drop_last());
        law_replaced(a, b.drop_last(), c, with);
        let last = if b.last() == c {
            with
        } else {
            seq![b.last()]
        };
        assert(replaced(a, c, with) + replaced(b.drop_last(), c, with) + last =~= replaced(
            a,
            c,
            with,
        ) + (replaced(b.drop_last(), c, with) + last));
    }
    let one = seq![c];
    assert(one.drop_last() =~= seq![]);
    assert(replaced(one.drop_last(), c, with) =~= seq![]);
    assert(replaced(one, c, with) =~= with);
    if !a.contains(c) {
        lemma_nothing_replaced(a, c, with);
    }
}

proof fn lemma_nothing_replaced(a: Seq<char>, c: char, with: Seq<char>)
    requires
        !a.contains(c),
    ensures
        replaced(a, c, with) == a,
    decreases a.len(),
{
    if a.len() > 0 {
        assert(a.contains(a[a.len() - 1]));
        assert(!a.drop_last().contains(c)) by {
            if a.drop_last().contains(c) {
                let i = choose|i: int| 0 <= i < a.drop_last().len() && a.drop_last()[i] == c;
                assert(a[i] == c);
            }
        }
        lemma_nothing_replaced(a.drop_last(), c, with);
        assert(a.drop_last() + seq![a.last()] =~= a);
    }
}

/// A key is in a table where one of its entries is the same but for the case of its letters.
pub proof fn law_listed(table: Seq<&'static str>, key: Seq<char>, i: int)
    ensures
        0 <= i < table.len() && table[i]@ == key ==> listed(table, key),
        (forall|j: int|
            0 <= j < table.len() ==> ascii_lowered((#[trigger] table[j])@) != ascii_lowered(key))
            ==> !listed(table, key),
        listed(table, ascii_lowered(key)) == listed(table, key),
{
    assert forall|c: char| #[trigger] ascii_lower(ascii_lower(c)) == ascii_lower(c) by {}
    assert(ascii_lowered(ascii_lowered(key)) =~= ascii_lowered(key));
}

/// A key is found in a table where it stands first, from a place on; it is not found where it does
/// not stand.
pub proof fn law_tables(table: Seq<&'static str>, key: Seq<char>, from: int)
    requires
        0 <= from,
    ensures
        table_index(table, key, from) matches Some(i) ==> {
            &&& from <= i < table.len()
            &&& table[i]@ == key
            &&& forall|j: int| from <= j < i ==> (#[trigger] table[j])@ != key
        },
        table_index(table, key, from) is None ==> forall|j: int|
            from <= j < table.len() ==> (#[trigger] table[j])@ != key,
    decreases table.len() - from,
{
    if from < table.len() && table[from]@ != key {
        law_tables(table, key, from + 1);
    }
}

} // verus!
