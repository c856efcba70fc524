//! Headings of a markdown document, and where they stand in its rendering.

use vstd::prelude::*;

use crate::ansi::{lemma_rows_fit, plain, rows_of, split_rows, strip_chars};
use crate::text::{
    blank, chars_of, cut, find, holds, law_holds, law_start_left, law_trimmed, law_trimmed_start,
    leading_run, lemma_run_length, lemma_views_push, lines_of, repeated, run_length, split_lines,
    string_of, trim, trim_start, trimmed, trimmed_start, views, white_space, within,
};

verus! {

/// A heading extracted from the markdown source.
#[derive(Debug, Clone)]
pub struct Heading {
    /// The heading's text (without the `#` prefix).
    pub text: String,
    /// Heading level (1 to 6).
    pub level: u8,
    /// 1-indexed line number in the original markdown.
    pub line: usize,
}

/// What a [`Heading`] stands for.
pub struct HeadingView {
    pub text: Seq<char>,
    pub level: int,
    pub line: int,
}

impl View for Heading {
    type V = HeadingView;

    open spec fn view(&self) -> HeadingView {
        HeadingView { text: self.text@, level: self.level as int, line: self.line as int }
    }
}

/// What a list of headings stands for.
pub open spec fn heading_views(headings: Seq<Heading>) -> Seq<HeadingView> {
    headings.map_values(|h: Heading| h@)
}

/// The text and level of the ATX heading on a line: after white space, at least one `#`,
/// then a space, then some text. More than six `#` count as six.
pub open spec fn heading_on(line: Seq<char>) -> Option<(Seq<char>, int)> {
    let start = trimmed_start(line);
    let hashes = run_length(start, '#') as int;
    let rest = start.skip(hashes);
    if hashes >= 1 && rest.len() > 0 && rest[0] == ' ' && trimmed(rest).len() > 0 {
        Some(
            (
                trimmed(rest),
                if hashes > 6 {
                    6
                } else {
                    hashes
                },
            ),
        )
    } else {
        None
    }
}

/// The headings among the lines of a document, in order, with their 1-indexed line numbers.
pub open spec fn headings_among(lines: Seq<Seq<char>>) -> Seq<HeadingView>
    decreases lines.len(),
{
    if lines.len() == 0 {
        seq![]
    } else {
        let before = headings_among(lines.drop_last());
        match heading_on(lines.last()) {
            Some((text, level)) => before.push(
                HeadingView { text, level, line: lines.len() as int },
            ),
            None => before,
        }
    }
}

/// Extract all headings from markdown source (ATX-style only: `# ...`).
pub fn extract_headings(markdown: &str) -> (headings: Vec<Heading>)
    ensures
        heading_views(headings@) == headings_among(lines_of(markdown@)),
{
    let chars = chars_of(markdown);
    let lines = split_lines(&chars);
    let ghost all = views(lines@);
    let mut headings: Vec<Heading> = Vec::new();
    let mut i: usize = 0;
    assert(all.take(0) =~= Seq::<Seq<char>>::empty());
    assert(heading_views(headings@) =~= headings_among(all.take(0)));
    while i < lines.len()
        invariant
            i <= lines@.len(),
            all == views(lines@),
            heading_views(headings@) == headings_among(all.take(i as int)),
        decreases lines@.len() - i,
    {
        assert(all.take(i + 1).drop_last() =~= all.take(i as int));
        assert(all.take(i + 1).last() == lines@[i as int]@);
        let start = trim_start(&lines[i]);
        let hashes: usize = leading_run(&start, '#');
        let rest = cut(&start, hashes, start.len());
        assert(rest@ =~= start@.skip(hashes as int));
        if hashes >= 1 && rest.len() > 0 && rest[0] == ' ' {
            let text = trim(&rest);
            if text.len() > 0 {
                let level: u8 = if hashes > 6 {
                    6
                } else {
                    hashes as u8
                };
                let ghost before = headings@;
                let heading = Heading { text: string_of(&text), level, line: i + 1 };
                headings.push(heading);
                assert(heading_views(headings@) =~= heading_views(before).push(heading@));
            }
        }
        i += 1;
    }
    assert(all.take(i as int) =~= all);
    headings
}

/// Every heading has a level from 1 to 6 and some text, and the headings come in the order
/// of their lines, no two on the same line.
pub proof fn law_headings_in_order(lines: Seq<Seq<char>>)
    ensures
        forall|i: int|
            0 <= i < headings_among(lines).len() ==> {
                let h = #[trigger] headings_among(lines)[i];
                1 <= h.level <= 6 && h.text.len() > 0 && 1 <= h.line <= lines.len()
            },
        forall|i: int, j: int|
            0 <= i < j < headings_among(lines).len() ==> headings_among(lines)[i].line
                < headings_among(lines)[j].line,
    decreases lines.len(),
{
    if lines.len() > 0 {
        let before = headings_among(lines.drop_last());
        law_headings_in_order(lines.drop_last());
        if heading_on(lines.last()) is Some {
            let all = headings_among(lines);
            assert(all.drop_last() =~= before);
            assert forall|i: int| 0 <= i < all.len() - 1 implies all[i] == before[i] by {}
        }
    }
}

// ---------------------------------------------------------------- places in the rendering

/// The first of `rows`, at or after `from`, that holds `text`; the number of rows if none does.
pub open spec fn row_holding(rows: Seq<Seq<char>>, text: Seq<char>, from: int) -> int
    decreases rows.len() - from,
{
    if from >= rows.len() {
        rows.len() as int
    } else if holds(rows[from], text) {
        from
    } else {
        row_holding(rows, text, from + 1)
    }
}

/// Where the search for the next heading begins once `headings` have been placed: behind the
/// row of the last one that was found.
pub open spec fn search_start(headings: Seq<HeadingView>, rows: Seq<Seq<char>>) -> int
    decreases headings.len(),
{
    if headings.len() == 0 {
        0
    } else {
        let from = search_start(headings.drop_last(), rows);
        let row = row_holding(rows, headings.last().text, from);
        if row < rows.len() {
            row + 1
        } else {
            from
        }
    }
}

/// Each heading with its line replaced by the 1-indexed row of the rendering that shows it:
/// the first row at or behind the place reached by the headings before it that holds its text,
/// or that place itself where no row does.
pub open spec fn placed_headings(headings: Seq<HeadingView>, rows: Seq<Seq<char>>) -> Seq<
    HeadingView,
>
    decreases headings.len(),
{
    if headings.len() == 0 {
        seq![]
    } else {
        let h = headings.last();
        let from = search_start(headings.drop_last(), rows);
        let row = row_holding(rows, h.text, from);
        placed_headings(headings.drop_last(), rows).push(
            HeadingView {
                text: h.text,
                level: h.level,
                line: if row < rows.len() {
                    row + 1
                } else {
                    from + 1
                },
            },
        )
    }
}

proof fn lemma_row_holding(rows: Seq<Seq<char>>, text: Seq<char>, from: int)
    requires
        0 <= from <= rows.len(),
    ensures
        from <= row_holding(rows, text, from) <= rows.len(),
        row_holding(rows, text, from) < rows.len() ==> holds(
            rows[row_holding(rows, text, from)],
            text,
        ),
        forall|r: int|
            from <= r < row_holding(rows, text, from) ==> !holds(#[trigger] rows[r], text),
    decreases rows.len() - from,
{
    if from < rows.len() && !holds(rows[from], text) {
        lemma_row_holding(rows, text, from + 1);
    }
}

proof fn lemma_search_start(headings: Seq<HeadingView>, rows: Seq<Seq<char>>)
    ensures
        0 <= search_start(headings, rows) <= rows.len(),
    decreases headings.len(),
{
    if headings.len() > 0 {
        lemma_search_start(headings.drop_last(), rows);
        lemma_row_holding(
            rows,
            headings.last().text,
            search_start(headings.drop_last(), rows),
        );
    }
}

/// Map each heading to a 1-indexed row of the rendered text, by looking for its text in the
/// rows' visible characters. Headings are looked for in order, each behind the one before it,
/// so headings of the same name get rows of their own.
pub fn map_headings_to_vt_rows(headings: &Vec<Heading>, ansi_text: &str) -> (mapped: Vec<Heading>)
    ensures
        heading_views(mapped@) == placed_headings(
            heading_views(headings@),
            rows_of(ansi_text@).map_values(|row: Seq<char>| plain(row)),
        ),
{
    broadcast use lemma_views_push;

    let chars = chars_of(ansi_text);
    proof {
        lemma_rows_fit(ansi_text@);
        assert(chars@.len() == chars.len());
    }
    let raw = split_rows(&chars);
    let ghost visible = rows_of(ansi_text@).map_values(|row: Seq<char>| plain(row));
    let mut rows: Vec<Vec<char>> = Vec::new();
    let mut i: usize = 0;
    while i < raw.len()
        invariant
            i <= raw@.len(),
            visible == views(raw@).map_values(|row: Seq<char>| plain(row)),
            views(rows@) == visible.take(i as int),
        decreases raw@.len() - i,
    {
        rows.push(strip_chars(&raw[i]));
        i += 1;
        assert(visible.take(i as int) =~= visible.take(i - 1).push(visible[i - 1]));
    }
    assert(visible.take(i as int) =~= visible);

    let ghost all = heading_views(headings@);
    let mut mapped: Vec<Heading> = Vec::new();
    let mut from: usize = 0;
    let mut k: usize = 0;
    assert(all.take(0) =~= Seq::<HeadingView>::empty());
    assert(heading_views(mapped@) =~= placed_headings(all.take(0), visible));
    while k < headings.len()
        invariant
            k <= headings@.len(),
            all == heading_views(headings@),
            views(rows@) == visible,
            visible.len() < usize::MAX,
            from <= rows@.len(),
            from == search_start(all.take(k as int), visible),
            heading_views(mapped@) == placed_headings(all.take(k as int), visible),
        decreases headings@.len() - k,
    {
        let heading = &headings[k];
        let needle = chars_of(heading.text.as_str());
        let mut row: usize = from;
        proof {
            lemma_search_start(all.take(k as int), visible);
            lemma_row_holding(visible, needle@, from as int);
            assert(all.take(k + 1).drop_last() =~= all.take(k as int));
            assert(all.take(k + 1).last() == all[k as int]);
        }
        while row < rows.len() && find(&rows[row], &needle, 0).is_none()
            invariant
                from <= row <= rows@.len(),
                views(rows@) == visible,
                row_holding(visible, needle@, from as int) == row_holding(
                    visible,
                    needle@,
                    row as int,
                ),
            decreases rows@.len() - row,
        {
            assert(visible[row as int] == rows@[row as int]@);
            row += 1;
        }
        assert(row < rows@.len() ==> visible[row as int] == rows@[row as int]@);
        let line: usize = if row < rows.len() {
            row + 1
        } else {
            from + 1
        };
        if row < rows.len() {
            from = row + 1;
        }
        let ghost before = mapped@;
        let placed = Heading { text: heading.text.clone(), level: heading.level, line };
        mapped.push(placed);
        assert(heading_views(mapped@) =~= heading_views(before).push(placed@));
        k += 1;
    }
    assert(all.take(k as int) =~= all);
    mapped
}

/// Headings keep their order in the rendering: their rows never go back.
pub proof fn law_placed_headings_go_forward(headings: Seq<HeadingView>, rows: Seq<Seq<char>>)
    ensures
        placed_headings(headings, rows).len() == headings.len(),
        forall|i: int|
            0 <= i < headings.len() ==> (#[trigger] placed_headings(headings, rows)[i]).text
                == headings[i].text && placed_headings(headings, rows)[i].line >= 1,
        forall|i: int, j: int|
            0 <= i < j < headings.len() ==> placed_headings(headings, rows)[i].line
                <= placed_headings(headings, rows)[j].line,
        forall|i: int|
            0 <= i < headings.len() ==> (#[trigger] placed_headings(headings, rows)[i]).line
                <= search_start(headings, rows) + 1,
    decreases headings.len(),
{
    if headings.len() > 0 {
        let front = headings.drop_last();
        law_placed_headings_go_forward(front, rows);
        lemma_search_start(front, rows);
        let from = search_start(front, rows);
        lemma_row_holding(rows, headings.last().text, from);
        let placed = placed_headings(headings, rows);
        assert(placed.drop_last() =~= placed_headings(front, rows));
        assert forall|i: int| 0 <= i < headings.len() implies (#[trigger] placed[i]).text
            == headings[i].text && placed[i].line >= 1 && placed[i].line <= search_start(
            headings,
            rows,
        ) + 1 by {
            if i < headings.len() - 1 {
                assert(placed[i] == placed_headings(front, rows)[i]);
                assert(headings[i] == front[i]);
            }
        }
        assert forall|i: int, j: int| 0 <= i < j < headings.len() implies placed[i].line
            <= placed[j].line by {
            assert(placed[i] == placed_headings(front, rows)[i]);
            if j < headings.len() - 1 {
                assert(placed[j] == placed_headings(front, rows)[j]);
            }
        }
    }
}

/// The last heading of the leading run of headings whose rows are not behind `top`.
pub open spec fn current_heading(headings: Seq<HeadingView>, top: int) -> Option<int> {
    let n = leading_headings(headings, top);
    if n > 0 {
        Some(n - 1)
    } else {
        None
    }
}

/// How many headings, from the first on, stand at or before row `top`.
pub open spec fn leading_headings(headings: Seq<HeadingView>, top: int) -> int
    decreases headings.len(),
{
    if headings.len() > 0 && headings[0].line <= top {
        1 + leading_headings(headings.skip(1), top)
    } else {
        0
    }
}

/// Find the heading that the reader is under: the last one, in order, whose row is at or
/// before the top row of the viewport.
pub fn find_current_heading(headings: &Vec<Heading>, viewport_top_row: usize) -> (r: Option<usize>)
    ensures
        match r {
            Some(i) => i < headings@.len() && current_heading(
                heading_views(headings@),
                viewport_top_row as int,
            ) == Some(i as int),
            None => current_heading(heading_views(headings@), viewport_top_row as int) is None,
        },
{
    let ghost all = heading_views(headings@);
    let ghost top = viewport_top_row as int;
    let mut n: usize = 0;
    assert(all.skip(0) =~= all);
    while n < headings.len() && headings[n].line <= viewport_top_row
        invariant
            n <= headings@.len(),
            all == heading_views(headings@),
            top == viewport_top_row,
            leading_headings(all, top) == n + leading_headings(all.skip(n as int), top),
        decreases headings@.len() - n,
    {
        assert(all.skip(n as int).skip(1) =~= all.skip(n + 1));
        assert(all.skip(n as int)[0] == headings@[n as int]@);
        n += 1;
    }
    assert(n < headings@.len() ==> all.skip(n as int)[0] == headings@[n as int]@);
    if n > 0 {
        Some(n - 1)
    } else {
        None
    }
}

/// The heading that the reader is under stands at or above the top of the view, as all before it
/// do, and the one behind it, if there is one, stands below.
pub proof fn law_current_heading(headings: Seq<HeadingView>, top: int)
    ensures
        match current_heading(headings, top) {
            Some(i) => 0 <= i < headings.len() && (forall|j: int|
                0 <= j <= i ==> (#[trigger] headings[j]).line <= top) && (i + 1 < headings.len()
                ==> headings[i + 1].line > top),
            None => headings.len() > 0 ==> headings[0].line > top,
        },
{
    lemma_leading_headings(headings, top);
}

proof fn lemma_leading_headings(headings: Seq<HeadingView>, top: int)
    ensures
        0 <= leading_headings(headings, top) <= headings.len(),
        forall|j: int|
            0 <= j < leading_headings(headings, top) ==> (#[trigger] headings[j]).line <= top,
        leading_headings(headings, top) < headings.len() ==> headings[leading_headings(
            headings,
            top,
        )].line > top,
    decreases headings.len(),
{
    if headings.len() > 0 && headings[0].line <= top {
        lemma_leading_headings(headings.skip(1), top);
        assert forall|j: int| 0 <= j < leading_headings(headings, top) implies (
        #[trigger] headings[j]).line <= top by {
            if j > 0 {
                assert(headings[j] == headings.skip(1)[j - 1]);
            }
        }
    }
}

/// Placing headings in the rendering changes their rows alone: there are as many as before, and
/// each has its text and its level.
pub proof fn law_placing_changes_rows_alone(headings: Seq<HeadingView>, rows: Seq<Seq<char>>, i: int)
    requires
        0 <= i < headings.len(),
    ensures
        placed_headings(headings, rows).len() == headings.len(),
        placed_headings(headings, rows)[i].text == headings[i].text,
        placed_headings(headings, rows)[i].level == headings[i].level,
    decreases headings.len(),
{
    law_placed_headings_go_forward(headings, rows);
    if i < headings.len() - 1 {
        law_placing_changes_rows_alone(headings.drop_last(), rows, i);
    }
}

/// A heading is placed on the first row behind the heading before it that holds its text. One
/// whose text is on none of them has the row behind that of the last heading that was found.
pub proof fn law_headings_are_placed_where_they_are(
    headings: Seq<HeadingView>,
    rows: Seq<Seq<char>>,
    i: int,
)
    requires
        0 <= i < headings.len(),
    ensures
        ({
            let placed = placed_headings(headings, rows);
            let behind = if i == 0 {
                0
            } else {
                placed[i - 1].line
            };
            let row = placed[i].line - 1;
            &&& forall|r: int| behind <= r < row ==> !within(#[trigger] rows[r], headings[i].text)
            &&& within(rows[row], headings[i].text) && row < rows.len() || forall|r: int|
                row <= r < rows.len() ==> !within(#[trigger] rows[r], headings[i].text)
            &&& row >= 0
            &&& i > 0 && behind <= rows.len() && within(rows[behind - 1], headings[i - 1].text)
                ==> row >= behind
            &&& (row >= rows.len() || !within(rows[row], headings[i].text)) ==> row == behind || row
                == behind - 1
            &&& i == 0 && (row >= rows.len() || !within(rows[row], headings[i].text)) ==> row == 0
        }),
    decreases headings.len(),
{
    let placed = placed_headings(headings, rows);
    law_placed_headings_go_forward(headings, rows);
    if i < headings.len() - 1 {
        let front = headings.drop_last();
        law_headings_are_placed_where_they_are(front, rows, i);
        law_placed_headings_go_forward(front, rows);
        assert(placed[i] == placed_headings(front, rows)[i]);
        if i > 0 {
            assert(placed[i - 1] == placed_headings(front, rows)[i - 1]);
        }
    } else {
        let front = headings.drop_last();
        let from = search_start(front, rows);
        lemma_search_start(front, rows);
        lemma_row_holding(rows, headings[i].text, from);
        assert forall|r: int| 0 <= r < rows.len() implies holds(#[trigger] rows[r], headings[i].text)
            == within(rows[r], headings[i].text) by {
            law_holds(rows[r], headings[i].text);
        }
        assert(placed[i].line == (if row_holding(rows, headings[i].text, from) < rows.len() {
            row_holding(rows, headings[i].text, from) + 1
        } else {
            from + 1
        }));
        if i > 0 {
            let last = front.last();
            let start = search_start(front.drop_last(), rows);
            lemma_search_start(front.drop_last(), rows);
            lemma_row_holding(rows, last.text, start);
            assert(placed[i - 1] == placed_headings(front, rows)[i - 1]);
            assert(last == headings[i - 1]);
            assert forall|r: int| 0 <= r < rows.len() implies holds(#[trigger] rows[r], last.text)
                == within(rows[r], last.text) by {
                law_holds(rows[r], last.text);
            }
            assert(placed_headings(front, rows)[i - 1].line == (if row_holding(
                rows,
                last.text,
                start,
            ) < rows.len() {
                row_holding(rows, last.text, start) + 1
            } else {
                start + 1
            }));
            assert(from == placed[i - 1].line || from == placed[i - 1].line - 1);
        }
    }
}

/// Some hashes, a blank and a text make a heading, with as many levels as hashes, six at most;
/// white space around it does not count.
pub proof fn law_heading_lines(a: Seq<char>, hashes: nat, text: Seq<char>, b: Seq<char>)
    requires
        blank(a),
        blank(b),
        hashes >= 1,
        text.len() > 0,
        !white_space(text[0]),
        !white_space(text.last()),
    ensures
        heading_on(a + repeated('#', hashes) + seq![' '] + text + b) == Some(
            (
                text,
                if hashes < 6 {
                    hashes as int
                } else {
                    6
                },
            ),
        ),
{
    let line = a + repeated('#', hashes) + seq![' '] + text + b;
    let start = repeated('#', hashes) + seq![' '] + text + b;
    assert(line =~= a + start);
    law_trimmed_start(a, start);
    lemma_run_length(start, '#');
    let n = run_length(start, '#') as int;
    if n < hashes {
        assert(start[n] == '#');
    }
    if n > hashes {
        assert(start[hashes as int] == ' ');
    }
    assert(start.skip(n) =~= seq![' '] + text + b);
    law_trimmed(seq![' '], text, b);
}

/// Every heading is such a line.
pub proof fn law_headings_are_such_lines(line: Seq<char>) -> (r: (Seq<char>, nat, Seq<char>))
    ensures
        heading_on(line) matches Some((text, level)) ==> {
            &&& blank(r.0)
            &&& line == r.0 + repeated('#', r.1) + seq![' '] + r.2
            &&& trimmed(seq![' '] + r.2) == text
            &&& r.1 >= 1
            &&& level == (if r.1 < 6 {
                r.1 as int
            } else {
                6
            })
        },
{
    let a = law_start_left(line);
    let start = trimmed_start(line);
    lemma_run_length(start, '#');
    let n = run_length(start, '#');
    let rest = start.skip(n as int);
    if heading_on(line) is Some {
        assert(rest =~= seq![' '] + rest.skip(1));
        assert(line =~= a + repeated('#', n) + seq![' '] + rest.skip(1));
    }
    (a, n, rest.skip(1))
}

/// The headings of a document are those of its lines, each with the number of its line.
pub proof fn law_headings_are_those_of_the_lines(lines: Seq<Seq<char>>, h: HeadingView)
    ensures
        headings_among(lines).contains(h) <==> 1 <= h.line <= lines.len() && heading_on(
            lines[h.line - 1],
        ) == Some((h.text, h.level)),
    decreases lines.len(),
{
    if lines.len() > 0 {
        let front = lines.drop_last();
        let before = headings_among(front);
        let all = headings_among(lines);
        law_headings_are_those_of_the_lines(front, h);
        if 1 <= h.line < lines.len() {
            assert(front[h.line - 1] == lines[h.line - 1]);
        }
        if before.contains(h) {
            let i = choose|i: int| 0 <= i < before.len() && before[i] == h;
            assert(all[i] == h);
        }
        if h.line == lines.len() && heading_on(lines.last()) == Some((h.text, h.level)) {
            assert(all.last() == h);
        }
    }
}

/// A heading stands for its text, its level and its line, and a list for its headings in their
/// order.
pub proof fn law_headings_stand_for_their_fields(headings: Seq<Heading>, i: int)
    requires
        0 <= i < headings.len(),
    ensures
        heading_views(headings).len() == headings.len(),
        heading_views(headings)[i].text == headings[i].text@,
        heading_views(headings)[i].level == headings[i].level,
        heading_views(headings)[i].line == headings[i].line,
{
}

} // verus!
