//! Searching the rendered text.

use vstd::prelude::*;

use crate::ansi::{plain, rows_of, split_rows, strip_chars};
use crate::config::{next_in_ring, prev_in_ring, ring_next, ring_prev};
use crate::text::{
    ascii_lowered, chars_of, contains_text, holds, law_holds, string_of, views, within,
};

verus! {

/// Whether a character has Unicode's Uppercase property.
pub uninterp spec fn uppercase(c: char) -> bool;

/// `char::is_uppercase`: whether a character has Unicode's Uppercase property. Among the ASCII
/// characters the capital letters do.
pub assume_specification[ char::is_uppercase ](c: char) -> (r: bool)
    ensures
        r == uppercase(c),
        c < '\u{80}' ==> r == ('A' <= c <= 'Z'),
;

/// A text in small letters, as Unicode defines them.
pub uninterp spec fn lowercased(s: Seq<char>) -> Seq<char>;

/// `str::to_lowercase`: the text in small letters, as Unicode defines them. In an ASCII text
/// that changes the capital letters and nothing else.
pub assume_specification[ str::to_lowercase ](s: &str) -> (r: String)
    ensures
        r@ == lowercased(s@),
        (forall|i: int| 0 <= i < s@.len() ==> #[trigger] s@[i] < '\u{80}') ==> r@ == ascii_lowered(
            s@,
        ),
;

/// Whether a query asks for its own case: it holds a capital letter.
pub open spec fn case_sensitive(query: Seq<char>) -> bool {
    exists|i: int| 0 <= i < query.len() && uppercase(#[trigger] query[i])
}

/// Whether a text holds a query, in the same case if the query holds a capital letter, else in
/// any.
pub open spec fn smart_holds(text: Seq<char>, query: Seq<char>) -> bool {
    if case_sensitive(query) {
        holds(text, query)
    } else {
        holds(lowercased(text), lowercased(query))
    }
}

/// The 1-indexed rows, among the first `n`, that show a query.
pub open spec fn matching_rows(rows: Seq<Seq<char>>, query: Seq<char>, n: int) -> Seq<int>
    decreases n,
{
    if n <= 0 {
        seq![]
    } else {
        let before = matching_rows(rows, query, n - 1);
        if smart_holds(plain(rows[n - 1]), query) {
            before.push(n)
        } else {
            before
        }
    }
}

/// All 1-indexed rows of a rendered text that show a query; none for the empty query.
pub open spec fn all_matches(ansi_text: Seq<char>, query: Seq<char>) -> Seq<int> {
    if query.len() == 0 {
        seq![]
    } else {
        matching_rows(rows_of(ansi_text), query, rows_of(ansi_text).len() as int)
    }
}

/// Row numbers as integers.
pub open spec fn as_ints(rows: Seq<usize>) -> Seq<int> {
    rows.map_values(|r: usize| r as int)
}

/// Persistent search state.
#[derive(Debug, Clone)]
pub struct SearchState {
    /// The current search query (empty = no active search).
    pub query: String,
    /// 1-indexed rows where matches were found.
    pub match_rows: Vec<usize>,
    /// Index into `match_rows` for the current match.
    pub current: usize,
}

impl SearchState {
    /// There is a current match exactly when there are matches.
    pub open spec fn wf(&self) -> bool {
        self.match_rows@.len() == 0 || self.current < self.match_rows@.len()
    }

    /// No search.
    pub fn new() -> (s: Self)
        ensures
            s.query@ == Seq::<char>::empty(),
            s.match_rows@ == Seq::<usize>::empty(),
            s.current == 0,
            s.wf(),
    {
        SearchState { query: String::new(), match_rows: Vec::new(), current: 0 }
    }

    /// Returns `true` if the query contains any uppercase character (smart-case).
    pub fn is_case_sensitive(query: &str) -> (r: bool)
        ensures
            r == case_sensitive(query@),
    {
        let chars = chars_of(query);
        let mut i: usize = 0;
        while i < chars.len()
            invariant
                i <= chars@.len(),
                chars@ == query@,
                forall|j: int| 0 <= j < i ==> !uppercase(#[trigger] chars@[j]),
            decreases chars@.len() - i,
        {
            if chars[i].is_uppercase() {
                assert(uppercase(query@[i as int]));
                return true;
            }
            i += 1;
        }
        false
    }

    /// Check if `haystack` contains `needle` with smart-case: case-sensitive when `needle` has
    /// uppercase, case-insensitive otherwise.
    pub fn smart_contains(haystack: &str, needle: &str) -> (r: bool)
        ensures
            r == smart_holds(haystack@, needle@),
    {
        if Self::is_case_sensitive(needle) {
            let text = chars_of(haystack);
            contains_text(&text, needle)
        } else {
            let text = chars_of(haystack.to_lowercase().as_str());
            contains_text(&text, needle.to_lowercase().as_str())
        }
    }

    /// Rebuild match positions by scanning the rendered text for the query. The first match
    /// becomes the current one.
    pub fn find_matches(&mut self, ansi_text: &str)
        ensures
            final(self).query == old(self).query,
            final(self).current == 0,
            as_ints(final(self).match_rows@) == all_matches(ansi_text@, old(self).query@),
            final(self).wf(),
    {
        self.match_rows.clear();
        self.current = 0;
        assert(as_ints(self.match_rows@) =~= seq![]);
        if self.query.as_str().is_empty() {
            return;
        }
        let chars = chars_of(ansi_text);
        let rows = split_rows(&chars);
        let ghost all = rows_of(ansi_text@);
        let ghost query = self.query@;
        let mut i: usize = 0;
        while i < rows.len()
            invariant
                i <= rows@.len(),
                all == views(rows@),
                self.query == old(self).query,
                self.query@ == query,
                self.current == 0,
                as_ints(self.match_rows@) == matching_rows(all, query, i as int),
            decreases rows@.len() - i,
        {
            assert(all[i as int] == rows@[i as int]@);
            let shown = string_of(&strip_chars(&rows[i]));
            let ghost before = self.match_rows@;
            if Self::smart_contains(shown.as_str(), self.query.as_str()) {
                self.match_rows.push(i + 1);
                assert(as_ints(self.match_rows@) =~= as_ints(before).push(i + 1));
            }
            i += 1;
        }
    }

    /// Jump to the next match. Returns the 1-indexed row, or `None`.
    pub fn next_match(&mut self) -> (row: Option<usize>)
        requires
            old(self).wf(),
        ensures
            final(self).query == old(self).query,
            final(self).match_rows == old(self).match_rows,
            final(self).wf(),
            if old(self).match_rows@.len() == 0 {
                row is None && final(self).current == old(self).current
            } else {
                &&& final(self).current == ring_next(
                    old(self).current as int,
                    old(self).match_rows@.len() as int,
                )
                &&& row == Some(old(self).match_rows@[final(self).current as int])
            },
    {
        if self.match_rows.len() == 0 {
            return None;
        }
        self.current = next_in_ring(self.current, self.match_rows.len());
        Some(self.match_rows[self.current])
    }

    /// Jump to the previous match. Returns the 1-indexed row, or `None`.
    pub fn prev_match(&mut self) -> (row: Option<usize>)
        requires
            old(self).wf(),
        ensures
            final(self).query == old(self).query,
            final(self).match_rows == old(self).match_rows,
            final(self).wf(),
            if old(self).match_rows@.len() == 0 {
                row is None && final(self).current == old(self).current
            } else {
                &&& final(self).current == ring_prev(
                    old(self).current as int,
                    old(self).match_rows@.len() as int,
                )
                &&& row == Some(old(self).match_rows@[final(self).current as int])
            },
    {
        if self.match_rows.len() == 0 {
            return None;
        }
        self.current = prev_in_ring(self.current, self.match_rows.len());
        Some(self.match_rows[self.current])
    }

    /// Jump to the first match at or after `from_row` (1-indexed); past the last match, to the
    /// first of all.
    pub fn first_match_from(&mut self, from_row: usize) -> (row: Option<usize>)
        requires
            old(self).wf(),
        ensures
            final(self).query == old(self).query,
            final(self).match_rows == old(self).match_rows,
            final(self).wf(),
            if old(self).match_rows@.len() == 0 {
                row is None && final(self).current == old(self).current
            } else {
                &&& final(self).current == first_from(old(self).match_rows@, from_row as int)
                &&& row == Some(old(self).match_rows@[final(self).current as int])
            },
    {
        if self.match_rows.len() == 0 {
            return None;
        }
        let ghost rows = self.match_rows@;
        let ghost from = from_row as int;
        let mut i: usize = 0;
        while i < self.match_rows.len()
            invariant
                i <= rows.len(),
                self.match_rows == old(self).match_rows,
                self.query == old(self).query,
                rows == self.match_rows@,
                rows == old(self).match_rows@,
                rows.len() > 0,
                from == from_row,
                forall|j: int| 0 <= j < i ==> #[trigger] rows[j] < from,
            decreases rows.len() - i,
        {
            if self.match_rows[i] >= from_row {
                proof {
                    lemma_first_from(rows, from, i as int);
                }
                self.current = i;
                return Some(self.match_rows[i]);
            }
            i += 1;
        }
        proof {
            lemma_first_from(rows, from, rows.len() as int);
        }
        self.current = 0;
        Some(self.match_rows[0])
    }

    /// Whether a row shows a match.
    pub fn is_match_row(&self, row: usize) -> (r: bool)
        ensures
            r == (self.query@.len() > 0 && self.match_rows@.contains(row)),
    {
        if self.query.as_str().is_empty() {
            return false;
        }
        let mut i: usize = 0;
        while i < self.match_rows.len()
            invariant
                i <= self.match_rows@.len(),
                self.query@.len() > 0,
                forall|j: int| 0 <= j < i ==> #[trigger] self.match_rows@[j] != row,
            decreases self.match_rows@.len() - i,
        {
            if self.match_rows[i] == row {
                assert(self.match_rows@[i as int] == row);
                return true;
            }
            i += 1;
        }
        false
    }

    /// Whether a row shows the current match.
    pub fn is_current_row(&self, row: usize) -> (r: bool)
        ensures
            r == (self.query@.len() > 0 && self.current < self.match_rows@.len()
                && self.match_rows@[self.current as int] == row),
    {
        !self.query.as_str().is_empty() && self.current < self.match_rows.len()
            && self.match_rows[self.current] == row
    }
}

/// The index of the first row at or after `from`; 0 where all come before it.
pub open spec fn first_from(rows: Seq<usize>, from: int) -> int {
    match index_at_or_after(rows, from, 0) {
        Some(i) => i,
        None => 0,
    }
}

/// The first index at or after `i` of a row at or after `from`.
pub open spec fn index_at_or_after(rows: Seq<usize>, from: int, i: int) -> Option<int>
    decreases rows.len() - i,
{
    if i < 0 || i >= rows.len() {
        None
    } else if rows[i] >= from {
        Some(i)
    } else {
        index_at_or_after(rows, from, i + 1)
    }
}

proof fn lemma_index_skips(rows: Seq<usize>, from: int, i: int, k: int)
    requires
        0 <= i <= k <= rows.len(),
        forall|j: int| 0 <= j < k ==> #[trigger] rows[j] < from,
    ensures
        index_at_or_after(rows, from, i) == index_at_or_after(rows, from, k),
    decreases k - i,
{
    if i < k {
        assert(rows[i] < from);
        lemma_index_skips(rows, from, i + 1, k);
    }
}

proof fn lemma_first_from(rows: Seq<usize>, from: int, k: int)
    requires
        0 <= k <= rows.len(),
        forall|j: int| 0 <= j < k ==> #[trigger] rows[j] < from,
        k < rows.len() ==> rows[k] >= from,
    ensures
        first_from(rows, from) == if k < rows.len() {
            k
        } else {
            0
        },
{
    lemma_index_skips(rows, from, 0, k);
}

/// Matches come in the order of their rows, no row twice, and each is a row of the text that
/// shows the query.
pub proof fn law_matches_in_order(rows: Seq<Seq<char>>, query: Seq<char>, n: int)
    requires
        0 <= n <= rows.len(),
    ensures
        forall|i: int|
            0 <= i < matching_rows(rows, query, n).len() ==> {
                let row = #[trigger] matching_rows(rows, query, n)[i];
                1 <= row <= n && smart_holds(plain(rows[row - 1]), query)
            },
        forall|i: int, j: int|
            0 <= i < j < matching_rows(rows, query, n).len() ==> matching_rows(rows, query, n)[i]
                < matching_rows(rows, query, n)[j],
        forall|row: int|
            1 <= row <= n && #[trigger] smart_holds(plain(rows[row - 1]), query)
                ==> matching_rows(rows, query, n).contains(row),
    decreases n,
{
    if n > 0 {
        law_matches_in_order(rows, query, n - 1);
        let before = matching_rows(rows, query, n - 1);
        let all = matching_rows(rows, query, n);
        if smart_holds(plain(rows[n - 1]), query) {
            assert(all[all.len() - 1] == n);
            assert forall|i: int| 0 <= i < before.len() implies all[i] == before[i] by {}
        }
        assert forall|i: int| 0 <= i < all.len() implies ({
            let row = #[trigger] all[i];
            1 <= row <= n && smart_holds(plain(rows[row - 1]), query)
        }) by {
            if i < before.len() {
                assert(all[i] == before[i]);
            }
        }
        assert forall|row: int| 1 <= row <= n && #[trigger] smart_holds(
            plain(rows[row - 1]),
            query,
        ) implies all.contains(row) by {
            if row < n {
                let i = choose|i: int| 0 <= i < before.len() && before[i] == row;
                assert(all[i] == row);
            }
        }
    }
}

/// A query with a capital letter is searched for as it is, any other whatever the case.
pub proof fn law_smart_case(text: Seq<char>, query: Seq<char>, i: int)
    ensures
        0 <= i < query.len() && uppercase(query[i]) ==> smart_holds(text, query) == within(
            text,
            query,
        ),
        (forall|j: int| 0 <= j < query.len() ==> !uppercase(#[trigger] query[j])) ==> smart_holds(
            text,
            query,
        ) == within(lowercased(text), lowercased(query)),
{
    law_holds(text, query);
    law_holds(lowercased(text), lowercased(query));
}

/// The rows found are all those of the text, counted from one, whose text without its escape
/// sequences holds the query, and no others; without a query there are none.
pub proof fn law_rows_found(ansi_text: Seq<char>, query: Seq<char>, row: int)
    ensures
        query.len() == 0 ==> all_matches(ansi_text, query).len() == 0,
        query.len() > 0 ==> (all_matches(ansi_text, query).contains(row) <==> 1 <= row <= rows_of(
            ansi_text,
        ).len() && smart_holds(plain(rows_of(ansi_text)[row - 1]), query)),
{
    let rows = rows_of(ansi_text);
    law_matches_in_order(rows, query, rows.len() as int);
    if query.len() > 0 && all_matches(ansi_text, query).contains(row) {
        let found = all_matches(ansi_text, query);
        let i = choose|i: int| 0 <= i < found.len() && found[i] == row;
        assert(found[i] == row);
    }
}

/// A search begins at the first match at or below the view, or else at the first of all.
pub proof fn law_search_begins_in_view(rows: Seq<usize>, from: int)
    requires
        rows.len() > 0,
    ensures
        ({
            let i = first_from(rows, from);
            &&& 0 <= i < rows.len()
            &&& rows[i] >= from ==> forall|j: int| 0 <= j < i ==> #[trigger] rows[j] < from
            &&& rows[i] < from ==> i == 0 && forall|j: int|
                0 <= j < rows.len() ==> #[trigger] rows[j] < from
        }),
{
    lemma_index_found(rows, from, 0);
}

proof fn lemma_index_found(rows: Seq<usize>, from: int, i: int)
    requires
        0 <= i <= rows.len(),
    ensures
        match index_at_or_after(rows, from, i) {
            Some(k) => i <= k < rows.len() && rows[k] >= from && forall|j: int|
                i <= j < k ==> #[trigger] rows[j] < from,
            None => forall|j: int| i <= j < rows.len() ==> #[trigger] rows[j] < from,
        },
    decreases rows.len() - i,
{
    if i < rows.len() && rows[i] < from {
        lemma_index_found(rows, from, i + 1);
    }
}

} // verus!
