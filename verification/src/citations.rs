//! Citations of Korean court precedents in a document.

use vstd::prelude::*;

use crate::paths::optional_string;
use crate::patterns::{
    captures, found, group_count, lemma_group_counts, match_texts, CASE_NUM, PAREN_REF, STRUCTURED,
};
use crate::text::{
    begins, chars_of, cut, find, find_char, holds, lemma_occurrence_from, lemma_position, lemma_position_at,
    occurrence_from, occurs_at, one_line, position, push_str, same_str, starts_with, string_of,
    trim, trimmed,
};

verus! {

/// A reference to another Korean court precedent found in the document.
#[derive(Debug, Clone, PartialEq, Eq)]
pub struct CaseRef {
    /// Court name (e.g. "대법원", "헌법재판소").
    pub court: String,
    /// Case number (e.g. "2000다24061", "94헌마213").
    pub case_number: String,
    /// Ruling date as extracted (e.g. "2000. 11. 10."), if available.
    pub ruling_date: Option<String>,
    /// Source location: "참조판례" section or "본문" (in-body citation).
    pub source: &'static str,
}

/// What a [`CaseRef`] stands for.
pub struct CaseView {
    pub court: Seq<char>,
    pub case_number: Seq<char>,
    pub ruling_date: Option<Seq<char>>,
    pub source: Seq<char>,
}

impl View for CaseRef {
    type V = CaseView;

    open spec fn view(&self) -> CaseView {
        CaseView {
            court: self.court@,
            case_number: self.case_number@,
            ruling_date: optional_string(self.ruling_date),
            source: self.source@,
        }
    }
}

/// What a list of references stands for.
pub open spec fn case_views(refs: Seq<CaseRef>) -> Seq<CaseView> {
    refs.map_values(|r: CaseRef| r@)
}

// ---------------------------------------------------------------- sections

/// A document without its frontmatter: without the block between a first line `---` and the
/// next line that begins with `---`. One that is never closed stays.
pub open spec fn without_frontmatter(raw: Seq<char>) -> Seq<char> {
    if begins(raw, "---\n"@) || begins(raw, "---\r\n"@) {
        let open = if begins(raw, "---\r\n"@) {
            5int
        } else {
            4int
        };
        match occurrence_from(raw, "\n---"@, open) {
            None => raw,
            Some(i) => {
                let rest = raw.skip(i + 4);
                if begins(rest, "\n"@) {
                    rest.skip(1)
                } else if begins(rest, "\r\n"@) {
                    rest.skip(2)
                } else {
                    rest
                }
            },
        }
    } else {
        raw
    }
}

/// Where the line behind position `from` begins: behind the next line end, or at the end of
/// the text.
pub open spec fn next_line(s: Seq<char>, from: int) -> int {
    let n = from + position(s.skip(from), '\n');
    if n < s.len() {
        n + 1
    } else {
        s.len() as int
    }
}

/// The text of the section with the given name, if it has any: from the line behind the first
/// place where `## ` and the name stand, up to the next line that begins with `## `, trimmed.
/// That next line may be the first behind the heading, and the section is empty.
pub open spec fn section_text(raw: Seq<char>, name: Seq<char>) -> Option<Seq<char>> {
    let content = without_frontmatter(raw);
    let target = "## "@ + name;
    match occurrence_from(content, target, 0) {
        None => None,
        Some(start) => {
            let after = start + target.len();
            let from = next_line(content, after);
            let to = match occurrence_from(
                content,
                "\n## "@,
                after + position(content.skip(after), '\n'),
            ) {
                Some(i) => if i < from {
                    from
                } else {
                    i
                },
                None => content.len() as int,
            };
            let text = trimmed(content.subrange(from, to));
            if text.len() == 0 {
                None
            } else {
                Some(text)
            }
        },
    }
}

fn strip_front(raw: &Vec<char>) -> (content: Vec<char>)
    ensures
        content@ == without_frontmatter(raw@),
{
    proof {
        reveal_strlit("---\n");
        reveal_strlit("---\r\n");
        reveal_strlit("\n---");
        reveal_strlit("\n");
        reveal_strlit("\r\n");
    }
    let whole = cut(raw, 0, raw.len());
    assert(whole@ =~= raw@);
    let crlf = starts_with(raw, "---\r\n");
    if !crlf && !starts_with(raw, "---\n") {
        return whole;
    }
    let open: usize = if crlf {
        5
    } else {
        4
    };
    let close = chars_of("\n---");
    match find(raw, &close, open) {
        None => whole,
        Some(i) => {
            let n: usize = raw.len();
            let rest = cut(raw, i + 4, n);
            assert(rest@ =~= raw@.skip(i + 4));
            if starts_with(&rest, "\n") {
                let r = cut(&rest, 1, rest.len());
                assert(r@ =~= rest@.skip(1));
                r
            } else if starts_with(&rest, "\r\n") {
                let r = cut(&rest, 2, rest.len());
                assert(r@ =~= rest@.skip(2));
                r
            } else {
                rest
            }
        },
    }
}

/// Extract the text content of a named `## ` section from raw markdown: the text between the
/// target heading and the next `## ` heading (or the end of the document), with frontmatter
/// stripped.
pub fn extract_section_text(raw: &str, section_name: &str) -> (r: Option<String>)
    ensures
        optional_string(r) == section_text(raw@, section_name@),
{
    let chars = chars_of(raw);
    let content = strip_front(&chars);
    let mut target: Vec<char> = chars_of("## ");
    push_str(&mut target, section_name);
    let heading = chars_of("\n## ");
    let n: usize = content.len();
    match find(&content, &target, 0) {
        None => None,
        Some(start) => {
            let after: usize = start + target.len();
            let line_end: usize = find_char(&content, '\n', after);
            let from: usize = if line_end < n {
                line_end + 1
            } else {
                n
            };
            assert(from == next_line(content@, after as int));
            let to: usize = match find(&content, &heading, line_end) {
                Some(i) => if i < from {
                    from
                } else {
                    i
                },
                None => n,
            };
            let part = cut(&content, from, to);
            let text = trim(&part);
            if text.len() == 0 {
                None
            } else {
                Some(string_of(&text))
            }
        },
    }
}

// ---------------------------------------------------------------- citations

/// Whether a list has a reference to the given case.
pub open spec fn has_case(refs: Seq<CaseView>, number: Seq<char>) -> bool {
    exists|i: int| 0 <= i < refs.len() && (#[trigger] refs[i]).case_number == number
}

/// A list of references and one more, unless there is one to its case already.
pub open spec fn with_case(refs: Seq<CaseView>, r: CaseView) -> Seq<CaseView> {
    if has_case(refs, r.case_number) {
        refs
    } else {
        refs.push(r)
    }
}

/// `refs`, and what matches of [`STRUCTURED`] give: court, date and number.
pub open spec fn with_structured(
    refs: Seq<CaseView>,
    matches: Seq<Seq<Seq<char>>>,
    source: Seq<char>,
) -> Seq<CaseView>
    decreases matches.len(),
{
    if matches.len() == 0 {
        refs
    } else {
        let m = matches.last();
        with_case(
            with_structured(refs, matches.drop_last(), source),
            CaseView { court: m[1], case_number: m[3], ruling_date: Some(m[2]), source },
        )
    }
}

/// `refs`, and what matches of [`CASE_NUM`] give: the number alone.
pub open spec fn with_numbers(
    refs: Seq<CaseView>,
    matches: Seq<Seq<Seq<char>>>,
    source: Seq<char>,
) -> Seq<CaseView>
    decreases matches.len(),
{
    if matches.len() == 0 {
        refs
    } else {
        with_case(
            with_numbers(refs, matches.drop_last(), source),
            CaseView {
                court: seq![],
                case_number: matches.last()[0],
                ruling_date: None,
                source,
            },
        )
    }
}

/// `refs`, and the numbers found in every one of a list of texts.
pub open spec fn with_all_numbers(
    refs: Seq<CaseView>,
    groups: Seq<Seq<Seq<Seq<char>>>>,
    source: Seq<char>,
) -> Seq<CaseView>
    decreases groups.len(),
{
    if groups.len() == 0 {
        refs
    } else {
        with_numbers(with_all_numbers(refs, groups.drop_last(), source), groups.last(), source)
    }
}

/// What was found in a document: full citations and bare case numbers in the section of
/// references, full citations anywhere, bare numbers in every parenthesis that says "see", and
/// every case number of the document in its order.
pub struct Findings {
    pub section_structured: Vec<Vec<String>>,
    pub section_numbers: Vec<Vec<String>>,
    pub body_structured: Vec<Vec<String>>,
    pub paren_numbers: Vec<Vec<Vec<String>>>,
    pub document_numbers: Vec<Vec<String>>,
}

/// What a list of lists of matches stands for.
pub open spec fn group_texts(groups: Seq<Vec<Vec<String>>>) -> Seq<Seq<Seq<Seq<char>>>> {
    groups.map_values(|g: Vec<Vec<String>>| match_texts(g@))
}

/// The cases that findings give, in the order of the findings, each case once.
pub open spec fn cited_cases(
    section_structured: Seq<Seq<Seq<char>>>,
    section_numbers: Seq<Seq<Seq<char>>>,
    body_structured: Seq<Seq<Seq<char>>>,
    paren_numbers: Seq<Seq<Seq<Seq<char>>>>,
) -> Seq<CaseView> {
    with_all_numbers(
        with_structured(
            with_numbers(
                with_structured(seq![], section_structured, "참조판례"@),
                section_numbers,
                "참조판례"@,
            ),
            body_structured,
            "본문"@,
        ),
        paren_numbers,
        "본문"@,
    )
}

/// The place of the first reference to a case in a list; its length if there is none.
pub open spec fn first_case(refs: Seq<CaseView>, number: Seq<char>) -> int
    decreases refs.len(),
{
    if refs.len() == 0 {
        0
    } else {
        let before = first_case(refs.drop_last(), number);
        if before == refs.len() - 1 && refs.last().case_number != number {
            refs.len() as int
        } else {
            before
        }
    }
}

/// The references of a list whose numbers are among those of a document, in the document's
/// order, each case once.
pub open spec fn in_document_order(
    refs: Seq<CaseView>,
    document: Seq<Seq<Seq<char>>>,
) -> Seq<CaseView>
    decreases document.len(),
{
    if document.len() == 0 {
        seq![]
    } else {
        let before = in_document_order(refs, document.drop_last());
        let i = first_case(refs, document.last()[0]);
        if i < refs.len() {
            with_case(before, refs[i])
        } else {
            before
        }
    }
}

/// `refs`, and those of `more` to cases that it does not have.
pub open spec fn with_more(refs: Seq<CaseView>, more: Seq<CaseView>) -> Seq<CaseView>
    decreases more.len(),
{
    if more.len() == 0 {
        refs
    } else {
        with_case(with_more(refs, more.drop_last()), more.last())
    }
}

/// The citations that findings give: each case once, as it was found first, ordered by where its
/// number first stands in the document.
pub open spec fn citations(
    section_structured: Seq<Seq<Seq<char>>>,
    section_numbers: Seq<Seq<Seq<char>>>,
    body_structured: Seq<Seq<Seq<char>>>,
    paren_numbers: Seq<Seq<Seq<Seq<char>>>>,
    document_numbers: Seq<Seq<Seq<char>>>,
) -> Seq<CaseView> {
    let cases = cited_cases(section_structured, section_numbers, body_structured, paren_numbers);
    with_more(in_document_order(cases, document_numbers), cases)
}

/// Every match of a list has its whole and `groups` groups.
pub open spec fn shaped(matches: Seq<Vec<String>>, groups: nat) -> bool {
    forall|i: int| 0 <= i < matches.len() ==> (#[trigger] matches[i])@.len() == groups + 1
}

fn add_case(refs: &mut Vec<CaseRef>, r: CaseRef)
    ensures
        case_views(final(refs)@) == with_case(case_views(old(refs)@), r@),
{
    let ghost before = case_views(refs@);
    let ghost view = r@;
    let mut i: usize = 0;
    while i < refs.len()
        invariant
            i <= refs@.len(),
            refs@ == old(refs)@,
            before == case_views(refs@),
            view == r@,
            forall|j: int| 0 <= j < i ==> (#[trigger] before[j]).case_number != view.case_number,
        decreases refs@.len() - i,
    {
        assert(before[i as int].case_number == refs@[i as int].case_number@);
        if same_str(refs[i].case_number.as_str(), r.case_number.as_str()) {
            return;
        }
        i += 1;
    }
    refs.push(r);
    assert(case_views(refs@) =~= before.push(view));
}

fn add_structured(refs: &mut Vec<CaseRef>, matches: &Vec<Vec<String>>, source: &'static str)
    requires
        shaped(matches@, 3),
    ensures
        case_views(final(refs)@) == with_structured(
            case_views(old(refs)@),
            match_texts(matches@),
            source@,
        ),
{
    let ghost all = match_texts(matches@);
    let ghost before = case_views(refs@);
    let mut i: usize = 0;
    assert(all.take(0) =~= seq![]);
    while i < matches.len()
        invariant
            i <= matches@.len(),
            all == match_texts(matches@),
            shaped(matches@, 3),
            case_views(refs@) == with_structured(before, all.take(i as int), source@),
        decreases matches@.len() - i,
    {
        assert(all.take(i + 1).drop_last() =~= all.take(i as int));
        assert(all.take(i + 1).last() == all[i as int]);
        let m = &matches[i];
        add_case(
            refs,
            CaseRef {
                court: m[1].clone(),
                case_number: m[3].clone(),
                ruling_date: Some(m[2].clone()),
                source,
            },
        );
        i += 1;
    }
    assert(all.take(i as int) =~= all);
}

fn add_numbers(refs: &mut Vec<CaseRef>, matches: &Vec<Vec<String>>, source: &'static str)
    requires
        shaped(matches@, 0),
    ensures
        case_views(final(refs)@) == with_numbers(
            case_views(old(refs)@),
            match_texts(matches@),
            source@,
        ),
{
    let ghost all = match_texts(matches@);
    let ghost before = case_views(refs@);
    let mut i: usize = 0;
    assert(all.take(0) =~= seq![]);
    while i < matches.len()
        invariant
            i <= matches@.len(),
            all == match_texts(matches@),
            shaped(matches@, 0),
            case_views(refs@) == with_numbers(before, all.take(i as int), source@),
        decreases matches@.len() - i,
    {
        assert(all.take(i + 1).drop_last() =~= all.take(i as int));
        assert(all.take(i + 1).last() == all[i as int]);
        let m = &matches[i];
        let r = CaseRef {
            court: String::new(),
            case_number: m[0].clone(),
            ruling_date: None,
            source,
        };
        assert(r@.court =~= seq![]);
        add_case(refs, r);
        i += 1;
    }
    assert(all.take(i as int) =~= all);
}

fn copy_case(r: &CaseRef) -> (copy: CaseRef)
    ensures
        copy@ == r@,
{
    let ruling_date = match &r.ruling_date {
        Some(date) => Some(date.clone()),
        None => None,
    };
    CaseRef {
        court: r.court.clone(),
        case_number: r.case_number.clone(),
        ruling_date,
        source: r.source,
    }
}

fn find_case(refs: &Vec<CaseRef>, number: &str) -> (place: usize)
    ensures
        place == first_case(case_views(refs@), number@),
        place <= refs@.len(),
{
    let ghost all = case_views(refs@);
    let mut place: usize = 0;
    let mut i: usize = 0;
    while i < refs.len()
        invariant
            i <= refs@.len(),
            place <= i,
            all == case_views(refs@),
            place == first_case(all.take(i as int), number@),
        decreases refs@.len() - i,
    {
        assert(all.take(i + 1).drop_last() =~= all.take(i as int));
        assert(all.take(i + 1).last() == refs@[i as int]@);
        if place == i && !same_str(refs[i].case_number.as_str(), number) {
            place = i + 1;
        }
        i += 1;
    }
    assert(all.take(i as int) =~= all);
    place
}

fn order_cases(refs: &Vec<CaseRef>, document: &Vec<Vec<String>>) -> (ordered: Vec<CaseRef>)
    requires
        shaped(document@, 0),
    ensures
        case_views(ordered@) == in_document_order(case_views(refs@), match_texts(document@)),
{
    let ghost all = match_texts(document@);
    let ghost cases = case_views(refs@);
    let mut ordered: Vec<CaseRef> = Vec::new();
    let mut i: usize = 0;
    assert(all.take(0) =~= seq![]);
    assert(case_views(ordered@) =~= seq![]);
    while i < document.len()
        invariant
            i <= document@.len(),
            all == match_texts(document@),
            cases == case_views(refs@),
            shaped(document@, 0),
            case_views(ordered@) == in_document_order(cases, all.take(i as int)),
        decreases document@.len() - i,
    {
        assert(all.take(i + 1).drop_last() =~= all.take(i as int));
        assert(all.take(i + 1).last()[0] == document@[i as int]@[0]@);
        let place: usize = find_case(refs, document[i][0].as_str());
        if place < refs.len() {
            assert(cases[place as int] == refs@[place as int]@);
            add_case(&mut ordered, copy_case(&refs[place]));
        }
        i += 1;
    }
    assert(all.take(i as int) =~= all);
    ordered
}

fn add_more(refs: &mut Vec<CaseRef>, more: &Vec<CaseRef>)
    ensures
        case_views(final(refs)@) == with_more(case_views(old(refs)@), case_views(more@)),
{
    let ghost all = case_views(more@);
    let ghost before = case_views(refs@);
    let mut i: usize = 0;
    assert(all.take(0) =~= seq![]);
    while i < more.len()
        invariant
            i <= more@.len(),
            all == case_views(more@),
            case_views(refs@) == with_more(before, all.take(i as int)),
        decreases more@.len() - i,
    {
        assert(all.take(i + 1).drop_last() =~= all.take(i as int));
        assert(all.take(i + 1).last() == more@[i as int]@);
        add_case(refs, copy_case(&more[i]));
        i += 1;
    }
    assert(all.take(i as int) =~= all);
}

/// The citations that findings give: deduplicated, ordered by first occurrence.
pub fn collect_citations(f: &Findings) -> (refs: Vec<CaseRef>)
    requires
        shaped(f.section_structured@, 3),
        shaped(f.section_numbers@, 0),
        shaped(f.body_structured@, 3),
        forall|i: int|
            0 <= i < f.paren_numbers@.len() ==> shaped((#[trigger] f.paren_numbers@[i])@, 0),
        shaped(f.document_numbers@, 0),
    ensures
        case_views(refs@) == citations(
            match_texts(f.section_structured@),
            match_texts(f.section_numbers@),
            match_texts(f.body_structured@),
            group_texts(f.paren_numbers@),
            match_texts(f.document_numbers@),
        ),
{
    let mut refs: Vec<CaseRef> = Vec::new();
    assert(case_views(refs@) =~= seq![]);
    add_structured(&mut refs, &f.section_structured, "참조판례");
    add_numbers(&mut refs, &f.section_numbers, "참조판례");
    add_structured(&mut refs, &f.body_structured, "본문");
    let ghost before = case_views(refs@);
    let ghost all = group_texts(f.paren_numbers@);
    let mut i: usize = 0;
    assert(all.take(0) =~= seq![]);
    while i < f.paren_numbers.len()
        invariant
            i <= f.paren_numbers@.len(),
            all == group_texts(f.paren_numbers@),
            forall|k: int|
                0 <= k < f.paren_numbers@.len() ==> shaped((#[trigger] f.paren_numbers@[k])@, 0),
            case_views(refs@) == with_all_numbers(before, all.take(i as int), "본문"@),
        decreases f.paren_numbers@.len() - i,
    {
        assert(all.take(i + 1).drop_last() =~= all.take(i as int));
        assert(all.take(i + 1).last() == all[i as int]);
        add_numbers(&mut refs, &f.paren_numbers[i], "본문");
        i += 1;
    }
    assert(all.take(i as int) =~= all);
    let mut ordered = order_cases(&refs, &f.document_numbers);
    add_more(&mut ordered, &refs);
    ordered
}

/// The matches of a pattern in a text, none where there is no text.
pub open spec fn found_in(pattern: Seq<char>, text: Option<Seq<char>>) -> Seq<Seq<Seq<char>>> {
    match text {
        Some(t) => found(pattern, t),
        None => seq![],
    }
}

/// The case numbers found in the parentheses of a text that say "see".
pub open spec fn paren_findings(text: Seq<char>) -> Seq<Seq<Seq<Seq<char>>>> {
    found(PAREN_REF@, text).map_values(|m: Seq<Seq<char>>| found(CASE_NUM@, m[1]))
}

/// Extract all case citations from a Korean precedent markdown document.
///
/// Searches the structured `## 참조판례` section (formal cross-references), then the body for
/// full citations, then parentheses like `(2000다24061 판결 참조)` for bare numbers. Returns
/// deduplicated results ordered by first occurrence.
pub fn extract_case_citations(markdown: &str) -> (refs: Vec<CaseRef>)
    ensures
        case_views(refs@) == citations(
            found_in(STRUCTURED@, section_text(markdown@, "참조판례"@)),
            found_in(CASE_NUM@, section_text(markdown@, "참조판례"@)),
            found(STRUCTURED@, markdown@),
            paren_findings(markdown@),
            found(CASE_NUM@, markdown@),
        ),
{
    proof {
        lemma_group_counts();
    }
    let section = extract_section_text(markdown, "참조판례");
    let (section_structured, section_numbers) = match &section {
        Some(text) => (captures(STRUCTURED, text.as_str()), captures(CASE_NUM, text.as_str())),
        None => (Vec::new(), Vec::new()),
    };
    assert(match_texts(section_structured@) =~= found_in(
        STRUCTURED@,
        section_text(markdown@, "참조판례"@),
    ));
    assert(match_texts(section_numbers@) =~= found_in(
        CASE_NUM@,
        section_text(markdown@, "참조판례"@),
    ));
    let body_structured = captures(STRUCTURED, markdown);
    let parens = captures(PAREN_REF, markdown);
    let mut paren_numbers: Vec<Vec<Vec<String>>> = Vec::new();
    let ghost wanted = paren_findings(markdown@);
    let mut i: usize = 0;
    while i < parens.len()
        invariant
            i <= parens@.len(),
            shaped(parens@, 1),
            group_count(CASE_NUM@) == 0,
            match_texts(parens@) == found(PAREN_REF@, markdown@),
            wanted == paren_findings(markdown@),
            paren_numbers@.len() == i,
            forall|k: int|
                0 <= k < i ==> shaped((#[trigger] paren_numbers@[k])@, 0) && match_texts(
                    paren_numbers@[k]@,
                ) == wanted[k],
        decreases parens@.len() - i,
    {
        assert(match_texts(parens@)[i as int][1] == parens@[i as int]@[1]@);
        paren_numbers.push(captures(CASE_NUM, parens[i][1].as_str()));
        i += 1;
    }
    assert(group_texts(paren_numbers@) =~= wanted);
    let document_numbers = captures(CASE_NUM, markdown);
    collect_citations(
        &Findings {
            section_structured,
            section_numbers,
            body_structured,
            paren_numbers,
            document_numbers,
        },
    )
}

/// Every case is cited once, whatever was found.
pub proof fn law_citations_unique(
    section_structured: Seq<Seq<Seq<char>>>,
    section_numbers: Seq<Seq<Seq<char>>>,
    body_structured: Seq<Seq<Seq<char>>>,
    paren_numbers: Seq<Seq<Seq<Seq<char>>>>,
    document_numbers: Seq<Seq<Seq<char>>>,
)
    ensures
        unique_cases(
            citations(
                section_structured,
                section_numbers,
                body_structured,
                paren_numbers,
                document_numbers,
            ),
        ),
{
    let cases = cited_cases(section_structured, section_numbers, body_structured, paren_numbers);
    lemma_in_order(cases, document_numbers);
    lemma_more(in_document_order(cases, document_numbers), cases);
}

/// The cases that are cited are those that were found.
pub proof fn law_citations_are_those_found(
    section_structured: Seq<Seq<Seq<char>>>,
    section_numbers: Seq<Seq<Seq<char>>>,
    body_structured: Seq<Seq<Seq<char>>>,
    paren_numbers: Seq<Seq<Seq<Seq<char>>>>,
    document_numbers: Seq<Seq<Seq<char>>>,
    number: Seq<char>,
)
    ensures
        has_case(
            citations(
                section_structured,
                section_numbers,
                body_structured,
                paren_numbers,
                document_numbers,
            ),
            number,
        ) == has_case(
            cited_cases(section_structured, section_numbers, body_structured, paren_numbers),
            number,
        ),
{
    let cases = cited_cases(section_structured, section_numbers, body_structured, paren_numbers);
    let ordered = in_document_order(cases, document_numbers);
    let all = with_more(ordered, cases);
    lemma_in_order(cases, document_numbers);
    lemma_more(ordered, cases);
    if has_case(cases, number) {
        let i = choose|i: int| 0 <= i < cases.len() && (#[trigger] cases[i]).case_number == number;
        assert(has_case(all, cases[i].case_number));
    }
    if has_case(all, number) {
        let j = choose|j: int| 0 <= j < all.len() && (#[trigger] all[j]).case_number == number;
        if j < ordered.len() {
            assert(all[j] == ordered[j]);
        }
        assert(has_case(cases, all[j].case_number));
    }
}

/// Citations come in the order in which their case numbers first stand in the document; one
/// whose number is not among the document's comes behind all that are.
pub proof fn law_citations_in_document_order(
    section_structured: Seq<Seq<Seq<char>>>,
    section_numbers: Seq<Seq<Seq<char>>>,
    body_structured: Seq<Seq<Seq<char>>>,
    paren_numbers: Seq<Seq<Seq<Seq<char>>>>,
    document_numbers: Seq<Seq<Seq<char>>>,
    i: int,
    j: int,
)
    requires
        0 <= i < j < citations(
            section_structured,
            section_numbers,
            body_structured,
            paren_numbers,
            document_numbers,
        ).len(),
    ensures
        ({
            let refs = citations(
                section_structured,
                section_numbers,
                body_structured,
                paren_numbers,
                document_numbers,
            );
            let first = first_number(document_numbers, refs[i].case_number);
            let second = first_number(document_numbers, refs[j].case_number);
            second < document_numbers.len() ==> first < second
        }),
{
    let cases = cited_cases(section_structured, section_numbers, body_structured, paren_numbers);
    let ordered = in_document_order(cases, document_numbers);
    lemma_in_order(cases, document_numbers);
    lemma_more(ordered, cases);
}

/// The place of the first match of a list that is the given number; its length if none is.
pub open spec fn first_number(document: Seq<Seq<Seq<char>>>, number: Seq<char>) -> int
    decreases document.len(),
{
    if document.len() == 0 {
        0
    } else {
        let before = first_number(document.drop_last(), number);
        if before == document.len() - 1 && document.last()[0] != number {
            document.len() as int
        } else {
            before
        }
    }
}

proof fn lemma_first_number(document: Seq<Seq<Seq<char>>>, number: Seq<char>)
    ensures
        0 <= first_number(document, number) <= document.len(),
    decreases document.len(),
{
    if document.len() > 0 {
        lemma_first_number(document.drop_last(), number);
    }
}

proof fn lemma_first_case(refs: Seq<CaseView>, number: Seq<char>)
    ensures
        0 <= first_case(refs, number) <= refs.len(),
        first_case(refs, number) < refs.len() ==> refs[first_case(refs, number)].case_number
            == number,
        first_case(refs, number) == refs.len() ==> !has_case(refs, number),
    decreases refs.len(),
{
    if refs.len() > 0 {
        let front = refs.drop_last();
        lemma_first_case(front, number);
        if first_case(refs, number) == refs.len() {
            assert forall|i: int| 0 <= i < refs.len() implies (#[trigger] refs[i]).case_number
                != number by {
                if i < front.len() {
                    assert(front[i] == refs[i]);
                    assert(!has_case(front, number));
                }
            }
        }
    }
}

proof fn lemma_in_order(refs: Seq<CaseView>, document: Seq<Seq<Seq<char>>>)
    ensures
        unique_cases(in_document_order(refs, document)),
        forall|i: int|
            #![trigger in_document_order(refs, document)[i]]
            0 <= i < in_document_order(refs, document).len() ==> first_number(
                document,
                in_document_order(refs, document)[i].case_number,
            ) < document.len() && has_case(
                refs,
                in_document_order(refs, document)[i].case_number,
            ),
        forall|i: int, j: int|
            0 <= i < j < in_document_order(refs, document).len() ==> first_number(
                document,
                (#[trigger] in_document_order(refs, document)[i]).case_number,
            ) < first_number(
                document,
                (#[trigger] in_document_order(refs, document)[j]).case_number,
            ),
        forall|k: int|
            0 <= k < refs.len() && first_number(document, (#[trigger] refs[k]).case_number)
                < document.len() ==> has_case(
                in_document_order(refs, document),
                refs[k].case_number,
            ),
    decreases document.len(),
{
    if document.len() > 0 {
        let front = document.drop_last();
        let number = document.last()[0];
        let before = in_document_order(refs, front);
        let all = in_document_order(refs, document);
        let place = first_case(refs, number);
        lemma_in_order(refs, front);
        lemma_first_case(refs, number);
        assert forall|n: Seq<char>| true implies 0 <= #[trigger] first_number(front, n)
            <= front.len() by {
            lemma_first_number(front, n);
        }
        assert forall|i: int| 0 <= i < all.len() implies first_number(
            document,
            (#[trigger] all[i]).case_number,
        ) < document.len() && has_case(refs, all[i].case_number) by {
            if i < before.len() {
                assert(all[i] == before[i]);
            } else {
                assert(all[i] == refs[place]);
            }
        }
        assert forall|i: int, j: int| 0 <= i < j < all.len() implies first_number(
            document,
            (#[trigger] all[i]).case_number,
        ) < first_number(document, (#[trigger] all[j]).case_number) by {
            assert(all[i] == before[i]);
            if j < before.len() {
                assert(all[j] == before[j]);
            } else {
                assert(all[j] == refs[place]);
                if first_number(front, number) < front.len() {
                    assert(has_case(before, refs[place].case_number));
                }
            }
        }
        assert forall|k: int| 0 <= k < refs.len() && first_number(
            document,
            (#[trigger] refs[k]).case_number,
        ) < document.len() implies has_case(all, refs[k].case_number) by {
            let n = refs[k].case_number;
            if first_number(front, n) < front.len() {
                let i = choose|i: int|
                    0 <= i < before.len() && (#[trigger] before[i]).case_number == n;
                assert(all[i] == before[i]);
            } else {
                assert(has_case(refs, n));
                assert(place < refs.len());
                if !has_case(before, n) {
                    assert(all.last() == refs[place]);
                }
            }
        }
    }
}

proof fn lemma_more(refs: Seq<CaseView>, more: Seq<CaseView>)
    requires
        unique_cases(refs),
    ensures
        unique_cases(with_more(refs, more)),
        refs.len() <= with_more(refs, more).len(),
        forall|i: int| 0 <= i < refs.len() ==> #[trigger] with_more(refs, more)[i] == refs[i],
        forall|i: int|
            refs.len() <= i < with_more(refs, more).len() ==> !has_case(
                refs,
                (#[trigger] with_more(refs, more)[i]).case_number,
            ) && has_case(more, with_more(refs, more)[i].case_number),
        forall|k: int|
            0 <= k < more.len() ==> has_case(
                with_more(refs, more),
                (#[trigger] more[k]).case_number,
            ),
    decreases more.len(),
{
    if more.len() > 0 {
        let front = more.drop_last();
        let before = with_more(refs, front);
        let all = with_more(refs, more);
        lemma_more(refs, front);
        assert forall|i: int| refs.len() <= i < all.len() implies !has_case(
            refs,
            (#[trigger] all[i]).case_number,
        ) && has_case(more, all[i].case_number) by {
            let n = all[i].case_number;
            if i < before.len() {
                assert(all[i] == before[i]);
                let k = choose|k: int| 0 <= k < front.len() && (#[trigger] front[k]).case_number == n;
                assert(more[k] == front[k]);
            } else {
                assert(all[i] == more.last());
                assert(more[more.len() - 1].case_number == n);
                if has_case(refs, n) {
                    let k = choose|k: int| 0 <= k < refs.len() && (#[trigger] refs[k]).case_number == n;
                    assert(before[k] == refs[k]);
                }
            }
        }
        assert forall|k: int| 0 <= k < more.len() implies has_case(
            all,
            (#[trigger] more[k]).case_number,
        ) by {
            let n = more[k].case_number;
            if k < front.len() {
                assert(front[k] == more[k]);
                assert(has_case(before, n));
            }
            if has_case(before, n) {
                let i = choose|i: int| 0 <= i < before.len() && (#[trigger] before[i]).case_number == n;
                assert(all[i] == before[i]);
            } else {
                assert(all.last() == more.last());
            }
        }
        assert forall|i: int| 0 <= i < refs.len() implies #[trigger] all[i] == refs[i] by {
            assert(all[i] == before[i]);
        }
    }
}

/// No case stands twice in a list.
pub open spec fn unique_cases(refs: Seq<CaseView>) -> bool {
    forall|i: int, j: int|
        0 <= i < j < refs.len() ==> (#[trigger] refs[i]).case_number != (
        #[trigger] refs[j]).case_number
}

/// A citation with court, date and number is added with them, unless the case was cited before.
pub proof fn law_structured_citations(
    refs: Seq<CaseView>,
    matches: Seq<Seq<Seq<char>>>,
    m: Seq<Seq<char>>,
    source: Seq<char>,
)
    ensures
        ({
            let before = with_structured(refs, matches, source);
            let all = with_structured(refs, matches.push(m), source);
            let known = exists|i: int|
                0 <= i < before.len() && (#[trigger] before[i]).case_number == m[3];
            &&& known ==> all == before
            &&& !known ==> all == before.push(
                CaseView { court: m[1], case_number: m[3], ruling_date: Some(m[2]), source },
            )
        }),
        with_structured(refs, seq![], source) == refs,
{
    assert(matches.push(m).drop_last() =~= matches);
}

/// A number by itself is added without a court and a date, unless the case was cited before.
pub proof fn law_numbers_alone(
    refs: Seq<CaseView>,
    matches: Seq<Seq<Seq<char>>>,
    m: Seq<Seq<char>>,
    source: Seq<char>,
)
    ensures
        ({
            let before = with_numbers(refs, matches, source);
            let all = with_numbers(refs, matches.push(m), source);
            let known = exists|i: int|
                0 <= i < before.len() && (#[trigger] before[i]).case_number == m[0];
            &&& known ==> all == before
            &&& !known ==> all == before.push(
                CaseView { court: seq![], case_number: m[0], ruling_date: None, source },
            )
        }),
        with_numbers(refs, seq![], source) == refs,
{
    assert(matches.push(m).drop_last() =~= matches);
}

/// The section on precedents is read first, then the text: in each the full citations and then the
/// numbers, in the text those between brackets.
pub proof fn law_order_of_reading(
    section: Seq<Seq<Seq<char>>>,
    numbers: Seq<Seq<Seq<char>>>,
    body: Seq<Seq<Seq<char>>>,
    groups: Seq<Seq<Seq<Seq<char>>>>,
    group: Seq<Seq<Seq<char>>>,
)
    ensures
        cited_cases(section, seq![], seq![], seq![]) == with_structured(
            seq![],
            section,
            "참조판례"@,
        ),
        cited_cases(section, numbers, seq![], seq![]) == with_numbers(
            cited_cases(section, seq![], seq![], seq![]),
            numbers,
            "참조판례"@,
        ),
        cited_cases(section, numbers, body, seq![]) == with_structured(
            cited_cases(section, numbers, seq![], seq![]),
            body,
            "본문"@,
        ),
        cited_cases(section, numbers, body, groups.push(group)) == with_numbers(
            cited_cases(section, numbers, body, groups),
            group,
            "본문"@,
        ),
{
    assert(groups.push(group).drop_last() =~= groups);
}

proof fn lemma_first_at(s: Seq<char>, p: Seq<char>, from: int, at: int)
    requires
        0 <= from <= at,
        occurs_at(s, p, at),
        forall|j: int| from <= j < at ==> !#[trigger] occurs_at(s, p, j),
    ensures
        occurrence_from(s, p, from) == Some(at),
{
    lemma_occurrence_from(s, p, from);
}

proof fn lemma_not_inside(a: Seq<char>, t: Seq<char>, b: Seq<char>, p: Seq<char>, j: int)
    requires
        a.len() <= j,
        j + p.len() <= a.len() + t.len(),
        !holds(t, p),
    ensures
        !occurs_at(a + t + b, p, j),
{
    lemma_occurrence_from(t, p, 0);
    let n = a.len() as int;
    assert((a + t + b).subrange(j, j + p.len()) =~= t.subrange(j - n, j - n + p.len()));
    assert(!occurs_at(t, p, j - n));
}

/// Frontmatter is left out, with the dashes around it; a document without any is read whole.
pub proof fn law_frontmatter_is_not_read(meta: Seq<char>, body: Seq<char>)
    requires
        !holds(meta + seq!['\n', '-', '-'], seq!['\n', '-', '-', '-']),
    ensures
        without_frontmatter(
            seq!['-', '-', '-', '\n'] + meta + seq!['\n', '-', '-', '-', '\n'] + body,
        ) == body,
        body.len() > 0 && body[0] != '-' ==> without_frontmatter(body) == body,
{
    lemma_dashes();
    let open = seq!['-', '-', '-', '\n'];
    let end = seq!['\n', '-', '-', '-'];
    let raw = open + meta + seq!['\n', '-', '-', '-', '\n'] + body;
    assert(raw.take(4) =~= open);
    assert(!begins(raw, "---\r\n"@)) by {
        if begins(raw, "---\r\n"@) {
            assert(raw.take(5)[3] == raw[3]);
        }
    }
    let at = 4 + meta.len() as int;
    assert(raw.subrange(at, at + 4) =~= end);
    let t = meta + seq!['\n', '-', '-'];
    assert forall|j: int| 4 <= j < at implies !#[trigger] occurs_at(raw, end, j) by {
        assert(raw =~= open + t + (seq!['-', '\n'] + body));
        lemma_not_inside(open, t, seq!['-', '\n'] + body, end, j);
    }
    lemma_first_at(raw, end, 4, at);
    let rest = raw.skip(at + 4);
    assert(rest =~= seq!['\n'] + body);
    assert(rest.take(1) =~= seq!['\n']);
    assert(rest.skip(1) =~= body);
    if body.len() > 0 && body[0] != '-' {
        if begins(body, "---\n"@) {
            assert(body.take(4)[0] == body[0]);
        }
        if begins(body, "---\r\n"@) {
            assert(body.take(5)[0] == body[0]);
        }
    }
}

proof fn lemma_dashes()
    ensures
        "---\n"@ == seq!['-', '-', '-', '\n'],
        "---\r\n"@ == seq!['-', '-', '-', '\r', '\n'],
        "\n---"@ == seq!['\n', '-', '-', '-'],
        "\n"@ == seq!['\n'],
        "\r\n"@ == seq!['\r', '\n'],
        "## "@ == seq!['#', '#', ' '],
        "\n## "@ == seq!['\n', '#', '#', ' '],
{
    reveal_strlit("---\n");
    reveal_strlit("---\r\n");
    reveal_strlit("\n---");
    reveal_strlit("\n");
    reveal_strlit("\r\n");
    reveal_strlit("## ");
    reveal_strlit("\n## ");
    assert("---\n"@ =~= seq!['-', '-', '-', '\n']);
    assert("---\r\n"@ =~= seq!['-', '-', '-', '\r', '\n']);
    assert("\n---"@ =~= seq!['\n', '-', '-', '-']);
    assert("\n"@ =~= seq!['\n']);
    assert("\r\n"@ =~= seq!['\r', '\n']);
    assert("## "@ =~= seq!['#', '#', ' ']);
    assert("\n## "@ =~= seq!['\n', '#', '#', ' ']);
}

/// A section is what stands between its heading and the next one of its level, or the end of the
/// document, without the white space around it; one without a text is none.
pub proof fn law_sections(before: Seq<char>, name: Seq<char>, body: Seq<char>, behind: Seq<char>)
    requires
        before.len() > 0,
        before[0] != '-',
        one_line(name),
        !holds(before + (seq!['#', '#', ' '] + name).drop_last(), seq!['#', '#', ' '] + name),
        !holds(seq!['\n'] + body + seq!['\n', '#', '#'], seq!['\n', '#', '#', ' ']),
    ensures
        ({
            let text = trimmed(body);
            let found = if text.len() == 0 {
                None
            } else {
                Some(text)
            };
            let head = before + seq!['#', '#', ' '] + name;
            &&& section_text(head + seq!['\n'] + body + seq!['\n', '#', '#', ' '] + behind, name)
                == found
            &&& section_text(head + seq!['\n'] + body, name) == found
        }),
{
    lemma_dashes();
    let mark = seq!['#', '#', ' '];
    let next = seq!['\n', '#', '#', ' '];
    let target = mark + name;
    let head = before + mark + name;
    let n = before.len() as int;
    let after = n + target.len();
    let inner = seq!['\n'] + body + seq!['\n', '#', '#'];
    let one = head + seq!['\n'] + body + next + behind;
    let two = head + seq!['\n'] + body;
    lemma_no_frontmatter(one);
    lemma_no_frontmatter(two);
    lemma_section_found(before, target, seq!['\n'] + body + next + behind);
    lemma_section_found(before, target, seq!['\n'] + body);
    assert(one =~= before + target + (seq!['\n'] + body + next + behind));
    assert(two =~= before + target + (seq!['\n'] + body));
    assert(one[after] == '\n' && two[after] == '\n');
    assert(one.skip(after)[0] == '\n' && two.skip(after)[0] == '\n');
    lemma_position_at(one.skip(after), '\n', 0);
    lemma_position_at(two.skip(after), '\n', 0);
    let at = after + 1 + body.len();
    assert(one.subrange(at, at + 4) =~= next);
    assert(occurs_at(one, next, at));
    assert forall|j: int| after <= j < at implies !#[trigger] occurs_at(one, next, j) by {
        assert(one =~= head + inner + (seq![' '] + behind));
        lemma_not_inside(head, inner, seq![' '] + behind, next, j);
    }
    lemma_first_at(one, next, after, at);
    assert(one.subrange(after + 1, at) =~= body);
    lemma_occurrence_from(two, next, after);
    assert(occurrence_from(two, next, after) is None) by {
        if let Some(j) = occurrence_from(two, next, after) {
            assert(occurs_at(two, next, j));
            assert(one.subrange(j, j + 4) =~= two.subrange(j, j + 4));
            assert(occurs_at(one, next, j));
        }
    }
    assert(two.subrange(after + 1, two.len() as int) =~= body);
}

proof fn lemma_no_frontmatter(raw: Seq<char>)
    requires
        raw.len() > 0,
        raw[0] != '-',
    ensures
        without_frontmatter(raw) == raw,
{
    lemma_dashes();
    if begins(raw, "---\n"@) {
        assert(raw.take(4)[0] == raw[0]);
    }
    if begins(raw, "---\r\n"@) {
        assert(raw.take(5)[0] == raw[0]);
    }
}

proof fn lemma_section_found(before: Seq<char>, target: Seq<char>, rest: Seq<char>)
    requires
        target.len() > 0,
        !holds(before + target.drop_last(), target),
    ensures
        occurrence_from(before + target + rest, target, 0) == Some(before.len() as int),
{
    let s = before + target + rest;
    let n = before.len() as int;
    let t = before + target.drop_last();
    assert(s.subrange(n, n + target.len()) =~= target);
    assert forall|j: int| 0 <= j < n implies !#[trigger] occurs_at(s, target, j) by {
        let b = seq![target.last()] + rest;
        assert(s =~= Seq::<char>::empty() + t + b);
        lemma_not_inside(Seq::empty(), t, b, target, j);
    }
    lemma_first_at(s, target, 0, n);
}

/// A section whose heading is the last thing of the document has no text.
pub proof fn law_last_heading(before: Seq<char>, name: Seq<char>)
    requires
        before.len() > 0,
        before[0] != '-',
        one_line(name),
        !holds(before + (seq!['#', '#', ' '] + name).drop_last(), seq!['#', '#', ' '] + name),
    ensures
        section_text(before + seq!['#', '#', ' '] + name, name) is None,
{
    lemma_dashes();
    let target = seq!['#', '#', ' '] + name;
    let all = before + seq!['#', '#', ' '] + name;
    let after = before.len() + target.len();
    lemma_no_frontmatter(all);
    lemma_section_found(before, target, seq![]);
    assert(all =~= before + target + Seq::<char>::empty());
    assert(all.skip(after as int) =~= seq![]);
    lemma_position(all.skip(after as int), '\n');
    lemma_occurrence_from(all, seq!['\n', '#', '#', ' '], after as int);
    assert(all.subrange(after as int, after as int) =~= seq![]);
    assert(trimmed(Seq::<char>::empty()).len() == 0);
}

/// A reference stands for what its fields hold, and a list for its references in their order.
pub proof fn law_references_stand_for_their_fields(refs: Seq<CaseRef>, i: int)
    requires
        0 <= i < refs.len(),
    ensures
        case_views(refs).len() == refs.len(),
        case_views(refs)[i].court == refs[i].court@,
        case_views(refs)[i].case_number == refs[i].case_number@,
        refs[i].ruling_date is None ==> case_views(refs)[i].ruling_date is None,
        refs[i].ruling_date matches Some(d) ==> case_views(refs)[i].ruling_date == Some(d@),
        case_views(refs)[i].source == refs[i].source@,
{
}

} // verus!
