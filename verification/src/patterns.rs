//! The regular expressions that the viewer looks for.

use vstd::prelude::*;

use crate::text::texts;

verus! {

/// An inline link `[text](url)`. The groups are the text and the URL.
pub const MD_LINK: &'static str = r"\[([^\]]+)\]\(([^)]+)\)";

/// A bare URL at the beginning of the text or behind white space or an opening bracket. Both
/// groups are the URL.
pub const BARE_URL: &'static str = r"(?:^|[\s(<])((https?://[^\s)>]+))";

/// An image `![alt](path)` on a line of its own. The groups are the alt text and the path.
pub const IMAGE: &'static str = r"(?m)^\s*!\[([^\]]*)\]\(([^)]+)\)\s*$";

/// A full case citation. The groups are the court, the ruling date and the case number.
pub const STRUCTURED: &'static str =
    r"(대법원|헌법재판소)\s+(\d{4}\.\s*\d{1,2}\.\s*\d{1,2}\.)\s*선고\s+(\d{2,4}[가-힣]{1,3}\d+(?:_\d+)?)\s+(?:판결|결정)";

/// A case number by itself: digits, Korean syllables, digits. There are no groups.
pub const CASE_NUM: &'static str = r"\d{2,4}[가-힣]{1,3}\d+(?:_\d+)?";

/// A parenthesis that ends in the word for "see". The group is its content.
pub const PAREN_REF: &'static str = r"\(([^)]*참조)\)";

/// How many groups the patterns have.
pub open spec fn group_count(pattern: Seq<char>) -> nat {
    if pattern == STRUCTURED@ {
        3
    } else if pattern == CASE_NUM@ {
        0
    } else if pattern == PAREN_REF@ {
        1
    } else {
        2
    }
}

/// How many groups each pattern has.
pub proof fn lemma_group_counts()
    ensures
        group_count(MD_LINK@) == 2,
        group_count(BARE_URL@) == 2,
        group_count(IMAGE@) == 2,
        group_count(STRUCTURED@) == 3,
        group_count(CASE_NUM@) == 0,
        group_count(PAREN_REF@) == 1,
{
    reveal_strlit(r"\[([^\]]+)\]\(([^)]+)\)");
    reveal_strlit(r"(?:^|[\s(<])((https?://[^\s)>]+))");
    reveal_strlit(r"(?m)^\s*!\[([^\]]*)\]\(([^)]+)\)\s*$");
    reveal_strlit(r"(대법원|헌법재판소)\s+(\d{4}\.\s*\d{1,2}\.\s*\d{1,2}\.)\s*선고\s+(\d{2,4}[가-힣]{1,3}\d+(?:_\d+)?)\s+(?:판결|결정)");
    reveal_strlit(r"\d{2,4}[가-힣]{1,3}\d+(?:_\d+)?");
    reveal_strlit(r"\(([^)]*참조)\)");
    assert(MD_LINK@.len() == 23);
    assert(BARE_URL@.len() == 33);
    assert(IMAGE@.len() == 36);
    assert(STRUCTURED@.len() == 98);
    assert(CASE_NUM@.len() == 29);
    assert(PAREN_REF@.len() == 13);
}

/// Whether a text is one of the patterns.
pub open spec fn known_pattern(pattern: Seq<char>) -> bool {
    ||| pattern == MD_LINK@
    ||| pattern == BARE_URL@
    ||| pattern == IMAGE@
    ||| pattern == STRUCTURED@
    ||| pattern == CASE_NUM@
    ||| pattern == PAREN_REF@
}

/// What a list of matches stands for: of each match the whole, then its groups.
pub open spec fn match_texts(matches: Seq<Vec<String>>) -> Seq<Seq<Seq<char>>> {
    matches.map_values(|m: Vec<String>| texts(m@))
}

/// The matches of a pattern in a text, in order: of each the whole, then its groups.
pub uninterp spec fn found(pattern: Seq<char>, text: Seq<char>) -> Seq<Seq<Seq<char>>>;

/// `regex::Regex::captures_iter`: the successive matches of a pattern in a text that do not
/// overlap, each with its groups. Every match has one entry for the whole and one for each
/// group of the pattern.
#[verifier::external_body]
pub(crate) fn captures(pattern: &str, text: &str) -> (matches: Vec<Vec<String>>)
    requires
        known_pattern(pattern@),
    ensures
        match_texts(matches@) == found(pattern@, text@),
        forall|i: int|
            0 <= i < matches@.len() ==> (#[trigger] matches@[i])@.len() == group_count(pattern@)
                + 1,
{
    regex::Regex::new(pattern)
        .unwrap()
        .captures_iter(text)
        .map(|c| c.iter().map(|g| g.map_or(String::new(), |m| m.as_str().to_string())).collect())
        .collect()
}

/// What is looked for: links and images as markdown writes them, URLs by themselves, and citations
/// of Korean courts.
pub proof fn law_patterns()
    ensures
        MD_LINK@ == "\\[([^\\]]+)\\]\\(([^)]+)\\)"@,
        BARE_URL@ == "(?:^|[\\s(<])((https?://[^\\s)>]+))"@,
        IMAGE@ == "(?m)^\\s*!\\[([^\\]]*)\\]\\(([^)]+)\\)\\s*$"@,
        PAREN_REF@ == "\\(([^)]*참조)\\)"@,
        CASE_NUM@ == "\\d{2,4}[가-힣]{1,3}\\d+(?:_\\d+)?"@,
        STRUCTURED@ == "(대법원|헌법재판소)\\s+(\\d{4}\\.\\s*\\d{1,2}\\.\\s*\\d{1,2}\\.)\\s*선고\\s+(\\d{2,4}[가-힣]{1,3}\\d+(?:_\\d+)?)\\s+(?:판결|결정)"@,
{
}

} // verus!
