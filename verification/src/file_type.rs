//! What a file holds, judged by its content rather than its name.

use vstd::prelude::*;

use crate::text::{find_in_table, same_str, table_index};

verus! {

/// The outcome of content type detection.
#[derive(Debug, Clone)]
pub struct DetectedType {
    /// Short machine-readable label (e.g. `"markdown"`, `"rust"`, `"png"`).
    pub label: String,
    /// MIME type (e.g. `"text/markdown"`, `"image/png"`).
    pub mime_type: String,
    /// Human-readable description (e.g. `"Markdown document"`).
    pub description: String,
    /// Content group (e.g. `"text"`, `"image"`, `"executable"`).
    pub group: String,
    /// Confidence score from zero to one: the bits of a single-precision number.
    pub score_bits: u32,
    /// Whether the content is textual.
    pub is_text: bool,
}

/// The bits of the single-precision number nearest to seven tenths.
pub const CONFIDENT: u32 = 0x3f333333;

/// The bits of single-precision infinity. Above them lie what is not a number and, with the
/// sign bit set, everything negative.
pub const INFINITE: u32 = 0x7f800000;

/// Whether a score, given by its bits, is a number of at least seven tenths. The bits of
/// numbers that are not negative are in the same order as the numbers.
pub open spec fn confident(score_bits: u32) -> bool {
    CONFIDENT <= score_bits <= INFINITE
}

/// Returns `true` when the detected type indicates markdown content, with sufficient
/// confidence.
pub fn is_detected_markdown(detected: &DetectedType) -> (r: bool)
    ensures
        r == (confident(detected.score_bits) && detected.label@ == "markdown"@),
{
    CONFIDENT <= detected.score_bits && detected.score_bits <= INFINITE && same_str(
        detected.label.as_str(),
        "markdown",
    )
}

/// The content labels that stand for a programming or markup language.
pub const LABELS: [&'static str; 37] = ["rust", "python", "javascript", "typescript", "java", "c", "cpp", "csharp", "go", "ruby", "php", "swift", "kotlin", "scala", "shell", "bash", "zsh", "perl", "lua", "r", "sql", "html", "css", "xml", "json", "yaml", "toml", "ini", "dockerfile", "makefile", "cmake", "zig", "elixir", "erlang", "haskell", "ocaml", "latex"];

/// The language tags of [`LABELS`], in the same order.
pub const LANGS: [&'static str; 37] = ["rs", "py", "js", "ts", "java", "c", "cpp", "cs", "go", "rb", "php", "swift", "kt", "scala", "sh", "sh", "zsh", "pl", "lua", "r", "sql", "html", "css", "xml", "json", "yaml", "toml", "ini", "dockerfile", "makefile", "cmake", "zig", "ex", "erl", "hs", "ml", "tex"];

/// The language tag of a content label.
pub open spec fn label_lang(label: Seq<char>) -> Option<Seq<char>> {
    match table_index(LABELS@, label, 0) {
        Some(i) => Some(LANGS@[i]@),
        None => None,
    }
}

/// Map a content label to a syntax-highlighting language tag.
///
/// Returns `None` for labels that do not map to a known language (e.g. generic `"txt"` or
/// `"unknown"`).
pub fn label_to_lang(label: &str) -> (r: Option<&'static str>)
    ensures
        match r {
            Some(lang) => label_lang(label@) == Some(lang@),
            None => label_lang(label@) is None,
        },
{
    let labels: [&'static str; 37] = LABELS;
    let langs: [&'static str; 37] = LANGS;
    match find_in_table(labels.as_slice(), label) {
        Some(i) => Some(langs[i]),
        None => None,
    }
}

/// Which language each label stands for.
pub proof fn law_labels()
    ensures
        LABELS@[0]@ == "rust"@ && LANGS@[0]@ == "rs"@,
        LABELS@[1]@ == "python"@ && LANGS@[1]@ == "py"@,
        LABELS@[2]@ == "javascript"@ && LANGS@[2]@ == "js"@,
        LABELS@[3]@ == "typescript"@ && LANGS@[3]@ == "ts"@,
        LABELS@[4]@ == "java"@ && LANGS@[4]@ == "java"@,
        LABELS@[5]@ == "c"@ && LANGS@[5]@ == "c"@,
        LABELS@[6]@ == "cpp"@ && LANGS@[6]@ == "cpp"@,
        LABELS@[7]@ == "csharp"@ && LANGS@[7]@ == "cs"@,
        LABELS@[8]@ == "go"@ && LANGS@[8]@ == "go"@,
        LABELS@[9]@ == "ruby"@ && LANGS@[9]@ == "rb"@,
        LABELS@[10]@ == "php"@ && LANGS@[10]@ == "php"@,
        LABELS@[11]@ == "swift"@ && LANGS@[11]@ == "swift"@,
        LABELS@[12]@ == "kotlin"@ && LANGS@[12]@ == "kt"@,
        LABELS@[13]@ == "scala"@ && LANGS@[13]@ == "scala"@,
        LABELS@[14]@ == "shell"@ && LANGS@[14]@ == "sh"@,
        LABELS@[15]@ == "bash"@ && LANGS@[15]@ == "sh"@,
        LABELS@[16]@ == "zsh"@ && LANGS@[16]@ == "zsh"@,
        LABELS@[17]@ == "perl"@ && LANGS@[17]@ == "pl"@,
        LABELS@[18]@ == "lua"@ && LANGS@[18]@ == "lua"@,
        LABELS@[19]@ == "r"@ && LANGS@[19]@ == "r"@,
        LABELS@[20]@ == "sql"@ && LANGS@[20]@ == "sql"@,
        LABELS@[21]@ == "html"@ && LANGS@[21]@ == "html"@,
        LABELS@[22]@ == "css"@ && LANGS@[22]@ == "css"@,
        LABELS@[23]@ == "xml"@ && LANGS@[23]@ == "xml"@,
        LABELS@[24]@ == "json"@ && LANGS@[24]@ == "json"@,
        LABELS@[25]@ == "yaml"@ && LANGS@[25]@ == "yaml"@,
        LABELS@[26]@ == "toml"@ && LANGS@[26]@ == "toml"@,
        LABELS@[27]@ == "ini"@ && LANGS@[27]@ == "ini"@,
        LABELS@[28]@ == "dockerfile"@ && LANGS@[28]@ == "dockerfile"@,
        LABELS@[29]@ == "makefile"@ && LANGS@[29]@ == "makefile"@,
        LABELS@[30]@ == "cmake"@ && LANGS@[30]@ == "cmake"@,
        LABELS@[31]@ == "zig"@ && LANGS@[31]@ == "zig"@,
        LABELS@[32]@ == "elixir"@ && LANGS@[32]@ == "ex"@,
        LABELS@[33]@ == "erlang"@ && LANGS@[33]@ == "erl"@,
        LABELS@[34]@ == "haskell"@ && LANGS@[34]@ == "hs"@,
        LABELS@[35]@ == "ocaml"@ && LANGS@[35]@ == "ml"@,
        LABELS@[36]@ == "latex"@ && LANGS@[36]@ == "tex"@,
{
}

/// A label of the table stands for the language beside it, where it is listed first; others stand
/// for none.
pub proof fn law_languages_of_labels(label: Seq<char>, i: int)
    ensures
        0 <= i < 37 && LABELS@[i]@ == label && (forall|j: int|
            0 <= j < i ==> (#[trigger] LABELS@[j])@ != label) ==> label_lang(label) == Some(
            LANGS@[i]@,
        ),
        (forall|j: int| 0 <= j < 37 ==> (#[trigger] LABELS@[j])@ != label) ==> label_lang(
            label,
        ) is None,
{
    lemma_first_in_table(LABELS@, label, 0);
    match table_index(LABELS@, label, 0) {
        Some(k) => {
            assert(LABELS@[k]@ == label);
        },
        None => {},
    }
}

proof fn lemma_first_in_table(table: Seq<&'static str>, key: Seq<char>, from: int)
    requires
        0 <= from <= table.len(),
    ensures
        match table_index(table, key, from) {
            Some(i) => from <= i < table.len() && table[i]@ == key && forall|j: int|
                from <= j < i ==> (#[trigger] table[j])@ != key,
            None => forall|j: int| from <= j < table.len() ==> (#[trigger] table[j])@ != key,
        },
    decreases table.len() - from,
{
    if from < table.len() && table[from]@ != key {
        lemma_first_in_table(table, key, from + 1);
    }
}

/// A score counts where it is nearest to seven tenths or above: between a half and one, where its
/// bits count steps of two to the power of -24 beyond a half; not below that, and not where it is
/// negative or no number.
pub proof fn law_confident(score_bits: u32)
    ensures
        0x3f000000 <= score_bits < 0x3f800000 ==> (confident(score_bits) <==> 10 * (0x800000
            + score_bits - 0x3f000000) + 5 > 7 * 0x1000000),
        score_bits < 0x3f000000 ==> !confident(score_bits),
        0x3f800000 <= score_bits <= 0x7f800000 ==> confident(score_bits),
        score_bits > 0x7f800000 ==> !confident(score_bits),
{
}

} // verus!
