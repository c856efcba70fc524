//! User preferences and the choice of the theme.

use vstd::prelude::*;

use crate::text::same_str;
use crate::theme::{THEME_NAMES, named_index, Theme, theme_index_by_name, theme_views};

verus! {

/// Persistent user preferences.
#[derive(Debug, Clone, PartialEq, Eq)]
pub struct Preferences {
    /// Theme name.
    pub theme: String,
}

impl Default for Preferences {
    fn default() -> (prefs: Self)
        ensures
            prefs.theme@ == THEME_NAMES@[0]@,
    {
        Preferences { theme: default_theme_name().to_owned() }
    }
}

/// Whether a value of `TERM` names the Ghostty terminal.
pub open spec fn ghostty(term: Option<&str>) -> bool {
    match term {
        Some(t) => t@ == "xterm-ghostty"@,
        None => false,
    }
}

/// Returns `true` when running inside the Ghostty terminal, as `TERM` tells.
pub fn is_ghostty(term: Option<&str>) -> (r: bool)
    ensures
        r == ghostty(term),
{
    match term {
        Some(t) => same_str(t, "xterm-ghostty"),
        None => false,
    }
}

/// Pick the default theme name: that of the first built-in theme.
pub fn default_theme_name() -> (name: &'static str)
    ensures
        name@ == "Default"@,
        name@ == THEME_NAMES@[0]@,
{
    let names: [&'static str; 14] = THEME_NAMES;
    names[0]
}

/// The name of the theme in effect: in Ghostty always "FFE Dark"; else the one asked for on
/// the command line; else the saved one.
pub open spec fn effective_theme(
    term: Option<&str>,
    cli_theme: Option<&str>,
    saved_theme: Seq<char>,
) -> Seq<char> {
    if ghostty(term) {
        "FFE Dark"@
    } else {
        match cli_theme {
            Some(name) => name@,
            None => saved_theme,
        }
    }
}

/// Resolve the effective theme name.
///
/// Ghostty always forces `"FFE Dark"` regardless of the command line or saved preferences.
/// Otherwise: command line > saved preference.
pub fn resolve_theme_name<'a>(
    term: Option<&str>,
    cli_theme: Option<&'a str>,
    saved_theme: &'a str,
) -> (name: &'a str)
    ensures
        name@ == effective_theme(term, cli_theme, saved_theme@),
{
    if is_ghostty(term) {
        return "FFE Dark";
    }
    match cli_theme {
        Some(name) => name,
        None => saved_theme,
    }
}

/// The position after `i` in a ring of `len`.
pub open spec fn ring_next(i: int, len: int) -> int {
    (i + 1) % len
}

/// The position before `i` in a ring of `len`.
pub open spec fn ring_prev(i: int, len: int) -> int {
    (i + len - 1) % len
}

/// The position after `i` in a ring of `len`.
pub fn next_in_ring(i: usize, len: usize) -> (r: usize)
    requires
        i < len,
    ensures
        r == ring_next(i as int, len as int),
        r < len,
{
    (i + 1) % len
}

/// The position before `i` in a ring of `len`.
pub fn prev_in_ring(i: usize, len: usize) -> (r: usize)
    requires
        i < len,
    ensures
        r == ring_prev(i as int, len as int),
        r < len,
{
    if i == 0 {
        assert((len - 1) % (len as int) == len - 1) by (nonlinear_arith)
            requires
                len > 0,
        ;
        len - 1
    } else {
        assert((i + len - 1) % (len as int) == i - 1) by (nonlinear_arith)
            requires
                0 < i < len,
        ;
        i - 1
    }
}

/// Going forward and back in a ring, in either order, leads back.
pub proof fn law_ring_steps_cancel(i: int, len: int)
    requires
        0 <= i < len,
    ensures
        ring_prev(ring_next(i, len), len) == i,
        ring_next(ring_prev(i, len), len) == i,
        0 <= ring_next(i, len) < len,
        0 <= ring_prev(i, len) < len,
{
    if i + 1 < len {
        vstd::arithmetic::div_mod::lemma_small_mod((i + 1) as nat, len as nat);
        vstd::arithmetic::div_mod::lemma_mod_multiples_vanish(1, i, len);
        vstd::arithmetic::div_mod::lemma_small_mod(i as nat, len as nat);
    } else {
        vstd::arithmetic::div_mod::lemma_mod_self_0(len);
        vstd::arithmetic::div_mod::lemma_small_mod((len - 1) as nat, len as nat);
    }
    if i > 0 {
        vstd::arithmetic::div_mod::lemma_mod_multiples_vanish(1, i - 1, len);
        vstd::arithmetic::div_mod::lemma_small_mod((i - 1) as nat, len as nat);
        vstd::arithmetic::div_mod::lemma_small_mod(i as nat, len as nat);
    } else {
        vstd::arithmetic::div_mod::lemma_small_mod((len - 1) as nat, len as nat);
        vstd::arithmetic::div_mod::lemma_mod_self_0(len);
    }
}

/// The name of the theme after, or before, the one of the given name in the list of themes.
pub fn cycle_theme<'a>(themes: &'a Vec<Theme>, current: &str, forward: bool) -> (name: &'a str)
    requires
        themes@.len() > 0,
    ensures
        name@ == theme_views(themes@)[if forward {
            ring_next(named_index(theme_views(themes@), current@), themes@.len() as int)
        } else {
            ring_prev(named_index(theme_views(themes@), current@), themes@.len() as int)
        }].name,
{
    let i: usize = theme_index_by_name(themes, current);
    let next: usize = if forward {
        next_in_ring(i, themes.len())
    } else {
        prev_in_ring(i, themes.len())
    };
    themes[next].name.as_str()
}

/// A step in a ring goes to the neighbour, and around its end.
pub proof fn law_ring_steps(i: int, len: int)
    requires
        0 <= i < len,
    ensures
        i + 1 < len ==> ring_next(i, len) == i + 1,
        i + 1 == len ==> ring_next(i, len) == 0,
        i > 0 ==> ring_prev(i, len) == i - 1,
        i == 0 ==> ring_prev(i, len) == len - 1,
{
    if i + 1 < len {
        vstd::arithmetic::div_mod::lemma_small_mod((i + 1) as nat, len as nat);
    } else {
        vstd::arithmetic::div_mod::lemma_mod_self_0(len);
    }
    if i > 0 {
        vstd::arithmetic::div_mod::lemma_mod_add_multiples_vanish(i - 1, len);
        vstd::arithmetic::div_mod::lemma_small_mod((i - 1) as nat, len as nat);
    } else {
        vstd::arithmetic::div_mod::lemma_small_mod((len - 1) as nat, len as nat);
    }
}

/// In Ghostty the theme is fixed; elsewhere one that was asked for goes before the saved one.
pub proof fn law_effective_theme(term: Option<&str>, cli: Option<&str>, saved: Seq<char>)
    ensures
        term matches Some(t) && t@ == "xterm-ghostty"@ ==> effective_theme(term, cli, saved)
            == "FFE Dark"@,
        !(term matches Some(t) && t@ == "xterm-ghostty"@) ==> effective_theme(term, cli, saved) == (
        match cli {
            Some(name) => name@,
            None => saved,
        }),
{
}

} // verus!
