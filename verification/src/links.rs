//! Links of a markdown document.

use vstd::prelude::*;

use crate::patterns::{captures, found, lemma_group_counts, match_texts, BARE_URL, MD_LINK};
use crate::text::{chars_of, same_str, string_of};

verus! {

/// A link extracted from the markdown source.
#[derive(Debug, Clone, PartialEq, Eq)]
pub struct Link {
    /// The display text (label for `[text](url)`, or the URL itself for bare URLs).
    pub text: String,
    /// The URL.
    pub url: String,
}

/// What a [`Link`] stands for.
pub struct LinkView {
    pub text: Seq<char>,
    pub url: Seq<char>,
}

impl View for Link {
    type V = LinkView;

    open spec fn view(&self) -> LinkView {
        LinkView { text: self.text@, url: self.url@ }
    }
}

/// What a list of links stands for.
pub open spec fn link_views(links: Seq<Link>) -> Seq<LinkView> {
    links.map_values(|l: Link| l@)
}

/// Whether a list has a link to the given URL.
pub open spec fn has_url(links: Seq<LinkView>, url: Seq<char>) -> bool {
    exists|i: int| 0 <= i < links.len() && (#[trigger] links[i]).url == url
}

/// A list of links and one more, unless there is one to its URL already.
pub open spec fn with_link(links: Seq<LinkView>, link: LinkView) -> Seq<LinkView> {
    if has_url(links, link.url) {
        links
    } else {
        links.push(link)
    }
}

/// Whether a character is likely to end a sentence rather than to belong to a URL.
pub open spec fn sentence_end(c: char) -> bool {
    c == '.' || c == ',' || c == ';' || c == ':' || c == '!' || c == '?'
}

/// A URL without the punctuation at its end.
pub open spec fn without_punctuation(url: Seq<char>) -> Seq<char>
    decreases url.len(),
{
    if url.len() > 0 && sentence_end(url.last()) {
        without_punctuation(url.drop_last())
    } else {
        url
    }
}

/// The links that matches of [`MD_LINK`] give: text and URL of each, the first to every URL.
pub open spec fn inline_links(matches: Seq<Seq<Seq<char>>>) -> Seq<LinkView>
    decreases matches.len(),
{
    if matches.len() == 0 {
        seq![]
    } else {
        with_link(
            inline_links(matches.drop_last()),
            LinkView { text: matches.last()[1], url: matches.last()[2] },
        )
    }
}

/// `links`, and those that matches of [`BARE_URL`] give: the URL of each without the
/// punctuation at its end, unless nothing is left of it or it is there already.
pub open spec fn with_bare_links(links: Seq<LinkView>, matches: Seq<Seq<Seq<char>>>) -> Seq<LinkView>
    decreases matches.len(),
{
    if matches.len() == 0 {
        links
    } else {
        let before = with_bare_links(links, matches.drop_last());
        let url = without_punctuation(matches.last()[1]);
        if url.len() == 0 {
            before
        } else {
            with_link(before, LinkView { text: url, url })
        }
    }
}

fn add_link(links: &mut Vec<Link>, text: String, url: String)
    ensures
        link_views(final(links)@) == with_link(
            link_views(old(links)@),
            (LinkView { text: text@, url: url@ }),
        ),
{
    let ghost before = link_views(links@);
    let mut i: usize = 0;
    while i < links.len()
        invariant
            i <= links@.len(),
            links@ == old(links)@,
            before == link_views(links@),
            forall|j: int| 0 <= j < i ==> (#[trigger] before[j]).url != url@,
        decreases links@.len() - i,
    {
        assert(before[i as int].url == links@[i as int].url@);
        if same_str(links[i].url.as_str(), url.as_str()) {
            return;
        }
        i += 1;
    }
    let ghost view = LinkView { text: text@, url: url@ };
    links.push(Link { text, url });
    assert(link_views(links@) =~= before.push(view));
}

fn trim_punctuation(url: &str) -> (r: String)
    ensures
        r@ == without_punctuation(url@),
{
    let mut chars = chars_of(url);
    while chars.len() > 0 && (chars[chars.len() - 1] == '.' || chars[chars.len() - 1] == ','
        || chars[chars.len() - 1] == ';' || chars[chars.len() - 1] == ':' || chars[chars.len() - 1]
        == '!' || chars[chars.len() - 1] == '?')
        invariant
            without_punctuation(chars@) == without_punctuation(url@),
        decreases chars@.len(),
    {
        chars.pop();
    }
    string_of(&chars)
}

/// The links that matches of [`MD_LINK`] and [`BARE_URL`] give, the first to every URL.
pub fn collect_links(inline: &Vec<Vec<String>>, bare: &Vec<Vec<String>>) -> (links: Vec<Link>)
    requires
        forall|i: int| 0 <= i < inline@.len() ==> (#[trigger] inline@[i])@.len() == 3,
        forall|i: int| 0 <= i < bare@.len() ==> (#[trigger] bare@[i])@.len() == 3,
    ensures
        link_views(links@) == with_bare_links(
            inline_links(match_texts(inline@)),
            match_texts(bare@),
        ),
{
    let mut links: Vec<Link> = Vec::new();
    let ghost first = match_texts(inline@);
    let ghost second = match_texts(bare@);
    let mut i: usize = 0;
    assert(first.take(0) =~= seq![]);
    assert(link_views(links@) =~= inline_links(first.take(0)));
    while i < inline.len()
        invariant
            i <= inline@.len(),
            first == match_texts(inline@),
            forall|k: int| 0 <= k < inline@.len() ==> (#[trigger] inline@[k])@.len() == 3,
            link_views(links@) == inline_links(first.take(i as int)),
        decreases inline@.len() - i,
    {
        assert(first.take(i + 1).drop_last() =~= first.take(i as int));
        assert(first.take(i + 1).last() == first[i as int]);
        let m = &inline[i];
        add_link(&mut links, m[1].clone(), m[2].clone());
        i += 1;
    }
    assert(first.take(i as int) =~= first);
    let ghost named = link_views(links@);
    let mut j: usize = 0;
    assert(second.take(0) =~= seq![]);
    while j < bare.len()
        invariant
            j <= bare@.len(),
            second == match_texts(bare@),
            forall|k: int| 0 <= k < bare@.len() ==> (#[trigger] bare@[k])@.len() == 3,
            link_views(links@) == with_bare_links(named, second.take(j as int)),
        decreases bare@.len() - j,
    {
        assert(second.take(j + 1).drop_last() =~= second.take(j as int));
        assert(second.take(j + 1).last() == second[j as int]);
        let m = &bare[j];
        let url = trim_punctuation(m[1].as_str());
        if !url.as_str().is_empty() {
            add_link(&mut links, url.clone(), url);
        }
        j += 1;
    }
    assert(second.take(j as int) =~= second);
    links
}

/// Extract all links from markdown source: `[text](url)` inline links, then bare URLs
/// (`https://...` or `http://...`). Only the first link to every URL counts.
pub fn extract_links(markdown: &str) -> (links: Vec<Link>)
    ensures
        link_views(links@) == with_bare_links(
            inline_links(found(MD_LINK@, markdown@)),
            found(BARE_URL@, markdown@),
        ),
{
    proof {
        lemma_group_counts();
    }
    let inline = captures(MD_LINK, markdown);
    let bare = captures(BARE_URL, markdown);
    collect_links(&inline, &bare)
}

/// No two links lead to the same URL, whatever was found.
pub proof fn law_links_unique(inline: Seq<Seq<Seq<char>>>, bare: Seq<Seq<Seq<char>>>)
    ensures
        unique_urls(with_bare_links(inline_links(inline), bare)),
    decreases bare.len(),
{
    if bare.len() == 0 {
        lemma_inline_links_unique(inline);
    } else {
        law_links_unique(inline, bare.drop_last());
    }
}

/// No URL stands twice in a list.
pub open spec fn unique_urls(links: Seq<LinkView>) -> bool {
    forall|i: int, j: int|
        0 <= i < j < links.len() ==> (#[trigger] links[i]).url != (#[trigger] links[j]).url
}

proof fn lemma_inline_links_unique(matches: Seq<Seq<Seq<char>>>)
    ensures
        unique_urls(inline_links(matches)),
    decreases matches.len(),
{
    if matches.len() > 0 {
        lemma_inline_links_unique(matches.drop_last());
    }
}

/// Every URL that was found has its link: as it is behind `[text]`, without the punctuation at
/// its end by itself.
pub proof fn law_links_complete(inline: Seq<Seq<Seq<char>>>, bare: Seq<Seq<Seq<char>>>)
    ensures
        forall|i: int|
            0 <= i < inline.len() ==> has_url(
                with_bare_links(inline_links(inline), bare),
                (#[trigger] inline[i])[2],
            ),
        forall|i: int|
            0 <= i < bare.len() && without_punctuation((#[trigger] bare[i])[1]).len() > 0
                ==> has_url(
                with_bare_links(inline_links(inline), bare),
                without_punctuation(bare[i][1]),
            ),
    decreases bare.len(),
{
    let all = with_bare_links(inline_links(inline), bare);
    if bare.len() == 0 {
        lemma_inline_links_complete(inline);
    } else {
        let before = with_bare_links(inline_links(inline), bare.drop_last());
        law_links_complete(inline, bare.drop_last());
        let url = without_punctuation(bare.last()[1]);
        assert forall|u: Seq<char>| has_url(before, u) implies has_url(all, u) by {
            let k = choose|k: int| 0 <= k < before.len() && (#[trigger] before[k]).url == u;
            assert(all[k].url == u);
        }
        if url.len() > 0 && !has_url(before, url) {
            assert(all[before.len() as int].url == url);
        }
        assert forall|i: int|
            0 <= i < bare.len() && without_punctuation((#[trigger] bare[i])[1]).len()
                > 0 implies has_url(all, without_punctuation(bare[i][1])) by {
            if i < bare.len() - 1 {
                assert(bare[i] == bare.drop_last()[i]);
            }
        }
    }
}

proof fn lemma_inline_links_complete(matches: Seq<Seq<Seq<char>>>)
    ensures
        forall|i: int|
            0 <= i < matches.len() ==> has_url(inline_links(matches), (#[trigger] matches[i])[2]),
    decreases matches.len(),
{
    if matches.len() > 0 {
        lemma_inline_links_complete(matches.drop_last());
        let before = inline_links(matches.drop_last());
        let all = inline_links(matches);
        assert forall|u: Seq<char>| has_url(before, u) implies has_url(all, u) by {
            let k = choose|k: int| 0 <= k < before.len() && (#[trigger] before[k]).url == u;
            assert(all[k].url == u);
        }
        let url = matches.last()[2];
        if !has_url(before, url) {
            assert(all[before.len() as int].url == url);
        }
        assert forall|i: int| 0 <= i < matches.len() implies has_url(
            all,
            (#[trigger] matches[i])[2],
        ) by {
            if i < matches.len() - 1 {
                assert(matches[i] == matches.drop_last()[i]);
            }
        }
    }
}

/// The punctuation that ends a sentence is no part of a link: none of it is left at the end, and
/// nothing else is taken away.
pub proof fn law_punctuation(url: Seq<char>, end: Seq<char>)
    requires
        forall|i: int|
            0 <= i < end.len() ==> {
                let c = #[trigger] end[i];
                c == '.' || c == ',' || c == ';' || c == ':' || c == '!' || c == '?'
            },
        url.len() > 0 ==> {
            let c = url.last();
            c != '.' && c != ',' && c != ';' && c != ':' && c != '!' && c != '?'
        },
    ensures
        without_punctuation(url + end) == url,
    decreases end.len(),
{
    if end.len() == 0 {
        assert(url + end =~= url);
    } else {
        assert((url + end).drop_last() =~= url + end.drop_last());
        assert((url + end).last() == end.last());
        assert(end.last() == end[end.len() - 1]);
        law_punctuation(url, end.drop_last());
    }
}

/// Every link is one that was found: an inline link with its text and its address, or an address
/// that stands for itself.
pub proof fn law_links_are_those_found(
    inline: Seq<Seq<Seq<char>>>,
    bare: Seq<Seq<Seq<char>>>,
    k: int,
)
    requires
        0 <= k < with_bare_links(inline_links(inline), bare).len(),
    ensures
        ({
            let l = with_bare_links(inline_links(inline), bare)[k];
            ||| exists|i: int|
                0 <= i < inline.len() && l.text == (#[trigger] inline[i])[1] && l.url
                    == inline[i][2]
            ||| exists|i: int|
                0 <= i < bare.len() && l.url == without_punctuation((#[trigger] bare[i])[1])
                    && l.text == l.url
        }),
    decreases bare.len() + inline.len(),
{
    if bare.len() > 0 {
        let before = with_bare_links(inline_links(inline), bare.drop_last());
        if k < before.len() {
            law_links_are_those_found(inline, bare.drop_last(), k);
            let l = before[k];
            assert forall|i: int| 0 <= i < bare.drop_last().len() implies #[trigger] bare[i]
                == bare.drop_last()[i] by {}
            if exists|i: int|
                0 <= i < bare.drop_last().len() && l.url == without_punctuation(
                    (#[trigger] bare.drop_last()[i])[1],
                ) && l.text == l.url {
                let i = choose|i: int|
                    0 <= i < bare.drop_last().len() && l.url == without_punctuation(
                        (#[trigger] bare.drop_last()[i])[1],
                    ) && l.text == l.url;
                assert(bare[i] == bare.drop_last()[i]);
            }
        } else {
            assert(bare[bare.len() - 1] == bare.last());
        }
    } else if inline.len() > 0 {
        let before = inline_links(inline.drop_last());
        if k < before.len() {
            law_links_are_those_found(inline.drop_last(), bare, k);
            let l = before[k];
            if exists|i: int|
                0 <= i < inline.drop_last().len() && l.text == (#[trigger] inline.drop_last()[i])[1]
                    && l.url == inline.drop_last()[i][2] {
                let i = choose|i: int|
                    0 <= i < inline.drop_last().len() && l.text == (
                    #[trigger] inline.drop_last()[i])[1] && l.url == inline.drop_last()[i][2];
                assert(inline[i] == inline.drop_last()[i]);
            }
        } else {
            assert(inline[inline.len() - 1] == inline.last());
        }
    }
}

/// A link stands for its text and its URL, and a list for its links in their order.
pub proof fn law_links_stand_for_their_fields(links: Seq<Link>, i: int)
    requires
        0 <= i < links.len(),
    ensures
        link_views(links).len() == links.len(),
        link_views(links)[i].text == links[i].text@,
        link_views(links)[i].url == links[i].url@,
{
}

} // verus!
