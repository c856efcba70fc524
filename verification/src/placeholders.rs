//! Images and diagrams in the text: where they stand, and the blank lines that keep their place.

use vstd::prelude::*;

use crate::images::{
    estimate_image_rows, estimated_rows, header_agrees, header_of, image_size,
    law_estimate_is_shown, load_image, load_image_from_bytes, loaded_view, loads_as,
    optional_bytes, size_in,
};
use crate::mermaid::{diagram_views, DiagramView, MermaidBlock};
use crate::paths::{join, joined};
use crate::patterns::{captures, found, lemma_group_counts, match_texts, IMAGE};
use crate::text::{
    chars_of, end_as, ended_as, lemma_lines_whole, lines_of, one_line, push_chars, push_repeated,
    repeated, split_lines, string_of, views, within,
};

verus! {

/// A parsed image reference from the markdown source.
#[derive(Debug, Clone)]
pub struct ImageRef {
    /// The alt text (used as fallback display).
    pub alt: String,
    /// The resolved path to the image file.
    pub path: String,
    /// The line index in the *original* markdown where `![alt](path)` appeared.
    pub source_line: usize,
}

/// What an [`ImageRef`] stands for.
pub struct ImageRefView {
    pub alt: Seq<char>,
    pub path: Seq<char>,
    pub line: int,
}

impl View for ImageRef {
    type V = ImageRefView;

    open spec fn view(&self) -> ImageRefView {
        ImageRefView { alt: self.alt@, path: self.path@, line: self.source_line as int }
    }
}

/// What a list of references stands for.
pub open spec fn ref_views(images: Seq<ImageRef>) -> Seq<ImageRefView> {
    images.map_values(|i: ImageRef| i@)
}

/// A positioned image ready for rendering.
#[derive(Debug, Clone)]
pub struct ImagePlacement {
    /// PNG-encoded bytes of the (possibly resized) image.
    pub png_data: Vec<u8>,
    /// The row index (0-based, relative to content start) where the placeholder begins.
    pub content_row: usize,
    /// Display width in terminal columns.
    pub cols: u16,
    /// Display height in terminal rows.
    pub rows: u16,
    /// Alt text for fallback.
    pub alt: String,
}

/// What an [`ImagePlacement`] stands for.
pub struct PlacementView {
    pub png: Seq<u8>,
    pub row: int,
    pub cols: u16,
    pub rows: u16,
    pub alt: Seq<char>,
}

impl View for ImagePlacement {
    type V = PlacementView;

    open spec fn view(&self) -> PlacementView {
        PlacementView {
            png: self.png_data@,
            row: self.content_row as int,
            cols: self.cols,
            rows: self.rows,
            alt: self.alt@,
        }
    }
}

/// What a list of placements stands for.
pub open spec fn placement_views(placements: Seq<ImagePlacement>) -> Seq<PlacementView> {
    placements.map_values(|p: ImagePlacement| p@)
}

// ---------------------------------------------------------------- scanning

/// The references that the matches of [`IMAGE`] in each line give, the first of every line:
/// paths that are not absolute are behind the base directory.
pub open spec fn images_found(matches: Seq<Seq<Seq<Seq<char>>>>, base: Seq<char>) -> Seq<
    ImageRefView,
>
    decreases matches.len(),
{
    if matches.len() == 0 {
        seq![]
    } else {
        let before = images_found(matches.drop_last(), base);
        if matches.last().len() > 0 {
            let m = matches.last()[0];
            before.push(
                ImageRefView { alt: m[1], path: joined(base, m[2]), line: matches.len() - 1 },
            )
        } else {
            before
        }
    }
}

/// What the matches in each line stand for.
pub open spec fn line_matches(matches: Seq<Vec<Vec<String>>>) -> Seq<Seq<Seq<Seq<char>>>> {
    matches.map_values(|m: Vec<Vec<String>>| match_texts(m@))
}

/// The matches of [`IMAGE`] in each line.
pub open spec fn image_matches(lines: Seq<Seq<char>>) -> Seq<Seq<Seq<Seq<char>>>> {
    lines.map_values(|line: Seq<char>| found(IMAGE@, line))
}

/// Whether every match in a line has a whole, an alt text and a path.
pub open spec fn has_groups(matches: Seq<Vec<String>>) -> bool {
    forall|i: int| 0 <= i < matches.len() ==> (#[trigger] matches[i])@.len() == 3
}

/// The references that the matches of [`IMAGE`] in each line give.
pub fn collect_images(matches: &Vec<Vec<Vec<String>>>, base_dir: &str) -> (images: Vec<ImageRef>)
    requires
        forall|i: int| 0 <= i < matches@.len() ==> has_groups((#[trigger] matches@[i])@),
    ensures
        ref_views(images@) == images_found(line_matches(matches@), base_dir@),
{
    let base = chars_of(base_dir);
    let ghost all = line_matches(matches@);
    let mut images: Vec<ImageRef> = Vec::new();
    let mut i: usize = 0;
    assert(all.take(0) =~= seq![]);
    assert(ref_views(images@) =~= seq![]);
    while i < matches.len()
        invariant
            i <= matches@.len(),
            all == line_matches(matches@),
            base@ == base_dir@,
            forall|k: int| 0 <= k < matches@.len() ==> has_groups((#[trigger] matches@[k])@),
            ref_views(images@) == images_found(all.take(i as int), base@),
        decreases matches@.len() - i,
    {
        assert(all.take(i + 1).drop_last() =~= all.take(i as int));
        assert(all.take(i + 1).last() == all[i as int]);
        let line = &matches[i];
        if line.len() > 0 {
            assert(has_groups(line@));
            let m = &line[0];
            assert(m@.len() == 3);
            assert(all[i as int][0][1] == m@[1]@);
            assert(all[i as int][0][2] == m@[2]@);
            let path = join(&base, &chars_of(m[2].as_str()));
            let image = ImageRef {
                alt: m[1].clone(),
                path: string_of(&path),
                source_line: i,
            };
            let ghost before = images@;
            images.push(image);
            assert(ref_views(images@) =~= ref_views(before).push(image@));
        }
        i += 1;
    }
    assert(all.take(i as int) =~= all);
    images
}

/// Extract all `![alt](path)` references from markdown source.
///
/// Only matches images that appear on their own line (possibly with leading whitespace). Inline
/// images mixed with text are ignored for now.
pub fn extract_images(markdown: &str, base_dir: &str) -> (images: Vec<ImageRef>)
    ensures
        ref_views(images@) == images_found(image_matches(lines_of(markdown@)), base_dir@),
{
    let lines = split_lines(&chars_of(markdown));
    let ghost all = lines_of(markdown@);
    let mut matches: Vec<Vec<Vec<String>>> = Vec::new();
    let mut i: usize = 0;
    while i < lines.len()
        invariant
            i <= lines@.len(),
            all == views(lines@),
            matches@.len() == i,
            forall|k: int| 0 <= k < i ==> has_groups((#[trigger] matches@[k])@),
            forall|k: int|
                0 <= k < i ==> match_texts((#[trigger] matches@[k])@) == found(IMAGE@, all[k]),
        decreases lines@.len() - i,
    {
        proof {
            lemma_group_counts();
        }
        let m = captures(IMAGE, string_of(&lines[i]).as_str());
        matches.push(m);
        i += 1;
    }
    assert(line_matches(matches@) =~= image_matches(all));
    collect_images(&matches, base_dir)
}

// ---------------------------------------------------------------- replacing images

/// Whether one of the references stands on a line.
pub open spec fn image_line(images: Seq<ImageRefView>, line: int) -> bool {
    exists|i: int| 0 <= i < images.len() && (#[trigger] images[i]).line == line
}

/// What becomes of a line: as many line ends as an image has rows where one stands, else the
/// line itself with its end.
pub open spec fn line_or_rows(line: Seq<char>, image: bool, rows: nat) -> Seq<char> {
    if image {
        repeated('\n', rows)
    } else {
        line.push('\n')
    }
}

/// The lines with blank ones in place of every image.
pub open spec fn lines_replaced(
    lines: Seq<Seq<char>>,
    images: Seq<ImageRefView>,
    rows: nat,
) -> Seq<char>
    decreases lines.len(),
{
    if lines.len() == 0 {
        seq![]
    } else {
        lines_replaced(lines.drop_last(), images, rows) + line_or_rows(
            lines.last(),
            image_line(images, lines.len() - 1),
            rows,
        )
    }
}

/// How many rows the lines take with `rows` in place of every image.
pub open spec fn rows_taken(n: int, images: Seq<ImageRefView>, rows: nat) -> nat
    decreases n,
{
    if n <= 0 {
        0
    } else {
        rows_taken(n - 1, images, rows) + (if image_line(images, n - 1) {
            rows
        } else {
            1
        })
    }
}

/// The rows at which the blank lines of the images on the first `n` lines begin.
pub open spec fn image_rows(n: int, images: Seq<ImageRefView>, rows: nat) -> Seq<nat>
    decreases n,
{
    if n <= 0 {
        seq![]
    } else {
        let before = image_rows(n - 1, images, rows);
        if image_line(images, n - 1) {
            before.push(rows_taken(n - 1, images, rows))
        } else {
            before
        }
    }
}

fn is_image_line(images: &Vec<ImageRef>, line: usize) -> (r: bool)
    ensures
        r == image_line(ref_views(images@), line as int),
{
    let ghost all = ref_views(images@);
    let mut i: usize = 0;
    while i < images.len()
        invariant
            i <= images@.len(),
            all == ref_views(images@),
            forall|j: int| 0 <= j < i ==> (#[trigger] all[j]).line != line,
        decreases images@.len() - i,
    {
        assert(all[i as int].line == images@[i as int].source_line);
        if images[i].source_line == line {
            return true;
        }
        i += 1;
    }
    false
}

/// Numbers of rows, as positions in the text.
pub open spec fn row_numbers(rows: Seq<usize>) -> Seq<nat> {
    rows.map_values(|r: usize| r as nat)
}

/// Replace image lines in markdown with placeholder blank lines.
///
/// Each `![alt](path)` line is replaced with `rows_per_image` blank lines so the terminal
/// reserves vertical space for the image. Returns the modified markdown and the content rows
/// where the placeholders start.
pub fn replace_images(markdown: &str, images: &Vec<ImageRef>, rows_per_image: u16) -> (r: (
    String,
    Vec<usize>,
))
    ensures
        images@.len() == 0 ==> r.0@ == markdown@ && r.1@.len() == 0,
        images@.len() > 0 ==> r.0@ == ended_as(
            lines_replaced(lines_of(markdown@), ref_views(images@), rows_per_image as nat),
            markdown@,
        ),
        images@.len() > 0 ==> row_numbers(r.1@) == image_rows(
            lines_of(markdown@).len() as int,
            ref_views(images@),
            rows_per_image as nat,
        ),
{
    if images.len() == 0 {
        return (markdown.to_owned(), Vec::new());
    }
    let chars = chars_of(markdown);
    let lines = split_lines(&chars);
    let ghost all = lines_of(markdown@);
    let ghost refs = ref_views(images@);
    let ghost per = rows_per_image as nat;
    let mut out: Vec<char> = Vec::new();
    let mut rows: Vec<usize> = Vec::new();
    let mut count: usize = 0;
    let mut i: usize = 0;
    assert(all.take(0) =~= seq![]);
    assert(row_numbers(rows@) =~= seq![]);
    while i < lines.len()
        invariant
            i <= lines@.len(),
            all == views(lines@),
            refs == ref_views(images@),
            per == rows_per_image,
            count <= out@.len(),
            count == rows_taken(i as int, refs, per),
            out@ == lines_replaced(all.take(i as int), refs, per),
            row_numbers(rows@) == image_rows(i as int, refs, per),
        decreases lines@.len() - i,
    {
        assert(all.take(i + 1).drop_last() =~= all.take(i as int));
        assert(all.take(i + 1).last() == lines@[i as int]@);
        let ghost before = out@;
        if is_image_line(images, i) {
            let ghost marked = rows@;
            rows.push(count);
            assert(row_numbers(rows@) =~= row_numbers(marked).push(count as nat));
            push_repeated(&mut out, '\n', rows_per_image as usize);
            let len: usize = out.len();
            assert(count + rows_per_image <= len);
            count = count + rows_per_image as usize;
        } else {
            push_chars(&mut out, &lines[i]);
            out.push('\n');
            let len: usize = out.len();
            assert(count + 1 <= len);
            count = count + 1;
            assert(out@ =~= before + lines@[i as int]@.push('\n'));
        }
        i += 1;
    }
    assert(all.take(i as int) =~= all);
    end_as(&mut out, &chars);
    (string_of(&out), rows)
}

// ---------------------------------------------------------------- replacing ranges of lines

/// A line range in the original markdown to replace with placeholder rows.
#[derive(Debug, Clone)]
pub struct Replacement {
    /// First line of the range (inclusive).
    pub start_line: usize,
    /// Last line of the range (inclusive).
    pub end_line: usize,
    /// Number of blank placeholder rows to insert.
    pub placeholder_rows: u16,
    /// Pre-loaded PNG data for this replacement (if available).
    pub png_data: Option<Vec<u8>>,
    /// Display dimensions in terminal cells.
    pub display_cols: u16,
    /// Display dimensions in terminal cells.
    pub display_rows: u16,
    /// Alt text / label.
    pub alt: String,
}

/// What a [`Replacement`] stands for.
pub struct ReplacementView {
    pub start: int,
    pub end: int,
    pub blank_rows: nat,
    pub png: Option<Seq<u8>>,
    pub cols: u16,
    pub rows: u16,
    pub alt: Seq<char>,
}

impl View for Replacement {
    type V = ReplacementView;

    open spec fn view(&self) -> ReplacementView {
        ReplacementView {
            start: self.start_line as int,
            end: self.end_line as int,
            blank_rows: self.placeholder_rows as nat,
            png: optional_bytes(self.png_data),
            cols: self.display_cols,
            rows: self.display_rows,
            alt: self.alt@,
        }
    }
}

/// What a list of replacements stands for.
pub open spec fn replacement_views(replacements: Seq<Replacement>) -> Seq<ReplacementView> {
    replacements.map_values(|r: Replacement| r@)
}

/// A list, in order, with a replacement put behind those that do not begin after it.
pub open spec fn inserted(list: Seq<ReplacementView>, r: ReplacementView) -> Seq<ReplacementView>
    decreases list.len(),
{
    if list.len() > 0 && list.last().start > r.start {
        inserted(list.drop_last(), r).push(list.last())
    } else {
        list.push(r)
    }
}

/// The replacements in the order of their first lines, those that begin on the same line in the
/// order they had.
pub open spec fn in_order(list: Seq<ReplacementView>) -> Seq<ReplacementView>
    decreases list.len(),
{
    if list.len() == 0 {
        seq![]
    } else {
        inserted(in_order(list.drop_last()), list.last())
    }
}

/// How far the lines have been written.
pub struct Progress {
    /// The text written.
    pub text: Seq<char>,
    /// The images placed.
    pub placements: Seq<PlacementView>,
    /// How many rows the text has.
    pub row: nat,
    /// The replacement that comes next.
    pub next: int,
    /// The first line that is not covered by a replacement.
    pub resume: int,
}

/// The placement that a replacement gives, if it has an image.
pub open spec fn placed(r: ReplacementView, row: nat) -> Seq<PlacementView> {
    match r.png {
        Some(png) => seq![
            PlacementView { png, row: row as int, cols: r.cols, rows: r.rows, alt: r.alt },
        ],
        None => seq![],
    }
}

/// Progress after a line where a replacement begins.
pub open spec fn replaced_at(before: Progress, r: ReplacementView) -> Progress {
    Progress {
        text: before.text + repeated('\n', r.blank_rows),
        placements: before.placements + placed(r, before.row),
        row: before.row + r.blank_rows,
        next: before.next + 1,
        resume: if r.end > r.start {
            r.end + 1
        } else {
            before.resume
        },
    }
}

/// Progress after the first `n` lines: a line that a replacement covers is left out; where the
/// next replacement begins its blank rows are written and its image is placed on them; any
/// other line is written as it is.
pub open spec fn progress(lines: Seq<Seq<char>>, list: Seq<ReplacementView>, n: int) -> Progress
    decreases n,
{
    if n <= 0 {
        Progress { text: seq![], placements: seq![], row: 0, next: 0, resume: 0 }
    } else {
        let before = progress(lines, list, n - 1);
        if n - 1 < before.resume {
            before
        } else if before.next < list.len() && list[before.next].start == n - 1 {
            replaced_at(before, list[before.next])
        } else {
            Progress { text: before.text + lines[n - 1].push('\n'), row: before.row + 1, ..before }
        }
    }
}

/// Progress after all lines of a text, for replacements in any order.
pub open spec fn all_replaced(markdown: Seq<char>, list: Seq<ReplacementView>) -> Progress {
    progress(lines_of(markdown), in_order(list), lines_of(markdown).len() as int)
}

/// A text with its replacements made. Without any it stays as it is.
pub open spec fn processed_text(markdown: Seq<char>, list: Seq<ReplacementView>) -> Seq<char> {
    if list.len() == 0 {
        markdown
    } else {
        ended_as(all_replaced(markdown, list).text, markdown)
    }
}

fn copy_bytes(bytes: &Vec<u8>) -> (r: Vec<u8>)
    ensures
        r@ == bytes@,
{
    let r = bytes.clone();
    assert(r@ =~= bytes@);
    r
}

fn copy_optional(bytes: &Option<Vec<u8>>) -> (r: Option<Vec<u8>>)
    ensures
        optional_bytes(r) == optional_bytes(*bytes),
{
    match bytes {
        Some(b) => Some(copy_bytes(b)),
        None => None,
    }
}

fn copy_replacement(r: &Replacement) -> (copy: Replacement)
    ensures
        copy@ == r@,
{
    Replacement {
        start_line: r.start_line,
        end_line: r.end_line,
        placeholder_rows: r.placeholder_rows,
        png_data: copy_optional(&r.png_data),
        display_cols: r.display_cols,
        display_rows: r.display_rows,
        alt: r.alt.clone(),
    }
}

proof fn lemma_inserted_behind(list: Seq<ReplacementView>, r: ReplacementView, i: int)
    requires
        0 <= i <= list.len(),
        forall|j: int| i <= j < list.len() ==> (#[trigger] list[j]).start > r.start,
        i > 0 ==> list[i - 1].start <= r.start,
    ensures
        inserted(list, r) == list.insert(i, r),
    decreases list.len(),
{
    if i < list.len() {
        let shorter = list.drop_last();
        assert(list.last() == list[list.len() - 1]);
        assert forall|j: int| i <= j < shorter.len() implies (#[trigger] shorter[j]).start
            > r.start by {
            assert(shorter[j] == list[j]);
        }
        lemma_inserted_behind(shorter, r, i);
        assert(list.insert(i, r) =~= shorter.insert(i, r).push(list.last()));
    } else {
        if list.len() > 0 {
            assert(list.last() == list[i - 1]);
        }
        assert(list.insert(i, r) =~= list.push(r));
    }
}

fn insert_in_order(list: &mut Vec<Replacement>, r: Replacement)
    ensures
        replacement_views(final(list)@) == inserted(replacement_views(old(list)@), r@),
{
    let ghost before = replacement_views(list@);
    let mut i: usize = list.len();
    while i > 0 && list[i - 1].start_line > r.start_line
        invariant
            i <= list@.len(),
            list@ == old(list)@,
            before == replacement_views(list@),
            forall|j: int| i <= j < before.len() ==> (#[trigger] before[j]).start > r@.start,
        decreases i,
    {
        assert(before[i - 1].start == list@[i - 1].start_line);
        i -= 1;
    }
    proof {
        if i > 0 {
            assert(before[i - 1].start == list@[i - 1].start_line);
        }
        lemma_inserted_behind(before, r@, i as int);
    }
    let ghost view = r@;
    list.insert(i, r);
    assert(replacement_views(list@) =~= before.insert(i as int, view));
}

fn sort_replacements(list: &Vec<Replacement>) -> (sorted: Vec<Replacement>)
    ensures
        replacement_views(sorted@) == in_order(replacement_views(list@)),
{
    let ghost all = replacement_views(list@);
    let mut sorted: Vec<Replacement> = Vec::new();
    let mut i: usize = 0;
    assert(all.take(0) =~= seq![]);
    assert(replacement_views(sorted@) =~= seq![]);
    while i < list.len()
        invariant
            i <= list@.len(),
            all == replacement_views(list@),
            replacement_views(sorted@) == in_order(all.take(i as int)),
        decreases list@.len() - i,
    {
        assert(all.take(i + 1).drop_last() =~= all.take(i as int));
        assert(all.take(i + 1).last() == list@[i as int]@);
        insert_in_order(&mut sorted, copy_replacement(&list[i]));
        i += 1;
    }
    assert(all.take(i as int) =~= all);
    sorted
}

fn push_placement(placements: &mut Vec<ImagePlacement>, r: &Replacement, row: usize)
    ensures
        placement_views(final(placements)@) == placement_views(old(placements)@) + placed(
            r@,
            row as nat,
        ),
{
    let ghost before = placement_views(placements@);
    match &r.png_data {
        Some(png) => {
            let p = ImagePlacement {
                png_data: copy_bytes(png),
                content_row: row,
                cols: r.display_cols,
                rows: r.display_rows,
                alt: r.alt.clone(),
            };
            placements.push(p);
            assert(placement_views(placements@) =~= before.push(p@));
            assert(before.push(p@) =~= before + placed(r@, row as nat));
        },
        None => {
            assert(before + placed(r@, row as nat) =~= before);
        },
    }
}

/// Replace ranges of lines by blank rows, and place the images on them. A replacement takes
/// effect once the ones before it in the order of their first lines have; lines that one covers
/// are left out.
pub fn place_replacements(markdown: &str, replacements: &Vec<Replacement>) -> (r: (
    String,
    Vec<ImagePlacement>,
))
    ensures
        r.0@ == processed_text(markdown@, replacement_views(replacements@)),
        placement_views(r.1@) == all_replaced(
            markdown@,
            replacement_views(replacements@),
        ).placements,
{
    let chars = chars_of(markdown);
    let lines = split_lines(&chars);
    let list = sort_replacements(replacements);
    let ghost all = lines_of(markdown@);
    let ghost views_of = replacement_views(list@);
    if replacements.len() == 0 {
        let none: Vec<ImagePlacement> = Vec::new();
        proof {
            assert(views_of =~= seq![]);
            lemma_nothing_placed(all, views_of, all.len() as int);
            assert(placement_views(none@) =~= seq![]);
        }
        return (markdown.to_owned(), none);
    }
    let mut out: Vec<char> = Vec::new();
    let mut placements: Vec<ImagePlacement> = Vec::new();
    let mut count: usize = 0;
    let mut next: usize = 0;
    let mut skip_until: Option<usize> = None;
    let mut i: usize = 0;
    assert(placement_views(placements@) =~= seq![]);
    while i < lines.len()
        invariant
            i <= lines@.len(),
            all == views(lines@),
            views_of == replacement_views(list@),
            next <= list@.len(),
            count <= out@.len(),
            ({
                let p = progress(all, views_of, i as int);
                &&& p.text == out@
                &&& p.placements == placement_views(placements@)
                &&& p.row == count
                &&& p.next == next
                &&& match skip_until {
                    Some(end) => p.resume == end + 1,
                    None => p.resume <= i,
                }
            }),
        decreases lines@.len() - i,
    {
        let covered = match skip_until {
            Some(end) => i <= end,
            None => false,
        };
        if !covered {
            skip_until = None;
            if next < list.len() && list[next].start_line == i {
                let r = &list[next];
                assert(views_of[next as int] == r@);
                push_placement(&mut placements, r, count);
                push_repeated(&mut out, '\n', r.placeholder_rows as usize);
                let len: usize = out.len();
                assert(count + r.placeholder_rows <= len);
                count = count + r.placeholder_rows as usize;
                if r.end_line > r.start_line {
                    skip_until = Some(r.end_line);
                }
                next += 1;
            } else {
                if next < list.len() {
                    assert(views_of[next as int].start == list@[next as int].start_line);
                }
                let ghost before = out@;
                push_chars(&mut out, &lines[i]);
                out.push('\n');
                assert(out@ =~= before + lines@[i as int]@.push('\n'));
                let len: usize = out.len();
                assert(count + 1 <= len);
                count = count + 1;
            }
        }
        i += 1;
    }
    end_as(&mut out, &chars);
    (string_of(&out), placements)
}

proof fn lemma_nothing_placed(lines: Seq<Seq<char>>, list: Seq<ReplacementView>, n: int)
    requires
        list.len() == 0,
    ensures
        progress(lines, list, n).placements.len() == 0,
        progress(lines, list, n).next == 0,
    decreases n,
{
    if n > 0 {
        lemma_nothing_placed(lines, list, n - 1);
    }
}

// ---------------------------------------------------------------- images and diagrams

/// An image that was loaded, or not: its PNG, columns and rows.
pub type Loaded = Option<(Vec<u8>, u16, u16)>;

/// What a list of loaded images stands for.
pub open spec fn loaded_views(images: Seq<Loaded>) -> Seq<Option<(Seq<u8>, u16, u16)>> {
    images.map_values(|i: Loaded| loaded_view(i))
}

/// What a list of rendered diagrams stands for: the number of the block and the PNG.
pub open spec fn rendered_views(rendered: Seq<(usize, Vec<u8>)>) -> Seq<(int, Seq<u8>)> {
    rendered.map_values(|r: (usize, Vec<u8>)| (r.0 as int, r.1@))
}

/// The replacement for an image's line: as many blank rows as were estimated.
pub open spec fn image_replacement(
    image: ImageRefView,
    estimate: u16,
    loaded: Option<(Seq<u8>, u16, u16)>,
) -> ReplacementView {
    ReplacementView {
        start: image.line,
        end: image.line,
        blank_rows: estimate as nat,
        png: match loaded {
            Some((png, cols, rows)) => Some(png),
            None => None,
        },
        cols: match loaded {
            Some((png, cols, rows)) => cols,
            None => 0,
        },
        rows: match loaded {
            Some((png, cols, rows)) => rows,
            None => estimate,
        },
        alt: image.alt,
    }
}

/// The replacements for the images.
pub open spec fn image_replacements(
    images: Seq<ImageRefView>,
    estimates: Seq<u16>,
    loaded: Seq<Option<(Seq<u8>, u16, u16)>>,
) -> Seq<ReplacementView> {
    Seq::new(images.len(), |i: int| image_replacement(images[i], estimates[i], loaded[i]))
}

/// The replacements for the diagrams: the block's lines with its fences, as many blank rows as
/// the diagram has, and the PNG as it was rendered. One whose PNG cannot be read is left out.
pub open spec fn diagram_replacements(
    blocks: Seq<DiagramView>,
    rendered: Seq<(int, Seq<u8>)>,
    shown: Seq<Option<(Seq<u8>, u16, u16)>>,
) -> Seq<ReplacementView>
    decreases rendered.len(),
{
    if rendered.len() == 0 {
        seq![]
    } else {
        let before = diagram_replacements(blocks, rendered.drop_last(), shown);
        let (index, png) = rendered.last();
        match shown[rendered.len() - 1] {
            Some((_, cols, rows)) => before.push(
                ReplacementView {
                    start: blocks[index].start,
                    end: blocks[index].end,
                    blank_rows: rows as nat,
                    png: Some(png),
                    cols,
                    rows,
                    alt: "mermaid diagram"@,
                },
            ),
            None => before,
        }
    }
}

fn replacement_for_image(image: &ImageRef, estimate: u16, loaded: &Loaded) -> (r: Replacement)
    ensures
        r@ == image_replacement(image@, estimate, loaded_view(*loaded)),
{
    let (png_data, display_cols, display_rows) = match loaded {
        Some((png, cols, rows)) => (Some(copy_bytes(png)), *cols, *rows),
        None => (None, 0, estimate),
    };
    Replacement {
        start_line: image.source_line,
        end_line: image.source_line,
        placeholder_rows: estimate,
        png_data,
        display_cols,
        display_rows,
        alt: image.alt.clone(),
    }
}

/// The replacements for images and diagrams, once it is known how many rows each image is
/// estimated to take, and what loading the images and the diagrams gave.
pub fn collect_replacements(
    images: &Vec<ImageRef>,
    estimates: &Vec<u16>,
    loaded: &Vec<Loaded>,
    blocks: &Vec<MermaidBlock>,
    rendered: &Vec<(usize, Vec<u8>)>,
    shown: &Vec<Loaded>,
) -> (list: Vec<Replacement>)
    requires
        estimates@.len() == images@.len(),
        loaded@.len() == images@.len(),
        shown@.len() == rendered@.len(),
        forall|i: int| 0 <= i < rendered@.len() ==> (#[trigger] rendered@[i]).0 < blocks@.len(),
    ensures
        replacement_views(list@) == image_replacements(
            ref_views(images@),
            estimates@,
            loaded_views(loaded@),
        ) + diagram_replacements(
            diagram_views(blocks@),
            rendered_views(rendered@),
            loaded_views(shown@),
        ),
{
    let mut list: Vec<Replacement> = Vec::new();
    let ghost first = image_replacements(ref_views(images@), estimates@, loaded_views(loaded@));
    let mut i: usize = 0;
    while i < images.len()
        invariant
            i <= images@.len(),
            estimates@.len() == images@.len(),
            loaded@.len() == images@.len(),
            first == image_replacements(ref_views(images@), estimates@, loaded_views(loaded@)),
            replacement_views(list@) =~= first.take(i as int),
        decreases images@.len() - i,
    {
        let r = replacement_for_image(&images[i], estimates[i], &loaded[i]);
        let ghost before = replacement_views(list@);
        list.push(r);
        assert(first[i as int] == r@);
        assert(replacement_views(list@) =~= before.push(r@));
        i += 1;
    }
    assert(first.take(i as int) =~= first);
    let ghost all = rendered_views(rendered@);
    let ghost diagrams = diagram_views(blocks@);
    let ghost sizes = loaded_views(shown@);
    let mut j: usize = 0;
    assert(all.take(0) =~= seq![]);
    assert(first + diagram_replacements(diagrams, all.take(0), sizes) =~= first);
    while j < rendered.len()
        invariant
            j <= rendered@.len(),
            shown@.len() == rendered@.len(),
            all == rendered_views(rendered@),
            diagrams == diagram_views(blocks@),
            sizes == loaded_views(shown@),
            forall|k: int| 0 <= k < rendered@.len() ==> (#[trigger] rendered@[k]).0 < blocks@.len(),
            replacement_views(list@) == first + diagram_replacements(
                diagrams,
                all.take(j as int),
                sizes,
            ),
        decreases rendered@.len() - j,
    {
        assert(all.take(j + 1).drop_last() =~= all.take(j as int));
        assert(all.take(j + 1).last() == all[j as int]);
        assert(sizes[j as int] == loaded_view(shown@[j as int]));
        let ghost before = replacement_views(list@);
        let ghost so_far = diagram_replacements(diagrams, all.take(j as int), sizes);
        if let Some((_, cols, rows)) = &shown[j] {
            let one = &rendered[j];
            assert(rendered@[j as int].0 < blocks@.len());
            let block = &blocks[one.0];
            assert(diagrams[one.0 as int] == block@);
            let r = Replacement {
                start_line: block.fence_start_line,
                end_line: block.fence_end_line,
                placeholder_rows: *rows,
                png_data: Some(copy_bytes(&one.1)),
                display_cols: *cols,
                display_rows: *rows,
                alt: "mermaid diagram".to_owned(),
            };
            list.push(r);
            assert(replacement_views(list@) =~= before.push(r@));
            assert(before.push(r@) =~= first + so_far.push(r@));
        }
        j += 1;
    }
    assert(all.take(j as int) =~= all);
    list
}

/// How many rows each image is estimated to take, by the content of its file.
pub open spec fn estimates_of(
    images: Seq<ImageRef>,
    contents: Seq<Option<Vec<u8>>>,
    inner_cols: u16,
    cell_w: u16,
    cell_h: u16,
) -> Seq<u16> {
    Seq::new(
        images.len(),
        |i: int|
            estimated_rows(
                header_of(images[i].path@, optional_bytes(contents[i])),
                inner_cols,
                cell_w,
                cell_h,
            ),
    )
}

/// Whether results of loading can be those of the images in the given files.
pub open spec fn images_load_as(
    images: Seq<ImageRef>,
    contents: Seq<Option<Vec<u8>>>,
    loaded: Seq<Option<(Seq<u8>, u16, u16)>>,
    inner_cols: u16,
    cell_w: u16,
    cell_h: u16,
) -> bool {
    &&& loaded.len() == images.len()
    &&& forall|i: int|
        0 <= i < images.len() ==> loads_as(
            optional_bytes(contents[i]),
            size_in(images[i].path@, optional_bytes(contents[i])),
            #[trigger] loaded[i],
            inner_cols,
            cell_w,
            cell_h,
        ) && header_agrees(images[i].path@, optional_bytes(contents[i]))
}

/// Whether results of loading can be those of the rendered diagrams.
pub open spec fn diagrams_load_as(
    rendered: Seq<(usize, Vec<u8>)>,
    shown: Seq<Option<(Seq<u8>, u16, u16)>>,
    inner_cols: u16,
    cell_w: u16,
    cell_h: u16,
) -> bool {
    &&& shown.len() == rendered.len()
    &&& forall|i: int|
        0 <= i < rendered.len() ==> loads_as(
            Some(rendered[i].1@),
            image_size(rendered[i].1@),
            #[trigger] shown[i],
            inner_cols,
            cell_w,
            cell_h,
        )
}

/// Whether a markdown text can be processed to a text and placements: its replacements are those
/// for the images and the diagrams, by some results of loading them. `sizes` are the columns of
/// the content, and width and height of a cell in pixels.
pub open spec fn processes_to(
    markdown: Seq<char>,
    images: Seq<ImageRef>,
    contents: Seq<Option<Vec<u8>>>,
    blocks: Seq<MermaidBlock>,
    rendered: Seq<(usize, Vec<u8>)>,
    sizes: (u16, u16, u16),
    text: Seq<char>,
    placements: Seq<PlacementView>,
) -> bool {
    exists|
        loaded: Seq<Option<(Seq<u8>, u16, u16)>>,
        shown: Seq<Option<(Seq<u8>, u16, u16)>>,
    |
        {
            let list = #[trigger] image_replacements(
                ref_views(images),
                estimates_of(images, contents, sizes.0, sizes.1, sizes.2),
                loaded,
            ) + #[trigger] diagram_replacements(
                diagram_views(blocks),
                rendered_views(rendered),
                shown,
            );
            &&& images_load_as(images, contents, loaded, sizes.0, sizes.1, sizes.2)
            &&& diagrams_load_as(rendered, shown, sizes.0, sizes.1, sizes.2)
            &&& text == processed_text(markdown, list)
            &&& placements == all_replaced(markdown, list).placements
        }
}

/// Build the processed markdown with image and diagram placeholders, and return the resulting
/// [`ImagePlacement`] entries. `contents` holds the content of each image's file, `None` for one
/// that cannot be read.
pub fn build_processed_markdown(
    markdown: &str,
    image_refs: &Vec<ImageRef>,
    contents: &Vec<Option<Vec<u8>>>,
    mermaid_blocks: &Vec<MermaidBlock>,
    rendered_mermaids: &Vec<(usize, Vec<u8>)>,
    inner_cols: u16,
    cell_w: u16,
    cell_h: u16,
) -> (r: (String, Vec<ImagePlacement>))
    requires
        contents@.len() == image_refs@.len(),
        forall|i: int|
            0 <= i < rendered_mermaids@.len() ==> (#[trigger] rendered_mermaids@[i]).0
                < mermaid_blocks@.len(),
    ensures
        processes_to(
            markdown@,
            image_refs@,
            contents@,
            mermaid_blocks@,
            rendered_mermaids@,
            (inner_cols, cell_w, cell_h),
            r.0@,
            placement_views(r.1@),
        ),
{
    let mut estimates: Vec<u16> = Vec::new();
    let mut loaded: Vec<Loaded> = Vec::new();
    let mut i: usize = 0;
    while i < image_refs.len()
        invariant
            i <= image_refs@.len(),
            contents@.len() == image_refs@.len(),
            estimates@.len() == i,
            loaded@.len() == i,
            forall|k: int|
                0 <= k < i ==> #[trigger] estimates@[k] == estimated_rows(
                    header_of(image_refs@[k].path@, optional_bytes(contents@[k])),
                    inner_cols,
                    cell_w,
                    cell_h,
                ),
            forall|k: int|
                0 <= k < i ==> loads_as(
                    optional_bytes(contents@[k]),
                    size_in(image_refs@[k].path@, optional_bytes(contents@[k])),
                    loaded_view(#[trigger] loaded@[k]),
                    inner_cols,
                    cell_w,
                    cell_h,
                ) && header_agrees(image_refs@[k].path@, optional_bytes(contents@[k])),
        decreases image_refs@.len() - i,
    {
        let path = image_refs[i].path.as_str();
        let content = contents[i].as_ref();
        estimates.push(estimate_image_rows(path, content, inner_cols, cell_w, cell_h));
        loaded.push(load_image(path, content, inner_cols, cell_w, cell_h));
        i += 1;
    }
    let mut shown: Vec<Loaded> = Vec::new();
    let mut j: usize = 0;
    while j < rendered_mermaids.len()
        invariant
            j <= rendered_mermaids@.len(),
            shown@.len() == j,
            forall|k: int|
                0 <= k < j ==> loads_as(
                    Some(rendered_mermaids@[k].1@),
                    image_size(rendered_mermaids@[k].1@),
                    loaded_view(#[trigger] shown@[k]),
                    inner_cols,
                    cell_w,
                    cell_h,
                ),
        decreases rendered_mermaids@.len() - j,
    {
        shown.push(load_image_from_bytes(&rendered_mermaids[j].1, inner_cols, cell_w, cell_h));
        j += 1;
    }
    assert(estimates@ =~= estimates_of(image_refs@, contents@, inner_cols, cell_w, cell_h));
    let list = collect_replacements(
        image_refs,
        &estimates,
        &loaded,
        mermaid_blocks,
        rendered_mermaids,
        &shown,
    );
    assert(images_load_as(
        image_refs@,
        contents@,
        loaded_views(loaded@),
        inner_cols,
        cell_w,
        cell_h,
    ));
    assert(diagrams_load_as(
        rendered_mermaids@,
        loaded_views(shown@),
        inner_cols,
        cell_w,
        cell_h,
    ));
    let r = place_replacements(markdown, &list);
    proof {
        let sizes = (inner_cols, cell_w, cell_h);
        let first = image_replacements(
            ref_views(image_refs@),
            estimates_of(image_refs@, contents@, sizes.0, sizes.1, sizes.2),
            loaded_views(loaded@),
        );
        let second = diagram_replacements(
            diagram_views(mermaid_blocks@),
            rendered_views(rendered_mermaids@),
            loaded_views(shown@),
        );
        assert(replacement_views(list@) == first + second);
    }
    r
}

// ---------------------------------------------------------------- laws

/// How many line ends a text has.
pub open spec fn line_ends(s: Seq<char>) -> nat
    decreases s.len(),
{
    if s.len() == 0 {
        0
    } else {
        line_ends(s.drop_last()) + (if s.last() == '\n' {
            1nat
        } else {
            0
        })
    }
}

/// Whether a row of a text begins at a position.
pub open spec fn row_begins(text: Seq<char>, pos: int, row: int) -> bool {
    &&& 0 <= pos <= text.len()
    &&& pos > 0 ==> text[pos - 1] == '\n'
    &&& line_ends(text.take(pos)) == row
}

/// Whether a text has `rows` blank rows from a row on, as far as it goes.
pub open spec fn blank_from(text: Seq<char>, row: int, rows: nat) -> bool {
    rows == 0 || exists|pos: int|
        #[trigger] row_begins(text, pos, row) && forall|j: int|
            pos <= j < pos + rows && j < text.len() ==> #[trigger] text[j] == '\n'
}

/// Whether a placement comes from a replacement.
pub open spec fn comes_from(p: PlacementView, r: ReplacementView) -> bool {
    r.png == Some(p.png) && r.cols == p.cols && r.rows == p.rows && r.alt == p.alt
}

/// Whether a placement comes from one of the replacements and stands on its blank rows.
pub open spec fn stands_on_blanks(text: Seq<char>, list: Seq<ReplacementView>, p: PlacementView) -> bool {
    exists|r: ReplacementView|
        list.contains(r) && #[trigger] comes_from(p, r) && blank_from(text, p.row, r.blank_rows)
}

/// Every image that is placed stands on the blank rows of its replacement: they are at its row
/// of the processed text.
pub proof fn law_images_stand_on_blanks(markdown: Seq<char>, list: Seq<ReplacementView>, k: int)
    requires
        0 <= k < all_replaced(markdown, list).placements.len(),
    ensures
        stands_on_blanks(
            processed_text(markdown, list),
            list,
            all_replaced(markdown, list).placements[k],
        ),
{
    let lines = lines_of(markdown);
    let sorted = in_order(list);
    let n = lines.len() as int;
    lemma_lines_whole(markdown);
    lemma_progress(lines, sorted, n);
    let done = progress(lines, sorted, n);
    let p = done.placements[k];
    if list.len() == 0 {
        lemma_nothing_placed(lines, sorted, n);
    } else {
        assert(stands(done.text, sorted, p));
        let r = choose|r: ReplacementView|
            sorted.contains(r) && #[trigger] comes_from(p, r) && blanks_written(
                done.text,
                p.row,
                r.blank_rows,
            );
        lemma_in_order_contains(list, r);
        let pos = choose|pos: int|
            #[trigger] row_begins(done.text, pos, p.row) && written_at(done.text, pos, r.blank_rows);
        let text = ended_as(done.text, markdown);
        if r.blank_rows > 0 {
            assert(text.take(pos) =~= done.text.take(pos));
            assert(row_begins(text, pos, p.row));
            assert forall|j: int| pos <= j < pos + r.blank_rows && j < text.len() implies
                #[trigger] text[j] == '\n' by {
                assert(done.text[j] == '\n');
            }
        }
        assert(blank_from(text, p.row, r.blank_rows));
    }
}

spec fn written_at(text: Seq<char>, pos: int, rows: nat) -> bool {
    &&& pos + rows <= text.len()
    &&& forall|j: int| pos <= j < pos + rows ==> #[trigger] text[j] == '\n'
}

spec fn blanks_written(text: Seq<char>, row: int, rows: nat) -> bool {
    exists|pos: int| #[trigger] row_begins(text, pos, row) && written_at(text, pos, rows)
}

spec fn stands(text: Seq<char>, list: Seq<ReplacementView>, p: PlacementView) -> bool {
    exists|r: ReplacementView|
        list.contains(r) && #[trigger] comes_from(p, r) && blanks_written(
            text,
            p.row,
            r.blank_rows,
        )
}

proof fn lemma_line_ends_sum(a: Seq<char>, b: Seq<char>)
    ensures
        line_ends(a + b) == line_ends(a) + line_ends(b),
    decreases b.len(),
{
    if b.len() == 0 {
        assert(a + b =~= a);
    } else {
        lemma_line_ends_sum(a, b.drop_last());
        assert((a + b).drop_last() =~= a + b.drop_last());
    }
}

proof fn lemma_line_ends_repeated(n: nat)
    ensures
        line_ends(repeated('\n', n)) == n,
    decreases n,
{
    if n > 0 {
        lemma_line_ends_repeated((n - 1) as nat);
        assert(repeated('\n', n).drop_last() =~= repeated('\n', (n - 1) as nat));
    }
}

proof fn lemma_line_ends_none(s: Seq<char>)
    requires
        one_line(s),
    ensures
        line_ends(s) == 0,
    decreases s.len(),
{
    if s.len() > 0 {
        assert forall|i: int| 0 <= i < s.drop_last().len() implies #[trigger] s.drop_last()[i]
            != '\n' by {
            assert(s.drop_last()[i] == s[i]);
        }
        lemma_line_ends_none(s.drop_last());
        assert(s.last() == s[s.len() - 1]);
    }
}

proof fn lemma_stands_longer(
    text: Seq<char>,
    more: Seq<char>,
    list: Seq<ReplacementView>,
    p: PlacementView,
)
    requires
        stands(text, list, p),
    ensures
        stands(text + more, list, p),
{
    let r = choose|r: ReplacementView|
        list.contains(r) && #[trigger] comes_from(p, r) && blanks_written(
            text,
            p.row,
            r.blank_rows,
        );
    let pos = choose|pos: int|
        #[trigger] row_begins(text, pos, p.row) && written_at(text, pos, r.blank_rows);
    let longer = text + more;
    assert(longer.take(pos) =~= text.take(pos));
    assert(row_begins(longer, pos, p.row));
    assert(written_at(longer, pos, r.blank_rows)) by {
        assert forall|j: int| pos <= j < pos + r.blank_rows implies #[trigger] longer[j]
            == '\n' by {
            assert(text[j] == '\n');
        }
    }
    assert(blanks_written(longer, p.row, r.blank_rows));
}

spec fn well_placed(list: Seq<ReplacementView>, p: Progress) -> bool {
    &&& line_ends(p.text) == p.row
    &&& p.text.len() > 0 ==> p.text.last() == '\n'
    &&& 0 <= p.next <= list.len()
    &&& forall|k: int| 0 <= k < p.placements.len() ==> stands(p.text, list, #[trigger] p.placements[k])
}

proof fn lemma_replaced_well(list: Seq<ReplacementView>, before: Progress)
    requires
        well_placed(list, before),
        before.next < list.len(),
    ensures
        well_placed(list, replaced_at(before, list[before.next])),
{
    let r = list[before.next];
    let after = replaced_at(before, r);
    let more = repeated('\n', r.blank_rows);
    lemma_line_ends_sum(before.text, more);
    lemma_line_ends_repeated(r.blank_rows);
    if r.blank_rows > 0 {
        assert(after.text.last() == more.last());
    } else {
        assert(after.text =~= before.text);
    }
    assert forall|k: int| 0 <= k < after.placements.len() implies stands(
        after.text,
        list,
        #[trigger] after.placements[k],
    ) by {
        let p = after.placements[k];
        if k < before.placements.len() {
            assert(p == before.placements[k]);
            lemma_stands_longer(before.text, more, list, p);
        } else {
            let pos = before.text.len() as int;
            assert(p == placed(r, before.row)[k - before.placements.len()]);
            assert(comes_from(p, r));
            assert(after.text.take(pos) =~= before.text);
            assert(row_begins(after.text, pos, p.row));
            assert(written_at(after.text, pos, r.blank_rows));
            assert(blanks_written(after.text, p.row, r.blank_rows));
            assert(list.contains(r));
        }
    }
}

proof fn lemma_progress(lines: Seq<Seq<char>>, list: Seq<ReplacementView>, n: int)
    requires
        n <= lines.len(),
        forall|i: int| 0 <= i < lines.len() ==> one_line(#[trigger] lines[i]),
    ensures
        well_placed(list, progress(lines, list, n)),
    decreases n,
{
    if n > 0 {
        lemma_progress(lines, list, n - 1);
        let before = progress(lines, list, n - 1);
        let after = progress(lines, list, n);
        if n - 1 < before.resume {
        } else if before.next < list.len() && list[before.next].start == n - 1 {
            lemma_replaced_well(list, before);
        } else {
            let line = lines[n - 1];
            let more = line.push('\n');
            lemma_line_ends_sum(before.text, more);
            assert(one_line(line));
            lemma_line_ends_none(line);
            assert(more.drop_last() =~= line);
            assert(after.text.last() == more.last());
            assert forall|k: int| 0 <= k < after.placements.len() implies stands(
                after.text,
                list,
                #[trigger] after.placements[k],
            ) by {
                assert(stands(before.text, list, before.placements[k]));
                lemma_stands_longer(before.text, more, list, before.placements[k]);
            }
        }
    } else {
        assert(line_ends(seq![]) == 0);
    }
}

proof fn lemma_inserted_contains(list: Seq<ReplacementView>, r: ReplacementView, x: ReplacementView)
    requires
        inserted(list, r).contains(x),
    ensures
        x == r || list.contains(x),
    decreases list.len(),
{
    let i = choose|i: int| 0 <= i < inserted(list, r).len() && inserted(list, r)[i] == x;
    if list.len() > 0 && list.last().start > r.start {
        let shorter = list.drop_last();
        if i < inserted(shorter, r).len() {
            assert(inserted(shorter, r)[i] == x);
            lemma_inserted_contains(shorter, r, x);
            if x != r {
                let j = choose|j: int| 0 <= j < shorter.len() && shorter[j] == x;
                assert(list[j] == x);
            }
        } else {
            assert(list[list.len() - 1] == x);
        }
    } else if i < list.len() {
        assert(list[i] == x);
    }
}

proof fn lemma_in_order_contains(list: Seq<ReplacementView>, x: ReplacementView)
    requires
        in_order(list).contains(x),
    ensures
        list.contains(x),
    decreases list.len(),
{
    if list.len() > 0 {
        lemma_inserted_contains(in_order(list.drop_last()), list.last(), x);
        if x == list.last() {
            assert(list[list.len() - 1] == x);
        } else {
            lemma_in_order_contains(list.drop_last(), x);
            let j = choose|j: int| 0 <= j < list.drop_last().len() && list.drop_last()[j] == x;
            assert(list[j] == x);
        }
    }
}

/// The images of replacements, those that have one.
pub open spec fn pngs(list: Seq<ReplacementView>) -> Seq<Seq<u8>>
    decreases list.len(),
{
    if list.len() == 0 {
        seq![]
    } else {
        match list.last().png {
            Some(png) => pngs(list.drop_last()).push(png),
            None => pngs(list.drop_last()),
        }
    }
}

/// Every image and diagram that is placed stands on as many blank rows as it takes up: they are at
/// its row of the processed text.
pub proof fn law_images_have_room(
    markdown: Seq<char>,
    images: Seq<ImageRef>,
    contents: Seq<Option<Vec<u8>>>,
    blocks: Seq<MermaidBlock>,
    rendered: Seq<(usize, Vec<u8>)>,
    sizes: (u16, u16, u16),
    text: Seq<char>,
    placements: Seq<PlacementView>,
    k: int,
)
    requires
        processes_to(markdown, images, contents, blocks, rendered, sizes, text, placements),
        sizes.2 > 0,
        0 <= k < placements.len(),
    ensures
        blank_from(text, placements[k].row, placements[k].rows as nat),
{
    let estimates = estimates_of(images, contents, sizes.0, sizes.1, sizes.2);
    let (loaded, shown) = choose|
        loaded: Seq<Option<(Seq<u8>, u16, u16)>>,
        shown: Seq<Option<(Seq<u8>, u16, u16)>>,
    |
        {
            let list = #[trigger] image_replacements(ref_views(images), estimates, loaded)
                + #[trigger] diagram_replacements(
                diagram_views(blocks),
                rendered_views(rendered),
                shown,
            );
            &&& images_load_as(images, contents, loaded, sizes.0, sizes.1, sizes.2)
            &&& diagrams_load_as(rendered, shown, sizes.0, sizes.1, sizes.2)
            &&& text == processed_text(markdown, list)
            &&& placements == all_replaced(markdown, list).placements
        };
    let first = image_replacements(ref_views(images), estimates, loaded);
    let second = diagram_replacements(diagram_views(blocks), rendered_views(rendered), shown);
    let list = first + second;
    law_images_stand_on_blanks(markdown, list, k);
    let p = placements[k];
    let r = choose|r: ReplacementView|
        list.contains(r) && #[trigger] comes_from(p, r) && blank_from(text, p.row, r.blank_rows);
    let i = choose|i: int| 0 <= i < list.len() && list[i] == r;
    if i < first.len() {
        assert(loaded[i] is Some);
        law_estimate_is_shown(
            images[i].path@,
            optional_bytes(contents[i]),
            loaded[i]->0,
            sizes.0,
            sizes.1,
            sizes.2,
        );
    } else {
        lemma_diagrams_have_room(
            diagram_views(blocks),
            rendered_views(rendered),
            shown,
            i - first.len(),
        );
    }
}

proof fn lemma_diagrams_have_room(
    blocks: Seq<DiagramView>,
    rendered: Seq<(int, Seq<u8>)>,
    shown: Seq<Option<(Seq<u8>, u16, u16)>>,
    i: int,
)
    requires
        0 <= i < diagram_replacements(blocks, rendered, shown).len(),
    ensures
        diagram_replacements(blocks, rendered, shown)[i].blank_rows == diagram_replacements(
            blocks,
            rendered,
            shown,
        )[i].rows,
    decreases rendered.len(),
{
    let before = diagram_replacements(blocks, rendered.drop_last(), shown);
    if i < before.len() {
        lemma_diagrams_have_room(blocks, rendered.drop_last(), shown, i);
    }
}

/// Whether replacements, in order, lie within a text of `n` lines and do not overlap.
pub open spec fn apart(sorted: Seq<ReplacementView>, n: int) -> bool {
    &&& forall|i: int|
        0 <= i < sorted.len() ==> 0 <= (#[trigger] sorted[i]).start <= sorted[i].end && sorted[i].start
            < n
    &&& forall|i: int, j: int|
        0 <= i < j < sorted.len() ==> (#[trigger] sorted[i]).end < (#[trigger] sorted[j]).start
}

/// Replacements that do not overlap are all made: every image that was loaded is placed, in
/// the order of the lines.
pub proof fn law_all_images_placed(markdown: Seq<char>, list: Seq<ReplacementView>)
    requires
        apart(in_order(list), lines_of(markdown).len() as int),
    ensures
        all_replaced(markdown, list).next == in_order(list).len(),
        all_replaced(markdown, list).placements.map_values(|p: PlacementView| p.png) == pngs(
            in_order(list),
        ),
{
    let lines = lines_of(markdown);
    let sorted = in_order(list);
    lemma_all_made(lines, sorted, lines.len() as int);
    assert(sorted.take(sorted.len() as int) =~= sorted);
}

proof fn lemma_all_made(lines: Seq<Seq<char>>, list: Seq<ReplacementView>, n: int)
    requires
        apart(list, lines.len() as int),
        0 <= n <= lines.len(),
    ensures
        ({
            let p = progress(lines, list, n);
            &&& 0 <= p.next <= list.len()
            &&& p.next < list.len() ==> list[p.next].start >= n
            &&& p.resume <= (if p.next > 0 {
                list[p.next - 1].end + 1
            } else {
                0
            })
            &&& p.placements.map_values(|q: PlacementView| q.png) == pngs(list.take(p.next))
        }),
    decreases n,
{
    let png_of = |q: PlacementView| q.png;
    let after = progress(lines, list, n);
    if n > 0 {
        lemma_all_made(lines, list, n - 1);
        let before = progress(lines, list, n - 1);
        if n - 1 < before.resume {
            if before.next < list.len() {
                assert(list[before.next - 1].end < list[before.next].start);
            }
        } else if before.next < list.len() && list[before.next].start == n - 1 {
            let r = list[before.next];
            if after.next < list.len() {
                assert(list[before.next].end < list[after.next].start);
            }
            if before.next > 0 {
                assert(list[before.next - 1].end < list[before.next].start);
            }
            assert(list.take(after.next).drop_last() =~= list.take(before.next));
            assert(list.take(after.next).last() == r);
            assert(after.placements.map_values(png_of) =~= before.placements.map_values(png_of)
                + placed(r, before.row).map_values(png_of));
            assert(after.placements.map_values(png_of) =~= pngs(list.take(after.next)));
        }
    } else {
        assert(after.placements.map_values(png_of) =~= seq![]);
        assert(list.take(0) =~= seq![]);
        if list.len() > 0 {
            assert(list[0].start >= 0);
        }
    }
}

/// An image is replaced on its own line by as many blank rows as it was estimated to take up; one
/// that was loaded has its PNG and the size it is shown at, and any has its text.
pub proof fn law_image_replacements(
    images: Seq<ImageRefView>,
    estimates: Seq<u16>,
    loaded: Seq<Option<(Seq<u8>, u16, u16)>>,
    i: int,
)
    requires
        0 <= i < images.len(),
    ensures
        image_replacements(images, estimates, loaded).len() == images.len(),
        ({
            let r = image_replacements(images, estimates, loaded)[i];
            &&& r.start == images[i].line
            &&& r.end == images[i].line
            &&& r.blank_rows == estimates[i]
            &&& r.alt == images[i].alt
            &&& loaded[i] is None ==> r.png is None && r.cols == 0 && r.rows == estimates[i]
            &&& loaded[i] matches Some((png, cols, rows)) ==> r.png == Some(png) && r.cols == cols
                && r.rows == rows
        }),
{
}

/// A diagram that was rendered and can be read replaces its block, fences and all, by as many blank
/// rows as it is shown at, with the image as it was rendered; one that cannot be read leaves its
/// block as it is.
pub proof fn law_diagram_replacements(
    blocks: Seq<DiagramView>,
    rendered: Seq<(int, Seq<u8>)>,
    shown: Seq<Option<(Seq<u8>, u16, u16)>>,
    next: (int, Seq<u8>),
)
    requires
        shown.len() == rendered.len() + 1,
    ensures
        ({
            let before = diagram_replacements(blocks, rendered, shown);
            let all = diagram_replacements(blocks, rendered.push(next), shown);
            match shown.last() {
                None => all == before,
                Some((_, cols, rows)) => {
                    let r = all.last();
                    &&& all == before.push(r)
                    &&& r.start == blocks[next.0].start
                    &&& r.end == blocks[next.0].end
                    &&& r.blank_rows == rows
                    &&& r.png == Some(next.1)
                    &&& r.cols == cols
                    &&& r.rows == rows
                    &&& r.alt == "mermaid diagram"@
                },
            }
        }),
{
    assert(rendered.push(next).drop_last() =~= rendered);
}

/// The images of a document are those that stand alone on a line, with their text, the path in the
/// document's directory, and the line.
pub proof fn law_images_are_those_found(
    matches: Seq<Seq<Seq<Seq<char>>>>,
    base: Seq<char>,
    r: ImageRefView,
)
    ensures
        images_found(matches, base).contains(r) <==> 0 <= r.line < matches.len()
            && matches[r.line].len() > 0 && r.alt == matches[r.line][0][1] && r.path == joined(
            base,
            matches[r.line][0][2],
        ),
    decreases matches.len(),
{
    if matches.len() > 0 {
        let front = matches.drop_last();
        let before = images_found(front, base);
        let all = images_found(matches, base);
        law_images_are_those_found(front, base, r);
        if 0 <= r.line < front.len() {
            assert(front[r.line] == matches[r.line]);
        }
        if before.contains(r) {
            let i = choose|i: int| 0 <= i < before.len() && before[i] == r;
            assert(all[i] == r);
        }
        if matches.last().len() > 0 {
            assert(all.last().line == matches.len() - 1);
            if r.line == matches.len() - 1 && r.alt == matches[r.line][0][1] && r.path == joined(
                base,
                matches[r.line][0][2],
            ) {
                assert(all.last() == r);
            }
        }
    }
}

/// Lines that no replacement covers stay in the text, as they are.
pub proof fn law_other_lines_stay(lines: Seq<Seq<char>>, list: Seq<ReplacementView>, i: int)
    requires
        0 <= i < lines.len(),
        forall|k: int|
            0 <= k < list.len() ==> !((#[trigger] list[k]).start <= i <= list[k].end) && list[k].start
                <= list[k].end,
    ensures
        within(progress(lines, list, lines.len() as int).text, lines[i].push('\n')),
{
    lemma_resume_is_behind(lines, list, i);
    let before = progress(lines, list, i);
    let after = progress(lines, list, i + 1);
    assert(before.next < list.len() && before.next >= 0 ==> list[before.next].start != i);
    lemma_next_in_range(lines, list, i);
    assert(after.text == before.text + lines[i].push('\n'));
    let rest = lemma_text_grows(lines, list, i + 1, lines.len() as int);
    let all = progress(lines, list, lines.len() as int).text;
    assert(all == before.text + lines[i].push('\n') + rest);
}

proof fn lemma_next_in_range(lines: Seq<Seq<char>>, list: Seq<ReplacementView>, n: int)
    requires
        0 <= n,
    ensures
        0 <= progress(lines, list, n).next <= list.len(),
    decreases n,
{
    if n > 0 {
        lemma_next_in_range(lines, list, n - 1);
    }
}

proof fn lemma_resume_is_behind(lines: Seq<Seq<char>>, list: Seq<ReplacementView>, i: int)
    requires
        0 <= i,
        forall|k: int|
            0 <= k < list.len() ==> !((#[trigger] list[k]).start <= i <= list[k].end) && list[k].start
                <= list[k].end,
    ensures
        progress(lines, list, i).resume <= i,
{
    lemma_resume(lines, list, i, i);
}

proof fn lemma_resume(lines: Seq<Seq<char>>, list: Seq<ReplacementView>, n: int, i: int)
    requires
        0 <= n <= i,
        forall|k: int|
            0 <= k < list.len() ==> !((#[trigger] list[k]).start <= i <= list[k].end) && list[k].start
                <= list[k].end,
    ensures
        progress(lines, list, n).resume <= i,
    decreases n,
{
    if n > 0 {
        lemma_resume(lines, list, n - 1, i);
        lemma_next_in_range(lines, list, n - 1);
        let before = progress(lines, list, n - 1);
        if n - 1 >= before.resume && before.next < list.len() && list[before.next].start == n - 1 {
            let r = list[before.next];
            assert(!(r.start <= i <= r.end));
        }
    }
}

proof fn lemma_text_grows(lines: Seq<Seq<char>>, list: Seq<ReplacementView>, m: int, n: int) -> (r:
    Seq<char>)
    requires
        0 <= m <= n,
    ensures
        progress(lines, list, n).text == progress(lines, list, m).text + r,
    decreases n,
{
    let start = progress(lines, list, m).text;
    if m == n {
        assert(start =~= start + Seq::<char>::empty());
        Seq::empty()
    } else {
        let r = lemma_text_grows(lines, list, m, n - 1);
        let before = progress(lines, list, n - 1);
        if n - 1 < before.resume {
            r
        } else if before.next < list.len() && list[before.next].start == n - 1 {
            let more = repeated('\n', list[before.next].blank_rows);
            assert(start + r + more =~= start + (r + more));
            r + more
        } else {
            let more = lines[n - 1].push('\n');
            assert(start + r + more =~= start + (r + more));
            r + more
        }
    }
}

/// Replacements are made in the order of their lines.
pub proof fn law_replacements_in_order(list: Seq<ReplacementView>)
    ensures
        in_order(list).len() == list.len(),
        forall|i: int, j: int|
            0 <= i < j < in_order(list).len() ==> (#[trigger] in_order(list)[i]).start <= (
            #[trigger] in_order(list)[j]).start,
    decreases list.len(),
{
    if list.len() > 0 {
        law_replacements_in_order(list.drop_last());
        lemma_inserted_sorted(in_order(list.drop_last()), list.last());
    }
}

proof fn lemma_inserted_sorted(list: Seq<ReplacementView>, r: ReplacementView)
    requires
        forall|i: int, j: int|
            0 <= i < j < list.len() ==> (#[trigger] list[i]).start <= (#[trigger] list[j]).start,
    ensures
        inserted(list, r).len() == list.len() + 1,
        forall|i: int, j: int|
            0 <= i < j < inserted(list, r).len() ==> (#[trigger] inserted(list, r)[i]).start <= (
            #[trigger] inserted(list, r)[j]).start,
        forall|i: int|
            0 <= i < inserted(list, r).len() ==> (#[trigger] inserted(list, r)[i]).start <= r.start
                || (list.len() > 0 && inserted(list, r)[i].start <= list.last().start),
    decreases list.len(),
{
    if list.len() > 0 && list.last().start > r.start {
        let front = list.drop_last();
        assert forall|i: int, j: int| 0 <= i < j < front.len() implies (#[trigger] front[i]).start
            <= (#[trigger] front[j]).start by {
            assert(front[i] == list[i] && front[j] == list[j]);
        }
        lemma_inserted_sorted(front, r);
        if front.len() > 0 {
            assert(front.last() == list[front.len() - 1]);
            assert(list[front.len() - 1].start <= list[list.len() - 1].start);
        }
    } else {
        assert forall|i: int| 0 <= i < list.len() implies (#[trigger] list[i]).start <= r.start by {
            if i < list.len() - 1 {
                assert(list[i].start <= list[list.len() - 1].start);
            }
        }
    }
}

/// Where an image is placed: on the row behind those of the text before it.
pub proof fn law_images_are_placed_on_their_rows(before: Progress, r: ReplacementView, png: Seq<u8>)
    requires
        r.png == Some(png),
    ensures
        replaced_at(before, r).placements == before.placements.push(
            PlacementView { png, row: before.row as int, cols: r.cols, rows: r.rows, alt: r.alt },
        ),
        replaced_at(before, r).row == before.row + r.blank_rows,
        replaced_at(before, r).text == before.text + repeated('\n', r.blank_rows),
{
    assert(replaced_at(before, r).placements =~= before.placements.push(
        PlacementView { png, row: before.row as int, cols: r.cols, rows: r.rows, alt: r.alt },
    ));
}

/// A text with images replaced has as many rows for each as are wanted, and every other line as it
/// is; and the rows where they begin are told.
pub proof fn law_lines_replaced(
    lines: Seq<Seq<char>>,
    line: Seq<char>,
    images: Seq<ImageRefView>,
    rows: nat,
)
    ensures
        ({
            let here = exists|i: int|
                0 <= i < images.len() && (#[trigger] images[i]).line == lines.len();
            let n = lines.len() as int;
            &&& here ==> lines_replaced(lines.push(line), images, rows) == lines_replaced(
                lines,
                images,
                rows,
            ) + repeated('\n', rows) && image_rows(n + 1, images, rows) == image_rows(
                n,
                images,
                rows,
            ).push(rows_taken(n, images, rows)) && rows_taken(n + 1, images, rows) == rows_taken(
                n,
                images,
                rows,
            ) + rows
            &&& !here ==> lines_replaced(lines.push(line), images, rows) == lines_replaced(
                lines,
                images,
                rows,
            ) + line.push('\n') && image_rows(n + 1, images, rows) == image_rows(n, images, rows)
                && rows_taken(n + 1, images, rows) == rows_taken(n, images, rows) + 1
        }),
{
    assert(lines.push(line).drop_last() =~= lines);
}

/// A reference to an image, a placement and a replacement each stand for what their fields hold.
pub proof fn law_images_stand_for_their_fields(
    image: ImageRef,
    placement: ImagePlacement,
    replacement: Replacement,
)
    ensures
        image@.alt == image.alt@ && image@.path == image.path@ && image@.line == image.source_line,
        placement@.png == placement.png_data@ && placement@.row == placement.content_row,
        placement@.cols == placement.cols && placement@.rows == placement.rows,
        placement@.alt == placement.alt@,
        replacement@.start == replacement.start_line && replacement@.end == replacement.end_line,
        replacement@.blank_rows == replacement.placeholder_rows,
        replacement.png_data is None ==> replacement@.png is None,
        replacement.png_data matches Some(png) ==> replacement@.png == Some(png@),
        replacement@.cols == replacement.display_cols && replacement@.rows
            == replacement.display_rows,
        replacement@.alt == replacement.alt@,
{
}

} // verus!
