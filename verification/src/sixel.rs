//! Images as Sixel graphics: at most 256 colors, six rows of pixels at a time.

use vstd::prelude::*;
use vstd::utf8::encode_utf8;

use crate::graphics::push_bytes;
use crate::images::{decode_rgba, image_size, is_png, png_pixels};
use crate::paragraphs::digit_run;
use crate::text::{
    cut, decimal, digits_value, is_digit, leading_run, lemma_decimal, lemma_run_length, push_number,
    push_repeated, push_str, repeated, run_length, string_of,
};

verus! {

/// Maximum number of colors in the Sixel palette.
pub const SIXEL_MAX_COLORS: usize = 256;

/// How many colors there are with five bits each of red, green and blue.
pub const KEYS: usize = 32768;

// ---------------------------------------------------------------- quantization

/// Whether a pixel counts as opaque: at least half.
pub open spec fn opaque_at(rgba: Seq<u8>, i: int) -> bool {
    rgba[4 * i + 3] >= 128
}

/// A color with five bits each of red, green and blue, as a number.
pub open spec fn key(r: u8, g: u8, b: u8) -> int {
    (r as int / 8) * 1024 + (g as int / 8) * 32 + b as int / 8
}

/// The color of a pixel, with five bits each.
pub open spec fn key_at(rgba: Seq<u8>, i: int) -> int {
    key(rgba[4 * i], rgba[4 * i + 1], rgba[4 * i + 2])
}

/// The sums of red, green and blue over the opaque ones of the first `n` pixels that have the
/// given color, and how many those are.
pub open spec fn tally(rgba: Seq<u8>, n: int, k: int) -> (nat, nat, nat, nat)
    decreases n,
{
    if n <= 0 {
        (0, 0, 0, 0)
    } else {
        let t = tally(rgba, n - 1, k);
        if opaque_at(rgba, n - 1) && key_at(rgba, n - 1) == k {
            (
                t.0 + rgba[4 * (n - 1)] as nat,
                t.1 + rgba[4 * (n - 1) + 1] as nat,
                t.2 + rgba[4 * (n - 1) + 2] as nat,
                t.3 + 1,
            )
        } else {
            t
        }
    }
}

/// How many opaque pixels have the given color.
pub open spec fn count_of(rgba: Seq<u8>, k: int) -> nat {
    tally(rgba, rgba.len() as int / 4, k).3
}

/// A color put into a list sorted by frequency, behind those that are as frequent.
pub open spec fn with_key(keys: Seq<int>, k: int, rgba: Seq<u8>) -> Seq<int>
    decreases keys.len(),
{
    if keys.len() > 0 && count_of(rgba, keys.last()) < count_of(rgba, k) {
        with_key(keys.drop_last(), k, rgba).push(keys.last())
    } else {
        keys.push(k)
    }
}

/// As many of the first elements as a palette holds.
pub open spec fn palette_part(keys: Seq<int>) -> Seq<int> {
    if keys.len() > SIXEL_MAX_COLORS {
        keys.take(SIXEL_MAX_COLORS as int)
    } else {
        keys
    }
}

/// The most frequent of the colors below `n`, most frequent first; of colors that are equally
/// frequent the smaller number first.
pub open spec fn frequent_keys(rgba: Seq<u8>, n: int) -> Seq<int>
    decreases n,
{
    if n <= 0 {
        seq![]
    } else {
        let before = frequent_keys(rgba, n - 1);
        if count_of(rgba, n - 1) == 0 {
            before
        } else {
            palette_part(with_key(before, n - 1, rgba))
        }
    }
}

/// The colors of the palette, with five bits each.
pub open spec fn palette_keys(rgba: Seq<u8>) -> Seq<int> {
    frequent_keys(rgba, KEYS as int)
}

/// The average of the opaque pixels that have the given color.
pub open spec fn average(rgba: Seq<u8>, k: int) -> (u8, u8, u8) {
    let t = tally(rgba, rgba.len() as int / 4, k);
    ((t.0 / t.3) as u8, (t.1 / t.3) as u8, (t.2 / t.3) as u8)
}

/// Where a color stands in a palette; 0 where it does not.
pub open spec fn palette_index(keys: Seq<int>, k: int) -> int
    decreases keys.len(),
{
    if keys.len() == 0 {
        0
    } else if keys.last() == k {
        keys.len() - 1
    } else {
        palette_index(keys.drop_last(), k)
    }
}

/// The palette's entry for a pixel: that of its color; 0 for a pixel that is not opaque or
/// whose color is not in the palette.
pub open spec fn index_at(rgba: Seq<u8>, i: int) -> int {
    if opaque_at(rgba, i) {
        palette_index(palette_keys(rgba), key_at(rgba, i))
    } else {
        0
    }
}

/// The sums over the pixels of one color.
#[derive(Clone, Copy)]
pub struct Tally {
    pub r: u128,
    pub g: u128,
    pub b: u128,
    pub count: u128,
}

impl View for Tally {
    type V = (nat, nat, nat, nat);

    open spec fn view(&self) -> (nat, nat, nat, nat) {
        (self.r as nat, self.g as nat, self.b as nat, self.count as nat)
    }
}

proof fn lemma_tally_bounds(rgba: Seq<u8>, n: int, k: int)
    requires
        0 <= n,
    ensures
        tally(rgba, n, k).0 <= 255 * tally(rgba, n, k).3,
        tally(rgba, n, k).1 <= 255 * tally(rgba, n, k).3,
        tally(rgba, n, k).2 <= 255 * tally(rgba, n, k).3,
        tally(rgba, n, k).3 <= n,
    decreases n,
{
    if n > 0 {
        lemma_tally_bounds(rgba, n - 1, k);
    }
}

fn key_of(r: u8, g: u8, b: u8) -> (k: usize)
    ensures
        k == key(r, g, b),
        k < KEYS,
{
    (r as usize / 8) * 1024 + (g as usize / 8) * 32 + b as usize / 8
}

fn tallies_of(rgba: &Vec<u8>) -> (tallies: Vec<Tally>)
    ensures
        tallies@.len() == KEYS,
        forall|k: int|
            0 <= k < KEYS ==> (#[trigger] tallies@[k])@ == tally(
                rgba@,
                rgba@.len() as int / 4,
                k,
            ),
{
    let mut tallies: Vec<Tally> = Vec::new();
    let mut j: usize = 0;
    while j < KEYS
        invariant
            j <= KEYS,
            tallies@.len() == j,
            forall|k: int| 0 <= k < j ==> (#[trigger] tallies@[k])@ == tally(rgba@, 0, k),
        decreases KEYS - j,
    {
        tallies.push(Tally { r: 0, g: 0, b: 0, count: 0 });
        j += 1;
    }
    let n: usize = rgba.len() / 4;
    let mut i: usize = 0;
    while i < n
        invariant
            i <= n,
            n == rgba@.len() / 4,
            4 * n <= usize::MAX,
            tallies@.len() == KEYS,
            forall|k: int| 0 <= k < KEYS ==> (#[trigger] tallies@[k])@ == tally(rgba@, i as int, k),
        decreases n - i,
    {
        let r: u8 = rgba[4 * i];
        let g: u8 = rgba[4 * i + 1];
        let b: u8 = rgba[4 * i + 2];
        let a: u8 = rgba[4 * i + 3];
        let ghost before = tallies@;
        if a >= 128 {
            let k: usize = key_of(r, g, b);
            let t: Tally = tallies[k];
            proof {
                lemma_tally_bounds(rgba@, i as int, k as int);
                assert(t@ == tally(rgba@, i as int, k as int));
            }
            tallies.set(
                k,
                Tally {
                    r: t.r + r as u128,
                    g: t.g + g as u128,
                    b: t.b + b as u128,
                    count: t.count + 1,
                },
            );
            assert(tallies@ == before.update(k as int, tallies@[k as int]));
        }
        assert forall|k: int| 0 <= k < KEYS implies (#[trigger] tallies@[k])@ == tally(
            rgba@,
            i + 1,
            k,
        ) by {
            assert(before[k]@ == tally(rgba@, i as int, k));
        }
        i += 1;
    }
    tallies
}

/// The contents of a list of keys.
pub open spec fn key_views(keys: Seq<usize>) -> Seq<int> {
    keys.map_values(|k: usize| k as int)
}

fn insert_key(keys: &mut Vec<usize>, k: usize, tallies: &Vec<Tally>, rgba: &Vec<u8>)
    requires
        k < KEYS,
        tallies@.len() == KEYS,
        forall|j: int|
            0 <= j < KEYS ==> (#[trigger] tallies@[j])@ == tally(
                rgba@,
                rgba@.len() as int / 4,
                j,
            ),
        forall|j: int| 0 <= j < old(keys)@.len() ==> #[trigger] old(keys)@[j] < KEYS,
    ensures
        key_views(final(keys)@) == palette_part(
            with_key(key_views(old(keys)@), k as int, rgba@),
        ),
        forall|j: int| 0 <= j < final(keys)@.len() ==> #[trigger] final(keys)@[j] < KEYS,
{
    let ghost before = key_views(keys@);
    let mut n: usize = keys.len();
    assert(before.take(n as int) =~= before);
    assert(with_key(before.take(n as int), k as int, rgba@) + before.skip(n as int) =~= with_key(
        before,
        k as int,
        rgba@,
    ));
    while n > 0
        invariant_except_break
            n <= keys@.len(),
            k < KEYS,
            keys@ == old(keys)@,
            before == key_views(keys@),
            tallies@.len() == KEYS,
            forall|j: int|
                0 <= j < KEYS ==> (#[trigger] tallies@[j])@ == tally(
                    rgba@,
                    rgba@.len() as int / 4,
                    j,
                ),
            forall|j: int| 0 <= j < keys@.len() ==> #[trigger] keys@[j] < KEYS,
            with_key(before.take(n as int), k as int, rgba@) + before.skip(n as int) == with_key(
                before,
                k as int,
                rgba@,
            ),
        ensures
            n <= keys@.len(),
            keys@ == old(keys)@,
            with_key(before, k as int, rgba@) == before.take(n as int).push(k as int)
                + before.skip(n as int),
        decreases n,
    {
        let last: usize = keys[n - 1];
        assert(before.take(n as int).last() == last);
        assert(before.take(n as int).drop_last() =~= before.take(n - 1));
        assert(tallies@[last as int]@.3 == count_of(rgba@, last as int));
        assert(tallies@[k as int]@.3 == count_of(rgba@, k as int));
        if tallies[last].count >= tallies[k].count {
            break;
        }
        assert(with_key(before.take(n - 1), k as int, rgba@).push(last as int) + before.skip(
            n as int,
        ) =~= with_key(before.take(n - 1), k as int, rgba@) + before.skip(n - 1));
        n -= 1;
    }
    keys.insert(n, k);
    let ghost inserted = keys@;
    assert(key_views(keys@) =~= before.take(n as int).push(k as int) + before.skip(n as int));
    if keys.len() > SIXEL_MAX_COLORS {
        keys.truncate(SIXEL_MAX_COLORS);
        assert(key_views(keys@) =~= key_views(inserted).take(SIXEL_MAX_COLORS as int));
    }
}

fn keys_of(tallies: &Vec<Tally>, rgba: &Vec<u8>) -> (keys: Vec<usize>)
    requires
        tallies@.len() == KEYS,
        forall|j: int|
            0 <= j < KEYS ==> (#[trigger] tallies@[j])@ == tally(
                rgba@,
                rgba@.len() as int / 4,
                j,
            ),
    ensures
        key_views(keys@) == palette_keys(rgba@),
        forall|j: int| 0 <= j < keys@.len() ==> #[trigger] keys@[j] < KEYS,
{
    let mut keys: Vec<usize> = Vec::new();
    let mut k: usize = 0;
    assert(key_views(keys@) =~= frequent_keys(rgba@, 0));
    while k < KEYS
        invariant
            k <= KEYS,
            tallies@.len() == KEYS,
            forall|j: int|
                0 <= j < KEYS ==> (#[trigger] tallies@[j])@ == tally(
                    rgba@,
                    rgba@.len() as int / 4,
                    j,
                ),
            key_views(keys@) == frequent_keys(rgba@, k as int),
            forall|j: int| 0 <= j < keys@.len() ==> #[trigger] keys@[j] < KEYS,
        decreases KEYS - k,
    {
        assert(tallies@[k as int]@.3 == count_of(rgba@, k as int));
        if tallies[k].count > 0 {
            insert_key(&mut keys, k, tallies, rgba);
        }
        k += 1;
    }
    keys
}

/// Every color of a palette occurs in the image.
proof fn lemma_keys_occur(rgba: Seq<u8>, n: int)
    requires
        0 <= n <= KEYS,
    ensures
        frequent_keys(rgba, n).len() <= SIXEL_MAX_COLORS,
        forall|i: int|
            0 <= i < frequent_keys(rgba, n).len() ==> {
                let k = #[trigger] frequent_keys(rgba, n)[i];
                0 <= k < n && count_of(rgba, k) > 0
            },
    decreases n,
{
    if n > 0 {
        lemma_keys_occur(rgba, n - 1);
        let before = frequent_keys(rgba, n - 1);
        if count_of(rgba, n - 1) > 0 {
            lemma_with_key(before, n - 1, rgba);
            let all = with_key(before, n - 1, rgba);
            assert forall|i: int| 0 <= i < frequent_keys(rgba, n).len() implies ({
                let k = #[trigger] frequent_keys(rgba, n)[i];
                0 <= k < n && count_of(rgba, k) > 0
            }) by {
                assert(frequent_keys(rgba, n)[i] == all[i]);
                if all[i] != n - 1 {
                    let j = choose|j: int| 0 <= j < before.len() && before[j] == all[i];
                    assert(0 <= before[j] < n - 1);
                }
            }
        } else {
            assert forall|i: int| 0 <= i < frequent_keys(rgba, n).len() implies ({
                let k = #[trigger] frequent_keys(rgba, n)[i];
                0 <= k < n && count_of(rgba, k) > 0
            }) by {
                assert(0 <= before[i] < n - 1);
            }
        }
    }
}

/// The elements of a list that a color was put into are those that it had, and the color.
proof fn lemma_with_key(keys: Seq<int>, k: int, rgba: Seq<u8>)
    ensures
        with_key(keys, k, rgba).len() == keys.len() + 1,
        forall|i: int|
            0 <= i <= keys.len() ==> (#[trigger] with_key(keys, k, rgba)[i] == k || keys.contains(
                with_key(keys, k, rgba)[i],
            )),
        with_key(keys, k, rgba).contains(k),
        forall|i: int|
            0 <= i < keys.len() ==> with_key(keys, k, rgba).contains(#[trigger] keys[i]),
    decreases keys.len(),
{
    let all = with_key(keys, k, rgba);
    if keys.len() > 0 && count_of(rgba, keys.last()) < count_of(rgba, k) {
        let front = keys.drop_last();
        let inner = with_key(front, k, rgba);
        lemma_with_key(front, k, rgba);
        assert forall|i: int| 0 <= i <= keys.len() implies (#[trigger] all[i] == k
            || keys.contains(all[i])) by {
            if i < keys.len() {
                assert(all[i] == inner[i]);
                if inner[i] != k {
                    let j = choose|j: int| 0 <= j < front.len() && front[j] == inner[i];
                    assert(keys[j] == all[i]);
                }
            } else {
                assert(all[i] == keys[keys.len() - 1]);
            }
        }
        let j = choose|j: int| 0 <= j < inner.len() && inner[j] == k;
        assert(all[j] == k);
        assert forall|i: int| 0 <= i < keys.len() implies all.contains(#[trigger] keys[i]) by {
            if i < keys.len() - 1 {
                assert(front[i] == keys[i]);
                let j = choose|j: int| 0 <= j < inner.len() && inner[j] == front[i];
                assert(all[j] == keys[i]);
            } else {
                assert(all[all.len() - 1] == keys[i]);
            }
        }
    } else {
        assert(all[all.len() - 1] == k);
        assert forall|i: int| 0 <= i <= keys.len() implies (#[trigger] all[i] == k
            || keys.contains(all[i])) by {
            if i < keys.len() {
                assert(all[i] == keys[i]);
            }
        }
        assert forall|i: int| 0 <= i < keys.len() implies all.contains(#[trigger] keys[i]) by {
            assert(all[i] == keys[i]);
        }
    }
}

/// The colors that a list of colors with five bits each stands for in an image.
pub open spec fn palette_of(rgba: Seq<u8>, keys: Seq<int>) -> Seq<(u8, u8, u8)> {
    keys.map_values(|k: int| average(rgba, k))
}

/// A palette as triples.
pub open spec fn triples(palette: Seq<[u8; 3]>) -> Seq<(u8, u8, u8)> {
    palette.map_values(|c: [u8; 3]| (c@[0], c@[1], c@[2]))
}

fn averages(keys: &Vec<usize>, tallies: &Vec<Tally>, rgba: &Vec<u8>) -> (palette: Vec<[u8; 3]>)
    requires
        tallies@.len() == KEYS,
        forall|j: int|
            0 <= j < KEYS ==> (#[trigger] tallies@[j])@ == tally(
                rgba@,
                rgba@.len() as int / 4,
                j,
            ),
        key_views(keys@) == palette_keys(rgba@),
        forall|j: int| 0 <= j < keys@.len() ==> #[trigger] keys@[j] < KEYS,
    ensures
        triples(palette@) == palette_of(rgba@, palette_keys(rgba@)),
{
    let ghost wanted = palette_of(rgba@, palette_keys(rgba@));
    let mut palette: Vec<[u8; 3]> = Vec::new();
    let mut i: usize = 0;
    assert(triples(palette@) =~= wanted.take(0));
    while i < keys.len()
        invariant
            i <= keys@.len(),
            tallies@.len() == KEYS,
            forall|j: int|
                0 <= j < KEYS ==> (#[trigger] tallies@[j])@ == tally(
                    rgba@,
                    rgba@.len() as int / 4,
                    j,
                ),
            key_views(keys@) == palette_keys(rgba@),
            forall|j: int| 0 <= j < keys@.len() ==> #[trigger] keys@[j] < KEYS,
            wanted == palette_of(rgba@, palette_keys(rgba@)),
            triples(palette@) == wanted.take(i as int),
        decreases keys@.len() - i,
    {
        let k: usize = keys[i];
        let t: Tally = tallies[k];
        proof {
            lemma_keys_occur(rgba@, KEYS as int);
            assert(palette_keys(rgba@)[i as int] == k);
            assert(count_of(rgba@, k as int) > 0);
            lemma_tally_bounds(rgba@, rgba@.len() as int / 4, k as int);
            assert(t@ == tally(rgba@, rgba@.len() as int / 4, k as int));
            lemma_average_fits(t.r as nat, t.count as nat);
            lemma_average_fits(t.g as nat, t.count as nat);
            lemma_average_fits(t.b as nat, t.count as nat);
        }
        let color: [u8; 3] = [
            (t.r / t.count) as u8,
            (t.g / t.count) as u8,
            (t.b / t.count) as u8,
        ];
        let ghost before = palette@;
        palette.push(color);
        assert((color@[0], color@[1], color@[2]) == wanted[i as int]);
        assert(triples(palette@) =~= triples(before).push(wanted[i as int]));
        i += 1;
        assert(wanted.take(i as int) =~= wanted.take(i - 1).push(wanted[i - 1]));
    }
    assert(wanted.take(i as int) =~= wanted);
    palette
}

proof fn lemma_average_fits(sum: nat, count: nat)
    requires
        count > 0,
        sum <= 255 * count,
    ensures
        sum / count <= 255,
{
    assert(sum / count <= 255) by (nonlinear_arith)
        requires
            count > 0,
            sum <= 255 * count,
    ;
}

fn lookup_of(keys: &Vec<usize>) -> (lookup: Vec<u8>)
    requires
        keys@.len() <= SIXEL_MAX_COLORS,
        forall|j: int| 0 <= j < keys@.len() ==> #[trigger] keys@[j] < KEYS,
    ensures
        lookup@.len() == KEYS,
        forall|k: int|
            0 <= k < KEYS ==> #[trigger] lookup@[k] == palette_index(key_views(keys@), k),
{
    let ghost all = key_views(keys@);
    let mut lookup: Vec<u8> = Vec::new();
    let mut j: usize = 0;
    while j < KEYS
        invariant
            j <= KEYS,
            lookup@.len() == j,
            forall|k: int| 0 <= k < j ==> #[trigger] lookup@[k] == 0,
        decreases KEYS - j,
    {
        lookup.push(0);
        j += 1;
    }
    let mut i: usize = 0;
    assert(all.take(0) =~= seq![]);
    while i < keys.len()
        invariant
            i <= keys@.len() <= SIXEL_MAX_COLORS,
            all == key_views(keys@),
            lookup@.len() == KEYS,
            forall|j: int| 0 <= j < keys@.len() ==> #[trigger] keys@[j] < KEYS,
            forall|k: int|
                0 <= k < KEYS ==> #[trigger] lookup@[k] == palette_index(all.take(i as int), k),
        decreases keys@.len() - i,
    {
        let ghost before = lookup@;
        assert(all.take(i + 1).drop_last() =~= all.take(i as int));
        assert(all.take(i + 1).last() == keys@[i as int]);
        lookup.set(keys[i], i as u8);
        assert forall|k: int| 0 <= k < KEYS implies #[trigger] lookup@[k] == palette_index(
            all.take(i + 1),
            k,
        ) by {
            assert(before[k] == palette_index(all.take(i as int), k));
        }
        i += 1;
    }
    assert(all.take(i as int) =~= all);
    lookup
}

/// Quantize an RGBA image to a palette of up to 256 colors. Returns the palette (RGB triples)
/// and an index buffer mapping each pixel to a palette entry; neither where the buffer's length
/// is not that of an image of the given size.
pub fn quantize_to_palette(rgba: &Vec<u8>, width: u32, height: u32) -> (r: (Vec<[u8; 3]>, Vec<u8>))
    ensures
        if rgba@.len() == width * height * 4 {
            &&& triples(r.0@) == palette_of(rgba@, palette_keys(rgba@))
            &&& r.0@.len() <= SIXEL_MAX_COLORS
            &&& r.1@.len() == width * height
            &&& forall|i: int| 0 <= i < width * height ==> #[trigger] r.1@[i] == index_at(rgba@, i)
        } else {
            r.0@.len() == 0 && r.1@.len() == 0
        },
{
    assert(0 <= width * height <= 0xffff_ffff * 0xffff_ffff) by (nonlinear_arith)
        requires
            width <= 0xffff_ffff,
            height <= 0xffff_ffff,
    ;
    let pixels: u128 = width as u128 * height as u128;
    if rgba.len() as u128 != pixels * 4 {
        return (Vec::new(), Vec::new());
    }
    let n: usize = rgba.len() / 4;
    let tallies = tallies_of(rgba);
    let keys = keys_of(&tallies, rgba);
    let palette = averages(&keys, &tallies, rgba);
    proof {
        lemma_keys_occur(rgba@, KEYS as int);
        assert(key_views(keys@).len() == keys@.len());
        assert(triples(palette@).len() == palette@.len());
    }
    let lookup = lookup_of(&keys);
    let mut indices: Vec<u8> = Vec::new();
    let mut i: usize = 0;
    while i < n
        invariant
            i <= n,
            n == rgba@.len() / 4,
            rgba@.len() % 4 == 0,
            n <= usize::MAX / 4,
            lookup@.len() == KEYS,
            forall|k: int|
                0 <= k < KEYS ==> #[trigger] lookup@[k] == palette_index(palette_keys(rgba@), k),
            indices@.len() == i,
            forall|j: int| 0 <= j < i ==> #[trigger] indices@[j] == index_at(rgba@, j),
        decreases n - i,
    {
        if rgba[4 * i + 3] < 128 {
            indices.push(0);
        } else {
            let k: usize = key_of(rgba[4 * i], rgba[4 * i + 1], rgba[4 * i + 2]);
            indices.push(lookup[k]);
        }
        i += 1;
    }
    (palette, indices)
}

/// A palette holds the most frequent colors: at most 256, each one of the image, in order of
/// their frequency, and no color that is left out is more frequent than one that is in.
pub proof fn law_palette_most_frequent(rgba: Seq<u8>, n: int)
    requires
        0 <= n <= KEYS,
    ensures
        frequent_keys(rgba, n).len() <= SIXEL_MAX_COLORS,
        forall|i: int, j: int|
            0 <= i < j < frequent_keys(rgba, n).len() ==> count_of(
                rgba,
                #[trigger] frequent_keys(rgba, n)[i],
            ) >= count_of(rgba, #[trigger] frequent_keys(rgba, n)[j]),
        forall|k: int|
            0 <= k < n && #[trigger] count_of(rgba, k) > 0 && !frequent_keys(rgba, n).contains(k)
                ==> frequent_keys(rgba, n).len() == SIXEL_MAX_COLORS && count_of(
                rgba,
                frequent_keys(rgba, n).last(),
            ) >= count_of(rgba, k),
    decreases n,
{
    lemma_keys_occur(rgba, n);
    if n > 0 {
        law_palette_most_frequent(rgba, n - 1);
        let before = frequent_keys(rgba, n - 1);
        let after = frequent_keys(rgba, n);
        if count_of(rgba, n - 1) > 0 {
            let all = with_key(before, n - 1, rgba);
            lemma_with_key(before, n - 1, rgba);
            lemma_with_key_sorted(before, n - 1, rgba);
            assert forall|i: int| 0 <= i < after.len() implies after[i] == all[i] by {}
            assert forall|i: int, j: int| 0 <= i < j < after.len() implies count_of(
                rgba,
                #[trigger] after[i],
            ) >= count_of(rgba, #[trigger] after[j]) by {
                assert(after[i] == all[i] && after[j] == all[j]);
            }
            assert forall|k: int|
                0 <= k < n && #[trigger] count_of(rgba, k) > 0 && !after.contains(
                    k,
                ) implies after.len() == SIXEL_MAX_COLORS && count_of(rgba, after.last())
                >= count_of(rgba, k) by {
                if all.contains(k) {
                    let j = choose|j: int| 0 <= j < all.len() && all[j] == k;
                    if j < after.len() {
                        assert(after[j] == k);
                    }
                    assert(all.len() > SIXEL_MAX_COLORS);
                    assert(after.last() == all[SIXEL_MAX_COLORS - 1]);
                    assert(j >= SIXEL_MAX_COLORS);
                    assert(count_of(rgba, all[SIXEL_MAX_COLORS - 1]) >= count_of(rgba, all[j]));
                } else {
                    if before.contains(k) {
                        let j = choose|j: int| 0 <= j < before.len() && before[j] == k;
                        assert(all.contains(before[j]));
                    }
                    assert(!before.contains(k));
                    assert(k < n - 1);
                    assert(before.len() == SIXEL_MAX_COLORS);
                    assert(count_of(rgba, before.last()) >= count_of(rgba, k));
                    assert(after.last() == all[SIXEL_MAX_COLORS - 1]);
                    if all[SIXEL_MAX_COLORS - 1] == n - 1 {
                        lemma_keys_occur(rgba, n - 1);
                        assert forall|j: int| 0 <= j < before.len() implies before[j] != n - 1 by {
                            assert(0 <= before[j] < n - 1);
                        }
                        lemma_last_moves_back(before, n - 1, rgba);
                    } else {
                        let j = choose|j: int|
                            0 <= j < before.len() && before[j] == all[SIXEL_MAX_COLORS - 1];
                        if j < before.len() - 1 {
                            assert(count_of(rgba, before[j]) >= count_of(
                                rgba,
                                before[before.len() - 1],
                            ));
                        }
                    }
                }
            }
        }
    }
}

proof fn lemma_with_key_sorted(keys: Seq<int>, k: int, rgba: Seq<u8>)
    requires
        forall|i: int, j: int|
            0 <= i < j < keys.len() ==> count_of(rgba, #[trigger] keys[i]) >= count_of(
                rgba,
                #[trigger] keys[j],
            ),
    ensures
        forall|i: int, j: int|
            0 <= i < j < with_key(keys, k, rgba).len() ==> count_of(
                rgba,
                #[trigger] with_key(keys, k, rgba)[i],
            ) >= count_of(rgba, #[trigger] with_key(keys, k, rgba)[j]),
    decreases keys.len(),
{
    let all = with_key(keys, k, rgba);
    if keys.len() > 0 && count_of(rgba, keys.last()) < count_of(rgba, k) {
        let front = keys.drop_last();
        lemma_with_key_sorted(front, k, rgba);
        lemma_with_key(front, k, rgba);
        let inner = with_key(front, k, rgba);
        assert forall|i: int, j: int| 0 <= i < j < all.len() implies count_of(
            rgba,
            #[trigger] all[i],
        ) >= count_of(rgba, #[trigger] all[j]) by {
            assert(all[i] == inner[i]);
            if j < inner.len() {
                assert(all[j] == inner[j]);
            } else if inner[i] != k {
                let m = choose|m: int| 0 <= m < front.len() && front[m] == inner[i];
                assert(keys[m] == inner[i]);
                assert(keys[keys.len() - 1] == all[j]);
            }
        }
    } else {
        assert forall|i: int, j: int| 0 <= i < j < all.len() implies count_of(
            rgba,
            #[trigger] all[i],
        ) >= count_of(rgba, #[trigger] all[j]) by {
            assert(all[i] == keys[i]);
            if j < keys.len() {
                assert(all[j] == keys[j]);
            } else if i < keys.len() - 1 {
                assert(count_of(rgba, keys[i]) >= count_of(rgba, keys[keys.len() - 1]));
            }
        }
    }
}

/// A color that ends up in the place of the last one is at least as frequent.
proof fn lemma_last_moves_back(keys: Seq<int>, k: int, rgba: Seq<u8>)
    requires
        keys.len() > 0,
        !keys.contains(k),
        with_key(keys, k, rgba)[keys.len() - 1] == k,
    ensures
        count_of(rgba, k) >= count_of(rgba, keys.last()),
{
    if count_of(rgba, keys.last()) >= count_of(rgba, k) {
        assert(with_key(keys, k, rgba)[keys.len() - 1] == keys[keys.len() - 1]);
    }
}

// ---------------------------------------------------------------- encoding

/// The register that sets a color of the palette, its parts in percent.
pub open spec fn register(i: nat, c: (u8, u8, u8)) -> Seq<char> {
    "#"@ + decimal(i) + ";2;"@ + decimal((c.0 as int * 100 / 255) as nat) + ";"@ + decimal(
        (c.1 as int * 100 / 255) as nat,
    ) + ";"@ + decimal((c.2 as int * 100 / 255) as nat)
}

/// The registers of a palette.
pub open spec fn registers(palette: Seq<(u8, u8, u8)>) -> Seq<char>
    decreases palette.len(),
{
    if palette.len() == 0 {
        seq![]
    } else {
        registers(palette.drop_last()) + register((palette.len() - 1) as nat, palette.last())
    }
}

/// Whether the pixel in column `x` and row `y` has the given color; none below the image has.
pub open spec fn lit(indices: Seq<u8>, width: int, height: int, x: int, y: int, color: int) -> bool {
    y < height && indices[y * width + x] == color
}

/// The value of a row of pixels within six.
pub open spec fn weight(bit: int) -> int {
    if bit == 0 {
        1
    } else if bit == 1 {
        2
    } else if bit == 2 {
        4
    } else if bit == 3 {
        8
    } else if bit == 4 {
        16
    } else {
        32
    }
}

/// The values of those of the first `n` of six pixels in a column that have the given color.
pub open spec fn column_bits(
    indices: Seq<u8>,
    width: int,
    height: int,
    x: int,
    top: int,
    color: int,
    n: int,
) -> int
    decreases n,
{
    if n <= 0 {
        0
    } else {
        column_bits(indices, width, height, x, top, color, n - 1) + (if lit(
            indices,
            width,
            height,
            x,
            top + n - 1,
            color,
        ) {
            weight(n - 1)
        } else {
            0
        })
    }
}

/// The characters for one color of six rows of pixels, one per column.
pub open spec fn color_row(indices: Seq<u8>, width: int, height: int, top: int, color: int) -> Seq<
    char,
> {
    Seq::new(
        width as nat,
        |x: int| (63 + column_bits(indices, width, height, x, top, color, 6)) as char,
    )
}

/// Whether any of six rows' pixels has the color that a row of characters is for.
pub open spec fn has_pixel(row: Seq<char>) -> bool {
    exists|x: int| 0 <= x < row.len() && #[trigger] row[x] != '?'
}

/// A run of a character: from three on by a count.
pub open spec fn run_text(c: char, n: nat) -> Seq<char> {
    if n >= 3 {
        "!"@ + decimal(n) + seq![c]
    } else {
        repeated(c, n)
    }
}

/// A row of characters with its runs shortened.
pub open spec fn run_lengths(row: Seq<char>) -> Seq<char>
    decreases row.len(),
    via run_lengths_decreases
{
    if row.len() == 0 {
        seq![]
    } else {
        let n = run_length(row, row[0]);
        run_text(row[0], n) + run_lengths(row.skip(n as int))
    }
}

#[via_fn]
proof fn run_lengths_decreases(row: Seq<char>) {
    if row.len() > 0 {
        lemma_run_length(row, row[0]);
    }
}

/// Six rows of pixels in the first `n` colors: each color that occurs, the next one over the
/// one before.
pub open spec fn band(indices: Seq<u8>, width: int, height: int, top: int, n: int) -> Seq<char>
    decreases n,
{
    if n <= 0 {
        seq![]
    } else {
        let before = band(indices, width, height, top, n - 1);
        let row = color_row(indices, width, height, top, n - 1);
        if has_pixel(row) {
            before + (if before.len() > 0 {
                "$"@
            } else {
                seq![]
            }) + "#"@ + decimal((n - 1) as nat) + run_lengths(row)
        } else {
            before
        }
    }
}

/// The rows of pixels from `top` on, six at a time.
pub open spec fn bands(indices: Seq<u8>, width: int, height: int, top: int, colors: int) -> Seq<
    char,
>
    decreases height - top + 6,
{
    if top >= height {
        seq![]
    } else {
        band(indices, width, height, top, colors) + "-"@ + bands(
            indices,
            width,
            height,
            top + 6,
            colors,
        )
    }
}

/// The Sixel sequence for an indexed image; nothing without colors.
pub open spec fn sixel_sequence(
    palette: Seq<(u8, u8, u8)>,
    indices: Seq<u8>,
    width: int,
    height: int,
) -> Seq<char> {
    if palette.len() == 0 {
        seq![]
    } else {
        "\u{1b}P0;0;0q"@ + registers(palette) + bands(
            indices,
            width,
            height,
            0,
            palette.len() as int,
        ) + "\u{1b}\\"@
    }
}

fn push_register(out: &mut Vec<char>, i: usize, c: [u8; 3])
    ensures
        final(out)@ == old(out)@ + register(i as nat, (c[0], c[1], c[2])),
{
    let ghost start = out@;
    push_str(out, "#");
    push_number(out, i as u64);
    push_str(out, ";2;");
    push_number(out, (c[0] as u64) * 100 / 255);
    push_str(out, ";");
    push_number(out, (c[1] as u64) * 100 / 255);
    push_str(out, ";");
    push_number(out, (c[2] as u64) * 100 / 255);
    assert(out@ =~= start + register(i as nat, (c[0], c[1], c[2])));
}

fn push_registers(out: &mut Vec<char>, palette: &Vec<[u8; 3]>)
    ensures
        final(out)@ == old(out)@ + registers(triples(palette@)),
{
    let ghost all = triples(palette@);
    let ghost start = out@;
    let mut i: usize = 0;
    assert(all.take(0) =~= seq![]);
    assert(start + registers(all.take(0)) =~= start);
    while i < palette.len()
        invariant
            i <= palette@.len(),
            all == triples(palette@),
            out@ == start + registers(all.take(i as int)),
        decreases palette@.len() - i,
    {
        assert(all.take(i + 1).drop_last() =~= all.take(i as int));
        assert(all.take(i + 1).last() == all[i as int]);
        push_register(out, i, palette[i]);
        assert(out@ =~= start + (registers(all.take(i as int)) + register(
            i as nat,
            all[i as int],
        )));
        i += 1;
    }
    assert(all.take(i as int) =~= all);
}

/// What the sizes of an indexed image have to obey.
pub open spec fn indexed(indices: Seq<u8>, width: usize, height: usize) -> bool {
    indices.len() == width * height
}

proof fn lemma_pixel_in_range(width: int, height: int, x: int, y: int)
    requires
        0 <= x < width,
        0 <= y < height,
    ensures
        0 <= y * width + x < width * height,
        0 <= y * width,
{
    assert(0 <= y * width + x < width * height && 0 <= y * width) by (nonlinear_arith)
        requires
            0 <= x < width,
            0 <= y < height,
    ;
}

fn column_value(
    indices: &Vec<u8>,
    width: usize,
    height: usize,
    x: usize,
    top: usize,
    color: u8,
) -> (bits: u8)
    requires
        indexed(indices@, width, height),
        x < width,
        top < height,
    ensures
        bits == column_bits(
            indices@,
            width as int,
            height as int,
            x as int,
            top as int,
            color as int,
            6,
        ),
        bits < 64,
{
    let mut bits: u8 = 0;
    let mut w: u8 = 1;
    let mut bit: usize = 0;
    while bit < 6
        invariant
            bit <= 6,
            indexed(indices@, width, height),
            indices@.len() == indices.len(),
            x < width,
            top < height,
            bit < 6 ==> w == weight(bit as int),
            bits == column_bits(
                indices@,
                width as int,
                height as int,
                x as int,
                top as int,
                color as int,
                bit as int,
            ),
            bits < (if bit < 6 {
                weight(bit as int)
            } else {
                64
            }),
        decreases 6 - bit,
    {
        if bit < height - top {
            let y: usize = top + bit;
            proof {
                lemma_pixel_in_range(width as int, height as int, x as int, y as int);
            }
            if indices[y * width + x] == color {
                bits = bits + w;
            }
        }
        if bit < 5 {
            w = 2 * w;
        }
        bit += 1;
    }
    bits
}

fn row_of_color(indices: &Vec<u8>, width: usize, height: usize, top: usize, color: u8) -> (r: (
    Vec<char>,
    bool,
))
    requires
        indexed(indices@, width, height),
        top < height,
    ensures
        r.0@ == color_row(indices@, width as int, height as int, top as int, color as int),
        r.1 == has_pixel(r.0@),
{
    let ghost wanted = color_row(indices@, width as int, height as int, top as int, color as int);
    let mut row: Vec<char> = Vec::new();
    let mut any = false;
    let mut x: usize = 0;
    while x < width
        invariant
            x <= width,
            indexed(indices@, width, height),
            top < height,
            wanted == color_row(
                indices@,
                width as int,
                height as int,
                top as int,
                color as int,
            ),
            row@ == wanted.take(x as int),
            any == has_pixel(row@),
        decreases width - x,
    {
        let bits: u8 = column_value(indices, width, height, x, top, color);
        let c: char = (63u8 + bits) as char;
        let ghost before = row@;
        row.push(c);
        if bits != 0 {
            any = true;
            assert(row@[x as int] != '?');
        } else {
            assert(has_pixel(row@) == has_pixel(before)) by {
                if has_pixel(before) {
                    let k = choose|k: int| 0 <= k < before.len() && #[trigger] before[k] != '?';
                    assert(row@[k] != '?');
                }
                if has_pixel(row@) {
                    let k = choose|k: int| 0 <= k < row@.len() && #[trigger] row@[k] != '?';
                    assert(k < before.len());
                    assert(before[k] != '?');
                }
            }
        }
        x += 1;
        assert(wanted.take(x as int) =~= wanted.take(x - 1).push(wanted[x - 1]));
    }
    assert(wanted.take(x as int) =~= wanted);
    (row, any)
}

fn push_run_lengths(out: &mut Vec<char>, row: &Vec<char>)
    ensures
        final(out)@ == old(out)@ + run_lengths(row@),
{
    let ghost start = out@;
    let mut i: usize = 0;
    assert(row@.skip(0) =~= row@);
    while i < row.len()
        invariant
            i <= row@.len(),
            out@ + run_lengths(row@.skip(i as int)) == start + run_lengths(row@),
        decreases row@.len() - i,
    {
        let ghost before = out@;
        let ghost rest = row@.skip(i as int);
        let c: char = row[i];
        assert(rest[0] == c);
        let tail = cut(row, i, row.len());
        assert(tail@ =~= rest);
        let n: usize = leading_run(&tail, c);
        proof {
            lemma_run_length(rest, c);
            assert(n >= 1);
        }
        if n >= 3 {
            push_str(out, "!");
            push_number(out, n as u64);
            out.push(c);
            assert(out@ =~= before + run_text(c, n as nat));
        } else {
            push_repeated(out, c, n);
        }
        assert(rest.skip(n as int) =~= row@.skip(i + n));
        assert(out@ + run_lengths(row@.skip(i + n)) =~= before + (run_text(c, n as nat)
            + run_lengths(rest.skip(n as int))));
        i += n;
    }
    assert(out@ + run_lengths(row@.skip(i as int)) =~= out@);
}

fn push_band(
    out: &mut Vec<char>,
    indices: &Vec<u8>,
    width: usize,
    height: usize,
    top: usize,
    colors: usize,
)
    requires
        indexed(indices@, width, height),
        top < height,
        colors <= SIXEL_MAX_COLORS,
    ensures
        final(out)@ == old(out)@ + band(
            indices@,
            width as int,
            height as int,
            top as int,
            colors as int,
        ),
{
    let ghost start = out@;
    let ghost w = width as int;
    let ghost h = height as int;
    let ghost t = top as int;
    let mut any = false;
    let mut color: usize = 0;
    assert(start + band(indices@, w, h, t, 0) =~= start);
    while color < colors
        invariant
            color <= colors <= SIXEL_MAX_COLORS,
            indexed(indices@, width, height),
            top < height,
            w == width && h == height && t == top,
            out@ == start + band(indices@, w, h, t, color as int),
            any == (band(indices@, w, h, t, color as int).len() > 0),
        decreases colors - color,
    {
        let (row, seen) = row_of_color(indices, width, height, top, color as u8);
        let ghost before = band(indices@, w, h, t, color as int);
        if seen {
            if any {
                push_str(out, "$");
            }
            push_str(out, "#");
            push_number(out, color as u64);
            push_run_lengths(out, &row);
            proof {
                lemma_decimal(color as nat);
            }
            assert(out@ =~= start + (before + (if before.len() > 0 {
                "$"@
            } else {
                seq![]
            }) + "#"@ + decimal(color as nat) + run_lengths(row@)));
            any = true;
        }
        color += 1;
    }
}

/// The Sixel sequence for an indexed image; nothing without colors.
pub fn encode_sixel(palette: &Vec<[u8; 3]>, indices: &Vec<u8>, width: usize, height: usize) -> (s:
    String)
    requires
        indexed(indices@, width, height),
        palette@.len() <= SIXEL_MAX_COLORS,
    ensures
        s@ == sixel_sequence(triples(palette@), indices@, width as int, height as int),
{
    let mut out: Vec<char> = Vec::new();
    assert(triples(palette@).len() == palette@.len());
    if palette.len() == 0 {
        assert(out@ =~= sixel_sequence(triples(palette@), indices@, width as int, height as int));
        return string_of(&out);
    }
    let colors: usize = palette.len();
    push_str(&mut out, "\u{1b}P0;0;0q");
    push_registers(&mut out, palette);
    let ghost start = out@;
    let ghost w = width as int;
    let ghost h = height as int;
    let ghost n = colors as int;
    let mut top: usize = 0;
    while top < height
        invariant
            indexed(indices@, width, height),
            colors <= SIXEL_MAX_COLORS,
            w == width && h == height && n == colors,
            out@ + bands(indices@, w, h, top as int, n) == start + bands(indices@, w, h, 0, n),
        decreases height - top,
    {
        let ghost before = out@;
        push_band(&mut out, indices, width, height, top, colors);
        push_str(&mut out, "-");
        let ghost next = top + 6;
        assert(out@ + bands(indices@, w, h, next, n) =~= before + (band(
            indices@,
            w,
            h,
            top as int,
            n,
        ) + "-"@ + bands(indices@, w, h, next, n)));
        if height - top <= 6 {
            assert(bands(indices@, w, h, next, n) =~= seq![]);
            assert(bands(indices@, w, h, height as int, n) =~= seq![]);
            top = height;
        } else {
            top = top + 6;
        }
    }
    assert(out@ + bands(indices@, w, h, top as int, n) =~= out@);
    push_str(&mut out, "\u{1b}\\");
    assert(out@ =~= "\u{1b}P0;0;0q"@ + registers(triples(palette@)) + bands(indices@, w, h, 0, n)
        + "\u{1b}\\"@);
    string_of(&out)
}

/// Bytes that hold no image.
#[derive(Debug, Clone, Copy, PartialEq, Eq, Structural)]
pub struct NotAnImage;

/// The indices of an image's pixels.
pub open spec fn indices_of(rgba: Seq<u8>) -> Seq<u8> {
    Seq::new(rgba.len() / 4, |i: int| index_at(rgba, i) as u8)
}

/// The Sixel sequence for an image, by its pixels.
pub open spec fn sixel_image(rgba: Seq<u8>, width: u32, height: u32) -> Seq<char> {
    sixel_sequence(
        palette_of(rgba, palette_keys(rgba)),
        indices_of(rgba),
        width as int,
        height as int,
    )
}

/// The Sixel sequence for an image, by its pixels: four bytes each, row by row.
pub fn sixel_of_pixels(rgba: &Vec<u8>, width: u32, height: u32) -> (s: String)
    requires
        rgba@.len() == width * height * 4,
    ensures
        s@ == sixel_image(rgba@, width, height),
{
    let (palette, indices) = quantize_to_palette(rgba, width, height);
    assert(width * height >= 0) by (nonlinear_arith);
    assert(indices@ =~= indices_of(rgba@));
    encode_sixel(&palette, &indices, width as usize, height as usize)
}

/// Whether bytes are the Sixel sequence for some pixels of an image of the given size.
pub open spec fn some_sixel_of(bytes: Seq<u8>, width: u32, height: u32) -> bool {
    exists|rgba: Seq<u8>|
        rgba.len() == width * height * 4 && bytes == encode_utf8(
            #[trigger] sixel_image(rgba, width, height),
        )
}

/// Whether bytes are the Sixel sequence for an image of the given data: that of its pixels, where
/// it is a PNG; else that of some pixels, as many as the image has.
pub open spec fn is_sixel_of(bytes: Seq<u8>, data: Seq<u8>) -> bool {
    match image_size(data) {
        Some((width, height)) => if is_png(data) {
            bytes == encode_utf8(sixel_image(png_pixels(data), width, height))
        } else {
            some_sixel_of(bytes, width, height)
        },
        None => false,
    }
}

/// Write a Sixel graphics sequence for the given image to `w`.
///
/// The image is decoded, quantized to a 256-color palette, and written as a Sixel escape
/// sequence, which encodes six rows of pixels at a time. Bytes that hold no image are an error,
/// and nothing is written.
pub fn emit_sixel_image(w: &mut Vec<u8>, png_data: &Vec<u8>, cols: u16, rows: u16) -> (r: Result<
    (),
    NotAnImage,
>)
    ensures
        r is Ok <==> image_size(png_data@) is Some,
        r is Ok ==> old(w)@.is_prefix_of(final(w)@) && is_sixel_of(
            final(w)@.skip(old(w)@.len() as int),
            png_data@,
        ),
        r is Ok && is_png(png_data@) ==> final(w)@ == old(w)@ + encode_utf8(
            sixel_image(
                png_pixels(png_data@),
                (image_size(png_data@)->0).0,
                (image_size(png_data@)->0).1,
            ),
        ),
        r is Err ==> final(w)@ == old(w)@,
{
    match decode_rgba(png_data.as_slice()) {
        None => Err(NotAnImage),
        Some((width, height, rgba)) => {
            let ghost before = w@;
            let s = sixel_of_pixels(&rgba, width, height);
            push_bytes(w, s.as_str());
            assert(w@.skip(before.len() as int) =~= encode_utf8(
                sixel_image(rgba@, width, height),
            ));
            assert(image_size(png_data@) == Some((width, height)));
            assert(rgba@.len() == width * height * 4);
            assert(some_sixel_of(w@.skip(before.len() as int), width, height));
            Ok(())
        },
    }
}

// ---------------------------------------------------------------- laws

/// What a row with shortened runs stands for: a count between `!` and a character stands for so
/// many of it.
pub open spec fn expanded(s: Seq<char>) -> Seq<char>
    decreases s.len(),
{
    if s.len() == 0 {
        seq![]
    } else {
        let n = digit_run(s.skip(1)) as int;
        if s[0] == '!' && 1 + n < s.len() {
            repeated(s[1 + n], digits_value(s.subrange(1, 1 + n))) + expanded(s.skip(n + 2))
        } else {
            seq![s[0]] + expanded(s.skip(1))
        }
    }
}

/// Shortening the runs of a row loses nothing.
pub proof fn law_run_lengths_expand(row: Seq<char>)
    requires
        forall|i: int| 0 <= i < row.len() ==> '?' <= #[trigger] row[i] <= '~',
    ensures
        expanded(run_lengths(row)) == row,
    decreases row.len(),
{
    if row.len() == 0 {
        assert(run_lengths(row) =~= seq![]);
        assert(expanded(run_lengths(row)) =~= row);
    } else {
        let c = row[0];
        let n = run_length(row, c);
        lemma_run_length(row, c);
        let rest = row.skip(n as int);
        assert forall|i: int| 0 <= i < rest.len() implies '?' <= #[trigger] rest[i] <= '~' by {
            assert(rest[i] == row[i + n]);
        }
        law_run_lengths_expand(rest);
        lemma_expand_run(c, n, run_lengths(rest));
        assert(repeated(c, n) + rest =~= row);
    }
}

proof fn lemma_expand_run(c: char, n: nat, rest: Seq<char>)
    requires
        '?' <= c <= '~',
    ensures
        expanded(run_text(c, n) + rest) == repeated(c, n) + expanded(rest),
{
    let all = run_text(c, n) + rest;
    if n >= 3 {
        reveal_strlit("!");
        lemma_decimal(n);
        let digits = decimal(n);
        assert(all[0] == '!');
        assert(all.skip(1) =~= digits + seq![c] + rest);
        lemma_digit_run(digits, seq![c] + rest);
        assert(digits + seq![c] + rest =~= digits + (seq![c] + rest));
        let m = digits.len() as int;
        assert(all.subrange(1, 1 + m) =~= digits);
        assert(all[1 + m] == c);
        assert(all.skip(m + 2) =~= rest);
    } else {
        lemma_expand_plain(c, n, rest);
    }
}

proof fn lemma_expand_plain(c: char, n: nat, rest: Seq<char>)
    requires
        '?' <= c <= '~',
    ensures
        expanded(repeated(c, n) + rest) == repeated(c, n) + expanded(rest),
    decreases n,
{
    let all = repeated(c, n) + rest;
    if n == 0 {
        assert(all =~= rest);
        assert(repeated(c, n) + expanded(rest) =~= expanded(rest));
    } else {
        let less = (n - 1) as nat;
        lemma_expand_plain(c, less, rest);
        assert(all[0] == c);
        assert(all.skip(1) =~= repeated(c, less) + rest);
        assert(seq![c] + (repeated(c, less) + expanded(rest)) =~= repeated(c, n) + expanded(rest));
    }
}

proof fn lemma_digit_run(digits: Seq<char>, rest: Seq<char>)
    requires
        forall|i: int| 0 <= i < digits.len() ==> is_digit(#[trigger] digits[i]),
        rest.len() > 0,
        !is_digit(rest[0]),
    ensures
        digit_run(digits + rest) == digits.len(),
    decreases digits.len(),
{
    let all = digits + rest;
    if digits.len() == 0 {
        assert(all =~= rest);
    } else {
        assert(is_digit(digits[0]));
        assert(all[0] == digits[0]);
        assert forall|i: int| 0 <= i < digits.skip(1).len() implies is_digit(
            #[trigger] digits.skip(1)[i],
        ) by {
            assert(digits.skip(1)[i] == digits[i + 1]);
        }
        lemma_digit_run(digits.skip(1), rest);
        assert(all.skip(1) =~= digits.skip(1) + rest);
    }
}

/// The characters for a color are the printable ones from `?` to `~`, which neither a count nor
/// a command can be taken for.
pub proof fn law_color_rows_printable(
    indices: Seq<u8>,
    width: int,
    height: int,
    top: int,
    color: int,
)
    requires
        0 <= width,
    ensures
        forall|x: int|
            0 <= x < width ==> '?' <= #[trigger] color_row(indices, width, height, top, color)[x]
                <= '~',
{
    assert forall|x: int| 0 <= x < width implies '?' <= #[trigger] color_row(
        indices,
        width,
        height,
        top,
        color,
    )[x] <= '~' by {
        reveal_with_fuel(column_bits, 7);
        let bits = column_bits(indices, width, height, x, top, color, 6);
        assert(0 <= bits <= 63);
    }
}

/// Every register reads back, within one percent, as the color of the palette: the numbers in it
/// are the color's parts in hundredths of the brightest, rounded down.
pub proof fn law_registers_hold_the_colors(palette: Seq<(u8, u8, u8)>, i: int) -> (p: (
    nat,
    nat,
    nat,
))
    requires
        0 <= i < palette.len(),
    ensures
        255 * p.0 <= 100 * palette[i].0 < 255 * (p.0 + 1),
        255 * p.1 <= 100 * palette[i].1 < 255 * (p.1 + 1),
        255 * p.2 <= 100 * palette[i].2 < 255 * (p.2 + 1),
        registers(palette) == registers(palette.take(i)) + (seq!['#'] + decimal(i as nat) + seq![
            ';',
            '2',
            ';',
        ] + decimal(p.0) + seq![';'] + decimal(p.1) + seq![';'] + decimal(p.2)) + later_registers(
            palette,
            i + 1,
        ),
        forall|n: nat| #[trigger] digits_value(decimal(n)) == n,
{
    reveal_strlit("#");
    reveal_strlit(";2;");
    reveal_strlit(";");
    assert("#"@ =~= seq!['#']);
    assert(";2;"@ =~= seq![';', '2', ';']);
    assert(";"@ =~= seq![';']);
    assert forall|n: nat| #[trigger] digits_value(decimal(n)) == n by {
        lemma_decimal(n);
    }
    let c = palette[i];
    let p = (
        (c.0 as int * 100 / 255) as nat,
        (c.1 as int * 100 / 255) as nat,
        (c.2 as int * 100 / 255) as nat,
    );
    assert(palette.take(i + 1).drop_last() =~= palette.take(i));
    assert(palette.take(palette.len() as int) =~= palette);
    lemma_registers_split(palette, i + 1, palette.len() as int);
    p
}

/// The registers of the colors from the `i`-th on.
pub open spec fn later_registers(palette: Seq<(u8, u8, u8)>, i: int) -> Seq<char>
    decreases palette.len() - i,
{
    if i >= palette.len() {
        seq![]
    } else {
        register(i as nat, palette[i]) + later_registers(palette, i + 1)
    }
}

proof fn lemma_registers_split(palette: Seq<(u8, u8, u8)>, i: int, n: int)
    requires
        0 <= i <= n == palette.len(),
    ensures
        registers(palette) == registers(palette.take(i)) + later_registers(palette, i),
    decreases n - i,
{
    if i == n {
        assert(palette.take(i) =~= palette);
        assert(registers(palette) + later_registers(palette, i) =~= registers(palette));
    } else {
        lemma_registers_split(palette, i + 1, n);
        assert(palette.take(i + 1).drop_last() =~= palette.take(i));
        assert(registers(palette.take(i)) + register(i as nat, palette[i]) + later_registers(
            palette,
            i + 1,
        ) =~= registers(palette.take(i)) + (register(i as nat, palette[i]) + later_registers(
            palette,
            i + 1,
        )));
    }
}

/// What a sequence is made of: its introducer, the registers, the bands from the top on, and its
/// end.
pub proof fn law_sequence_is_framed(
    palette: Seq<(u8, u8, u8)>,
    indices: Seq<u8>,
    width: int,
    height: int,
)
    requires
        palette.len() > 0,
    ensures
        sixel_sequence(palette, indices, width, height) == seq![
            '\u{1b}',
            'P',
            '0',
            ';',
            '0',
            ';',
            '0',
            'q',
        ] + registers(palette) + bands(indices, width, height, 0, palette.len() as int) + seq![
            '\u{1b}',
            '\\',
        ],
        sixel_sequence(seq![], indices, width, height).len() == 0,
{
    reveal_strlit("\u{1b}P0;0;0q");
    reveal_strlit("\u{1b}\\");
    assert("\u{1b}P0;0;0q"@ =~= seq!['\u{1b}', 'P', '0', ';', '0', ';', '0', 'q']);
    assert("\u{1b}\\"@ =~= seq!['\u{1b}', '\\']);
}

/// Every row of pixels is in one of the bands, which follow each other from top to bottom, six rows
/// at a time, each with a dash behind it.
pub proof fn law_bands_cover_the_image(
    indices: Seq<u8>,
    width: int,
    height: int,
    top: int,
    colors: int,
    y: int,
) -> (r: (Seq<char>, Seq<char>))
    requires
        top <= y < height,
    ensures
        ({
            let at = top + (y - top) / 6 * 6;
            &&& at <= y < at + 6
            &&& bands(indices, width, height, top, colors) == r.0 + band(
                indices,
                width,
                height,
                at,
                colors,
            ) + seq!['-'] + r.1
        }),
    decreases y - top,
{
    reveal_strlit("-");
    assert("-"@ =~= seq!['-']);
    let first = band(indices, width, height, top, colors);
    let rest = bands(indices, width, height, top + 6, colors);
    if y < top + 6 {
        assert((y - top) / 6 * 6 == 0);
        assert(first + "-"@ + rest =~= Seq::<char>::empty() + first + seq!['-'] + rest);
        (Seq::empty(), rest)
    } else {
        let (a, b) = law_bands_cover_the_image(indices, width, height, top + 6, colors, y);
        let at = top + (y - top) / 6 * 6;
        assert((y - top) / 6 * 6 == 6 + (y - (top + 6)) / 6 * 6);
        let own = band(indices, width, height, at, colors);
        assert(first + "-"@ + (a + own + seq!['-'] + b) =~= (first + seq!['-'] + a) + own + seq![
            '-',
        ] + b);
        (first + seq!['-'] + a, b)
    }
}

/// Every color with a pixel in a band has its pixels there, behind its number.
pub proof fn law_colors_are_in_their_band(
    indices: Seq<u8>,
    width: int,
    height: int,
    top: int,
    n: int,
    color: int,
    x: int,
    bit: int,
) -> (r: (Seq<char>, Seq<char>))
    requires
        0 <= color < n,
        0 <= x < width,
        0 <= bit < 6,
        top + bit < height,
        indices[(top + bit) * width + x] == color,
    ensures
        band(indices, width, height, top, n) == r.0 + (seq!['#'] + decimal(color as nat)
            + run_lengths(color_row(indices, width, height, top, color))) + r.1,
        r.0.len() > 0 ==> r.0.last() == '$',
        r.1.len() > 0 ==> r.1[0] == '$',
    decreases n,
{
    reveal_strlit("#");
    reveal_strlit("$");
    assert("#"@ =~= seq!['#']);
    assert("$"@ =~= seq!['$']);
    let before = band(indices, width, height, top, n - 1);
    let row = color_row(indices, width, height, top, n - 1);
    if color == n - 1 {
        law_pixels_are_bits(indices, width, height, top, color, x, bit);
        assert(row[x] != '?') by {
            if row[x] == '?' {
                reveal_with_fuel(weight_of, 7);
                assert(bit == 0 || bit == 1 || bit == 2 || bit == 3 || bit == 4 || bit == 5);
                assert(0int / weight_of(bit) == 0);
            }
        }
        assert(has_pixel(row));
        let a = if before.len() > 0 {
            before + seq!['$']
        } else {
            Seq::<char>::empty()
        };
        assert(band(indices, width, height, top, n) =~= a + (seq!['#'] + decimal(color as nat)
            + run_lengths(row)) + Seq::<char>::empty());
        (a, Seq::empty())
    } else {
        let (a, b) = law_colors_are_in_their_band(
            indices,
            width,
            height,
            top,
            n - 1,
            color,
            x,
            bit,
        );
        let own = seq!['#'] + decimal(color as nat) + run_lengths(
            color_row(indices, width, height, top, color),
        );
        if has_pixel(row) {
            let more = seq!['$'] + seq!['#'] + decimal((n - 1) as nat) + run_lengths(row);
            assert(before.len() > 0);
            assert(band(indices, width, height, top, n) =~= a + own + (b + more));
            (a, b + more)
        } else {
            (a, b)
        }
    }
}

/// Two to the power of a pixel's place in its column of six.
pub open spec fn weight_of(bit: int) -> int
    decreases bit,
{
    if bit <= 0 {
        1
    } else {
        2 * weight_of(bit - 1)
    }
}

/// A character above the question mark stands for six pixels, the topmost in its lowest bit: a bit
/// is set exactly where the pixel has the color.
pub proof fn law_pixels_are_bits(
    indices: Seq<u8>,
    width: int,
    height: int,
    top: int,
    color: int,
    x: int,
    bit: int,
)
    requires
        0 <= x < width,
        0 <= bit < 6,
    ensures
        (color_row(indices, width, height, top, color)[x] as int - '?' as int) / weight_of(bit) % 2
            == (if top + bit < height && indices[(top + bit) * width + x] == color {
            1int
        } else {
            0
        }),
{
    reveal_with_fuel(column_bits, 7);
    reveal_with_fuel(weight_of, 7);
    let l = |b: int| lit(indices, width, height, x, top + b, color);
    let v = column_bits(indices, width, height, x, top, color, 6);
    assert(v == (if l(0) {
        1int
    } else {
        0
    }) + (if l(1) {
        2int
    } else {
        0
    }) + (if l(2) {
        4int
    } else {
        0
    }) + (if l(3) {
        8int
    } else {
        0
    }) + (if l(4) {
        16int
    } else {
        0
    }) + (if l(5) {
        32int
    } else {
        0
    }));
    assert(0 <= v < 64);
    assert(color_row(indices, width, height, top, color)[x] as int == 63 + v);
    let set = |b: int|
        if l(b) {
            1int
        } else {
            0
        };
    assert(weight_of(0) == 1 && weight_of(1) == 2 && weight_of(2) == 4 && weight_of(3) == 8
        && weight_of(4) == 16 && weight_of(5) == 32);
    assert(v / 1 % 2 == set(0));
    assert(v / 2 % 2 == set(1));
    assert(v / 4 % 2 == set(2));
    assert(v / 8 % 2 == set(3));
    assert(v / 16 % 2 == set(4));
    assert(v / 32 % 2 == set(5));
    assert(bit == 0 || bit == 1 || bit == 2 || bit == 3 || bit == 4 || bit == 5);
    assert(v / weight_of(bit) % 2 == set(bit));
}

/// Colors count as the same where they agree in the five highest bits of every part.
pub proof fn law_same_key(a: (u8, u8, u8), b: (u8, u8, u8))
    ensures
        key(a.0, a.1, a.2) == key(b.0, b.1, b.2) <==> a.0 as int / 8 == b.0 as int / 8 && a.1 as int
            / 8 == b.1 as int / 8 && a.2 as int / 8 == b.2 as int / 8,
        0 <= key(a.0, a.1, a.2) < 32768,
{
}

/// A pixel that is not transparent, and whose color is in the palette, is shown in a color that
/// differs by less than eight in every part.
pub proof fn law_shown_colors_are_near(rgba: Seq<u8>, i: int)
    requires
        0 <= i,
        4 * i + 3 < rgba.len(),
        rgba[4 * i + 3] >= 128,
        palette_keys(rgba).contains(key_at(rgba, i)),
    ensures
        ({
            let palette = palette_of(rgba, palette_keys(rgba));
            let at = indices_of(rgba)[i] as int;
            let c = palette[at];
            &&& at < palette.len() <= 256
            &&& -8 < c.0 - rgba[4 * i] < 8
            &&& -8 < c.1 - rgba[4 * i + 1] < 8
            &&& -8 < c.2 - rgba[4 * i + 2] < 8
        }),
{
    let keys = palette_keys(rgba);
    let k = key_at(rgba, i);
    let n = rgba.len() as int / 4;
    lemma_keys_occur(rgba, KEYS as int);
    lemma_palette_index(keys, k);
    lemma_tally_counts(rgba, n, i);
    let (r, g, b) = (rgba[4 * i] as int / 8, rgba[4 * i + 1] as int / 8, rgba[4 * i + 2] as int / 8);
    lemma_tally_near(rgba, n, r, g, b);
    assert(k == r * 1024 + g * 32 + b);
    let t = tally(rgba, n, k);
    lemma_near_average(t.0, t.3, r);
    lemma_near_average(t.1, t.3, g);
    lemma_near_average(t.2, t.3, b);
    let at = indices_of(rgba)[i] as int;
    assert(indices_of(rgba)[i] == index_at(rgba, i) as u8);
    assert(at == palette_index(keys, k));
    assert(palette_of(rgba, keys)[at] == average(rgba, k));
}

proof fn lemma_palette_index(keys: Seq<int>, k: int)
    requires
        keys.contains(k),
    ensures
        0 <= palette_index(keys, k) < keys.len(),
        keys[palette_index(keys, k)] == k,
    decreases keys.len(),
{
    if keys.last() != k {
        let i = choose|i: int| 0 <= i < keys.len() && keys[i] == k;
        assert(keys.drop_last()[i] == k);
        lemma_palette_index(keys.drop_last(), k);
    }
}

proof fn lemma_tally_counts(rgba: Seq<u8>, n: int, i: int)
    requires
        0 <= i < n,
        opaque_at(rgba, i),
    ensures
        tally(rgba, n, key_at(rgba, i)).3 > 0,
    decreases n,
{
    if i < n - 1 {
        lemma_tally_counts(rgba, n - 1, i);
    }
}

proof fn lemma_tally_near(rgba: Seq<u8>, n: int, r: int, g: int, b: int)
    requires
        0 <= n,
        0 <= r < 32,
        0 <= g < 32,
        0 <= b < 32,
    ensures
        ({
            let t = tally(rgba, n, r * 1024 + g * 32 + b);
            &&& 8 * r * t.3 <= t.0 <= (8 * r + 7) * t.3
            &&& 8 * g * t.3 <= t.1 <= (8 * g + 7) * t.3
            &&& 8 * b * t.3 <= t.2 <= (8 * b + 7) * t.3
        }),
    decreases n,
{
    let k = r * 1024 + g * 32 + b;
    let t = tally(rgba, n, k);
    if n == 0 {
        assert(8 * r * 0 == 0 && (8 * r + 7) * 0 == 0) by (nonlinear_arith);
        assert(8 * g * 0 == 0 && (8 * g + 7) * 0 == 0) by (nonlinear_arith);
        assert(8 * b * 0 == 0 && (8 * b + 7) * 0 == 0) by (nonlinear_arith);
    } else {
        lemma_tally_near(rgba, n - 1, r, g, b);
        let u = tally(rgba, n - 1, k);
        if opaque_at(rgba, n - 1) && key_at(rgba, n - 1) == k {
            let (x, y, z) = (rgba[4 * (n - 1)], rgba[4 * (n - 1) + 1], rgba[4 * (n - 1) + 2]);
            assert(x as int / 8 == r && y as int / 8 == g && z as int / 8 == b);
            lemma_one_more(u.0 as int, u.3 as int, x as int, r);
            lemma_one_more(u.1 as int, u.3 as int, y as int, g);
            lemma_one_more(u.2 as int, u.3 as int, z as int, b);
        }
    }
}

proof fn lemma_one_more(sum: int, count: int, part: int, p: int)
    requires
        8 * p * count <= sum <= (8 * p + 7) * count,
        8 * p <= part <= 8 * p + 7,
    ensures
        8 * p * (count + 1) <= sum + part <= (8 * p + 7) * (count + 1),
{
    assert(8 * p * (count + 1) == 8 * p * count + 8 * p) by (nonlinear_arith);
    assert((8 * p + 7) * (count + 1) == (8 * p + 7) * count + (8 * p + 7)) by (nonlinear_arith);
}

proof fn lemma_near_average(sum: nat, count: nat, p: int)
    requires
        count > 0,
        0 <= p < 32,
        8 * p * count <= sum <= (8 * p + 7) * count,
    ensures
        8 * p <= sum / count <= 8 * p + 7,
        (sum / count) as u8 == sum / count,
{
    assert(8 * p <= sum / count <= 8 * p + 7) by (nonlinear_arith)
        requires
            count > 0,
            8 * p * count <= sum <= (8 * p + 7) * count,
    ;
}

/// An image with no more than 256 colors has them all in its palette.
pub proof fn law_few_colors_are_kept(rgba: Seq<u8>, i: int)
    requires
        0 <= i,
        4 * i + 3 < rgba.len(),
        rgba[4 * i + 3] >= 128,
        palette_keys(rgba).len() < 256,
    ensures
        palette_keys(rgba).contains(key_at(rgba, i)),
{
    law_palette_most_frequent(rgba, KEYS as int);
    lemma_tally_counts(rgba, rgba.len() as int / 4, i);
    let k = key_at(rgba, i);
    assert(count_of(rgba, k) > 0);
}

/// What stands for an image of some data is the sequence for as many pixels as it has, its own ones
/// where it is a PNG; nothing stands for data without an image.
pub proof fn law_images_become_sequences(bytes: Seq<u8>, data: Seq<u8>)
    ensures
        is_sixel_of(bytes, data) ==> (image_size(data) matches Some((w, h)) && exists|rgba: Seq<u8>|
            {
                &&& bytes == encode_utf8(#[trigger] sixel_image(rgba, w, h))
                &&& is_png(data) ==> rgba == png_pixels(data)
                &&& !is_png(data) ==> rgba.len() == 4 * (w * h)
            }),
        image_size(data) matches Some((w, h)) ==> is_png(data) ==> is_sixel_of(
            encode_utf8(sixel_image(png_pixels(data), w, h)),
            data,
        ),
{
    if is_sixel_of(bytes, data) {
        let (w, h) = image_size(data)->0;
        if is_png(data) {
            assert(bytes == encode_utf8(sixel_image(png_pixels(data), w, h)));
        } else {
            let rgba = choose|rgba: Seq<u8>|
                rgba.len() == w * h * 4 && bytes == encode_utf8(#[trigger] sixel_image(rgba, w, h));
            assert(bytes == encode_utf8(sixel_image(rgba, w, h)));
        }
    }
}

} // verus!
