//! Images: their size on the terminal, and getting them ready to be shown.

use vstd::arithmetic::power2::pow2;
use vstd::prelude::*;

use crate::binary64::{law_rounded, lemma_rounded_capped, round, rounded};

verus! {

// ---------------------------------------------------------------- sizes

/// Two to the power of 88.
pub const TWO_88: u128 = 0x1_0000_0000_0000_0000_0000_00;

/// A double-precision quotient of two integers, the first smaller than the second, in units of
/// two to the power of -89: the exact quotient with one more bit that stands for the rest,
/// rounded.
pub open spec fn quotient(a: u32, b: u32) -> nat {
    let n = a * TWO_88;
    rounded(
        (2 * (n / b as int) + (if n % b as int != 0 {
            1int
        } else {
            0int
        })) as nat,
    )
}

/// The height of an image scaled down to a width, in double precision: its height times the
/// quotient of the widths, to the nearest integer, halves up.
pub open spec fn scaled_height(orig_w: u32, orig_h: u32, max_w: u32) -> u32 {
    let product = rounded((orig_h * quotient(max_w, orig_w)) as nat);
    let h = (product + TWO_88) / (2 * TWO_88);
    if h > u32::MAX {
        u32::MAX
    } else {
        h as u32
    }
}

/// Compute the height of an image scaled down to a width.
pub fn scale_height(orig_w: u32, orig_h: u32, max_w: u32) -> (h: u32)
    requires
        max_w < orig_w,
    ensures
        h == scaled_height(orig_w, orig_h, max_w),
{
    assert(max_w * TWO_88 <= 0xffff_ffff * TWO_88) by (nonlinear_arith)
        requires
            max_w <= 0xffff_ffff,
    ;
    let n: u128 = max_w as u128 * TWO_88;
    let q: u128 = n / orig_w as u128;
    let rest: u128 = n % orig_w as u128;
    assert(q <= TWO_88) by (nonlinear_arith)
        requires
            q == n / orig_w as u128,
            n == max_w as u128 * TWO_88,
            max_w < orig_w,
    ;
    let sticky: u128 = if rest != 0 {
        1
    } else {
        0
    };
    let scale: u128 = round(2 * q + sticky);
    assert(scale <= 5 * TWO_88);
    assert(0 <= orig_h * scale <= 0xffff_ffff * (5 * TWO_88)) by (nonlinear_arith)
        requires
            orig_h <= 0xffff_ffff,
            scale <= 5 * TWO_88,
    ;
    let product: u128 = round(orig_h as u128 * scale);
    let h: u128 = (product + TWO_88) / (2 * TWO_88);
    if h > u32::MAX as u128 {
        u32::MAX
    } else {
        h as u32
    }
}

/// An image that is scaled down does not get higher.
proof fn lemma_height_shrinks(orig_w: u32, orig_h: u32, max_w: u32)
    requires
        max_w < orig_w,
    ensures
        scaled_height(orig_w, orig_h, max_w) <= orig_h,
        (rounded((orig_h * quotient(max_w, orig_w)) as nat) + TWO_88) / (2 * TWO_88) <= orig_h,
{
    let one: nat = (2 * TWO_88) as nat;
    vstd::arithmetic::power2::lemma2_to64();
    vstd::arithmetic::power2::lemma_pow2_adds(64, 25);
    assert(pow2(89) == one);
    let n = max_w * TWO_88;
    let q = n / orig_w as int;
    let rest = n % orig_w as int;
    assert(0 <= 2 * q + (if rest != 0 { 1int } else { 0int }) <= one) by {
        assert(n <= (orig_w - 1) * TWO_88) by (nonlinear_arith)
            requires
                n == max_w * TWO_88,
                max_w <= orig_w - 1,
        ;
        assert(n == q * orig_w + rest && 0 <= rest) by (nonlinear_arith)
            requires
                q == n / orig_w as int,
                rest == n % orig_w as int,
                orig_w > 0,
        ;
        assert(0 <= q < TWO_88) by (nonlinear_arith)
            requires
                n <= (orig_w - 1) * TWO_88,
                n == q * orig_w + rest,
                0 <= rest < orig_w,
                n >= 0,
                orig_w > 0,
                TWO_88 > 0,
        ;
    }
    assert(1 * pow2(89) == one);
    lemma_rounded_capped(
        (2 * q + (if rest != 0 {
            1int
        } else {
            0int
        })) as nat,
        1,
        89,
    );
    let scale = quotient(max_w, orig_w);
    assert(0 <= orig_h * scale <= orig_h * one) by (nonlinear_arith)
        requires
            0 <= scale <= one,
            orig_h >= 0,
    ;
    lemma_rounded_capped((orig_h * scale) as nat, orig_h as nat, 89);
    let product = rounded((orig_h * scale) as nat);
    assert((product + TWO_88) / (2 * TWO_88) <= orig_h) by (nonlinear_arith)
        requires
            0 <= product <= orig_h * one,
            one == 2 * TWO_88,
            TWO_88 > 0,
    ;
}

/// How many cells pixels take up, the last one counted whole, 65535 at most. Cells without any
/// extent count as infinitely many, unless there is no pixel.
pub open spec fn cells(px: u32, cell: u16) -> u16 {
    if cell == 0 {
        if px == 0 {
            0
        } else {
            u16::MAX
        }
    } else {
        let n = (px + cell - 1) / cell as int;
        if n > u16::MAX {
            u16::MAX
        } else {
            n as u16
        }
    }
}

/// How many cells pixels take up.
pub fn cell_count(px: u32, cell: u16) -> (n: u16)
    ensures
        n == cells(px, cell),
{
    if cell == 0 {
        return if px == 0 {
            0
        } else {
            u16::MAX
        };
    }
    let n: u64 = (px as u64 + cell as u64 - 1) / cell as u64;
    if n > u16::MAX as u64 {
        u16::MAX
    } else {
        n as u16
    }
}

/// The width in pixels of so many columns.
pub open spec fn columns_px(cols: u16, cell_w: u16) -> u32 {
    (cols * cell_w) as u32
}

fn width_px(cols: u16, cell_w: u16) -> (w: u32)
    ensures
        w == columns_px(cols, cell_w),
{
    assert(0 <= cols * cell_w <= 0xffff * 0xffff) by (nonlinear_arith)
        requires
            cols <= 0xffff,
            cell_w <= 0xffff,
    ;
    cols as u32 * cell_w as u32
}

/// The size at which an image is shown: its own, or scaled down to the width of `max_cols`
/// columns, and then at least one pixel high.
pub open spec fn target_size(size: (u32, u32), max_cols: u16, cell_w: u16) -> (u32, u32) {
    let max_w = columns_px(max_cols, cell_w);
    if size.0 > max_w {
        let h = scaled_height(size.0, size.1, max_w);
        (
            max_w,
            if h == 0 {
                1
            } else {
                h
            },
        )
    } else {
        size
    }
}

proof fn lemma_never_scaled_up(size: (u32, u32), max_cols: u16, cell_w: u16)
    requires
        size.1 > 0,
    ensures
        target_size(size, max_cols, cell_w).0 <= size.0,
        target_size(size, max_cols, cell_w).1 <= size.1,
{
    let max_w = columns_px(max_cols, cell_w);
    if size.0 > max_w {
        lemma_height_shrinks(size.0, size.1, max_w);
    }
}

fn fit(size: (u32, u32), max_cols: u16, cell_w: u16) -> (r: (u32, u32))
    ensures
        r == target_size(size, max_cols, cell_w),
        size.1 > 0 ==> r.0 <= size.0 && r.1 <= size.1,
{
    proof {
        if size.1 > 0 {
            lemma_never_scaled_up(size, max_cols, cell_w);
        }
    }
    let max_w: u32 = width_px(max_cols, cell_w);
    if size.0 > max_w {
        let h: u32 = scale_height(size.0, size.1, max_w);
        (
            max_w,
            if h == 0 {
                1
            } else {
                h
            },
        )
    } else {
        size
    }
}

/// At least one.
pub open spec fn at_least_one(n: u16) -> u16 {
    if n == 0 {
        1
    } else {
        n
    }
}

/// The columns and rows that an image takes up, at least one row.
pub open spec fn display_size(size: (u32, u32), max_cols: u16, cell_w: u16, cell_h: u16) -> (
    u16,
    u16,
) {
    let target = target_size(size, max_cols, cell_w);
    (cells(target.0, cell_w), at_least_one(cells(target.1, cell_h)))
}

/// The rows to set aside for an image of the given size; one where the size is unknown or
/// empty.
pub open spec fn estimated_rows(
    size: Option<(u32, u32)>,
    max_cols: u16,
    cell_w: u16,
    cell_h: u16,
) -> u16 {
    match size {
        Some((w, h)) => if w == 0 || h == 0 {
            1
        } else {
            let max_w = columns_px(max_cols, cell_w);
            at_least_one(
                cells(
                    if w > max_w {
                        scaled_height(w, h, max_w)
                    } else {
                        h
                    },
                    cell_h,
                ),
            )
        },
        None => 1,
    }
}

/// The rows to set aside for an image of the given size.
pub fn rows_for_size(size: Option<(u32, u32)>, max_cols: u16, cell_w: u16, cell_h: u16) -> (n: u16)
    ensures
        n == estimated_rows(size, max_cols, cell_w, cell_h),
{
    match size {
        Some((w, h)) => {
            if w == 0 || h == 0 {
                return 1;
            }
            let max_w: u32 = width_px(max_cols, cell_w);
            let target: u32 = if w > max_w {
                scale_height(w, h, max_w)
            } else {
                h
            };
            let n: u16 = cell_count(target, cell_h);
            if n == 0 {
                1
            } else {
                n
            }
        },
        None => 1,
    }
}

/// An image is never scaled up, it never takes up more columns than it may, and the rows set
/// aside for it are those it takes up.
pub proof fn law_images_fit(size: (u32, u32), max_cols: u16, cell_w: u16, cell_h: u16)
    requires
        cell_w > 0,
        size.0 > 0,
        size.1 > 0,
    ensures
        target_size(size, max_cols, cell_w).0 <= size.0,
        target_size(size, max_cols, cell_w).1 <= size.1,
        display_size(size, max_cols, cell_w, cell_h).0 <= max_cols,
        cell_h > 0 ==> display_size(size, max_cols, cell_w, cell_h).1 == estimated_rows(
            Some(size),
            max_cols,
            cell_w,
            cell_h,
        ),
{
    let max_w = max_cols * cell_w;
    let target = target_size(size, max_cols, cell_w);
    lemma_never_scaled_up(size, max_cols, cell_w);
    assert(0 <= max_w <= 0xffff * 0xffff) by (nonlinear_arith)
        requires
            max_w == max_cols * cell_w,
            max_cols <= 0xffff,
            cell_w <= 0xffff,
    ;
    assert(target.0 <= max_w);
    assert((target.0 + cell_w - 1) / cell_w as int <= max_cols) by (nonlinear_arith)
        requires
            target.0 <= max_cols * cell_w,
            cell_w > 0,
    ;
    if cell_h > 0 && size.0 > max_w && scaled_height(size.0, size.1, max_w as u32) == 0 {
        assert((1 + cell_h - 1) / cell_h as int == 1) by (nonlinear_arith)
            requires
                cell_h > 0,
        ;
        assert((0 + cell_h - 1) / cell_h as int == 0) by (nonlinear_arith)
            requires
                cell_h > 0,
        ;
    }
}

// ---------------------------------------------------------------- decoding and encoding

/// The size of the image that a file of the given name and content holds, by its header.
pub uninterp spec fn header_size(path: Seq<char>, data: Seq<u8>) -> Option<(u32, u32)>;

/// `image::ImageReader::into_dimensions`: width and height of the image in a file's content,
/// read from its header, the format being that of the file name's extension; `None` on any
/// error.
#[verifier::external_body]
fn read_header(path: &str, data: &[u8]) -> (size: Option<(u32, u32)>)
    ensures
        size == header_size(path@, data@),
{
    let format = image::ImageFormat::from_path(path).ok()?;
    image::ImageReader::with_format(std::io::Cursor::new(data), format).into_dimensions().ok()
}

/// The size of the image that a file of the given name and content holds, if it can be decoded.
pub uninterp spec fn file_size(path: Seq<char>, data: Seq<u8>) -> Option<(u32, u32)>;

/// `image::load_from_memory_with_format`: decodes a file's content, the format being that of
/// the file name's extension; width and height of the image, `None` on any error. An image that
/// can be decoded has the size that its header gives: it is the same decoder that is asked for
/// both, within the same limits.
#[verifier::external_body]
fn decode_file(path: &str, data: &[u8]) -> (size: Option<(u32, u32)>)
    ensures
        size == file_size(path@, data@),
        size is Some ==> header_size(path@, data@) == size,
{
    let format = image::ImageFormat::from_path(path).ok()?;
    let img = image::load_from_memory_with_format(data, format).ok()?;
    Some((img.width(), img.height()))
}

/// `image::DynamicImage::resize_exact` and `write_to`: decodes a file's content as [`decode_file`]
/// does, resamples it to the given size, which is not greater than its own, and encodes it as PNG,
/// which begins with PNG's signature and decodes to that size, unless it takes more memory than
/// decoders allow themselves. `None` where the content cannot be decoded and where the size is
/// empty; as long as there is memory, encoding into it has no other error, for every pixel format
/// that comes out of a decoder is one of PNG. A PNG that is to keep its size is copied pixel by
/// pixel, and encoded without loss, so that it has the pixels that it had; the decoders of the
/// other formats refuse PNG's signature. Which bytes come out otherwise is not stated: the filter's
/// weights are floating-point sines, which differ between machines.
#[verifier::external_body]
fn resize_file(path: &str, data: &[u8], width: u32, height: u32) -> (png: Option<Vec<u8>>)
    requires
        file_size(path@, data@) matches Some(s) ==> width <= s.0 && height <= s.1,
    ensures
        png is Some == (file_size(path@, data@) is Some && width != 0 && height != 0),
        png matches Some(p) ==> png_of(p@, (width, height)),
        png matches Some(p) ==> (is_png(data@) && file_size(path@, data@) == Some((width, height))
            && image_size(p@) is Some ==> png_pixels(p@) == png_pixels(data@)),
{
    let format = image::ImageFormat::from_path(path).ok()?;
    let img = image::load_from_memory_with_format(data, format).ok()?;
    let resized = img.resize_exact(width, height, image::imageops::FilterType::Lanczos3);
    let mut png = Vec::new();
    resized.write_to(&mut std::io::Cursor::new(&mut png), image::ImageFormat::Png).ok()?;
    Some(png)
}

/// The size of the image that bytes hold, if they can be decoded.
pub uninterp spec fn image_size(data: Seq<u8>) -> Option<(u32, u32)>;

/// How many pixels an image may have to be decoded within the memory that a decoder allows
/// itself, whatever its pixels are.
pub const READABLE_PIXELS: u32 = 0x200_0000;

/// Whether bytes begin as every PNG does.
pub open spec fn is_png(data: Seq<u8>) -> bool {
    data.len() >= 8 && data.take(8) == seq![137u8, 80, 78, 71, 13, 10, 26, 10]
}

/// Whether bytes are a PNG of the given size: they begin as one, what is decoded from them has
/// that size, and an image that is not too large can be decoded.
pub open spec fn png_of(data: Seq<u8>, size: (u32, u32)) -> bool {
    &&& is_png(data)
    &&& image_size(data) matches Some(s) ==> s == size
    &&& size.0 * size.1 <= READABLE_PIXELS ==> image_size(data) == Some(size)
}

/// `image::load_from_memory`: decodes bytes, the format being guessed from them; width and
/// height of the image, `None` on any error.
#[verifier::external_body]
fn decode(data: &[u8]) -> (size: Option<(u32, u32)>)
    ensures
        size == image_size(data@),
{
    let img = image::load_from_memory(data).ok()?;
    Some((img.width(), img.height()))
}

/// `image::DynamicImage::resize_exact` and `write_to`: decodes bytes as [`decode`] does, resamples
/// the image to the given size, which is not greater than its own, and encodes it as PNG, which
/// begins with PNG's signature and decodes to that size, unless it takes more memory than decoders
/// allow themselves. `None` where the bytes cannot be decoded and where the size is empty; as long
/// as there is memory, encoding into it has no other error, for every pixel format that comes out
/// of a decoder is one of PNG. A PNG that is to keep its size is copied pixel by pixel, and encoded
/// without loss, so that it has the pixels that it had. Which bytes come out otherwise is not
/// stated: the filter's weights are floating-point sines, which differ between machines.
#[verifier::external_body]
fn resize(data: &[u8], width: u32, height: u32) -> (png: Option<Vec<u8>>)
    requires
        image_size(data@) matches Some(s) ==> width <= s.0 && height <= s.1,
    ensures
        png is Some == (image_size(data@) is Some && width != 0 && height != 0),
        png matches Some(p) ==> png_of(p@, (width, height)),
        png matches Some(p) ==> (is_png(data@) && image_size(data@) == Some((width, height))
            && image_size(p@) is Some ==> png_pixels(p@) == png_pixels(data@)),
{
    let img = image::load_from_memory(data).ok()?;
    let resized = img.resize_exact(width, height, image::imageops::FilterType::Lanczos3);
    let mut png = Vec::new();
    resized.write_to(&mut std::io::Cursor::new(&mut png), image::ImageFormat::Png).ok()?;
    Some(png)
}

/// The pixels of a PNG, row by row, four bytes each.
pub uninterp spec fn png_pixels(data: Seq<u8>) -> Seq<u8>;

/// `image::DynamicImage::to_rgba8`: decodes bytes as [`decode`] does; width, height and pixels,
/// row by row, four bytes each: red, green, blue, opacity. `None` where the bytes cannot be
/// decoded. Of a PNG the pixels are a function of its bytes: it is decoded without loss, and
/// channels are widened, repeated and rounded to eight bits by single operations. The pixels of
/// other formats are not stated: decoders for lossy formats may round differently on different
/// machines.
#[verifier::external_body]
pub(crate) fn decode_rgba(data: &[u8]) -> (image: Option<(u32, u32, Vec<u8>)>)
    ensures
        match image {
            Some((w, h, pixels)) => image_size(data@) == Some((w, h)) && pixels@.len() == w * h * 4
                && (is_png(data@) ==> pixels@ == png_pixels(data@)),
            None => image_size(data@) is None,
        },
{
    let rgba = image::load_from_memory(data).ok()?.to_rgba8();
    Some((rgba.width(), rgba.height(), rgba.into_raw()))
}

// ---------------------------------------------------------------- loading

/// The size of the image in a file that can be read, by its header.
pub open spec fn header_of(path: Seq<char>, data: Option<Seq<u8>>) -> Option<(u32, u32)> {
    match data {
        Some(bytes) => header_size(path, bytes),
        None => None,
    }
}

/// The size of the image in a file that can be read, if it can be decoded.
pub open spec fn size_in(path: Seq<char>, data: Option<Seq<u8>>) -> Option<(u32, u32)> {
    match data {
        Some(bytes) => file_size(path, bytes),
        None => None,
    }
}

/// What the content of a file stands for.
pub open spec fn content_of(data: Option<&Vec<u8>>) -> Option<Seq<u8>> {
    match data {
        Some(bytes) => Some(bytes@),
        None => None,
    }
}

/// Estimate how many terminal rows the image in a file will occupy, given a maximum column
/// width and pixel cell dimensions. `data` is the file's content, `None` if it cannot be read.
pub fn estimate_image_rows(
    path: &str,
    data: Option<&Vec<u8>>,
    max_cols: u16,
    cell_w: u16,
    cell_h: u16,
) -> (rows: u16)
    ensures
        rows == estimated_rows(header_of(path@, content_of(data)), max_cols, cell_w, cell_h),
{
    let size: Option<(u32, u32)> = match data {
        Some(bytes) => read_header(path, bytes.as_slice()),
        None => None,
    };
    rows_for_size(size, max_cols, cell_w, cell_h)
}

/// What comes of loading an image of the given size, once resampling it gave `png`: the PNG and
/// the columns and rows it is shown at; `None` without a size, without a pixel, or without a
/// PNG.
pub open spec fn loaded_image(
    size: Option<(u32, u32)>,
    png: Option<Seq<u8>>,
    max_cols: u16,
    cell_w: u16,
    cell_h: u16,
) -> Option<(Seq<u8>, u16, u16)> {
    match (size, png) {
        (Some((w, h)), Some(bytes)) => if w == 0 || h == 0 {
            None
        } else {
            let shown = display_size((w, h), max_cols, cell_w, cell_h);
            Some((bytes, shown.0, shown.1))
        },
        _ => None,
    }
}

/// Whether an image of the given size can be loaded: it could be decoded, it has pixels, and there
/// is room for some of them.
pub open spec fn loadable(size: Option<(u32, u32)>, max_cols: u16, cell_w: u16) -> bool {
    match size {
        Some((w, h)) => w > 0 && h > 0 && columns_px(max_cols, cell_w) > 0,
        None => false,
    }
}

/// Where there is room for a pixel, a cell has a width.
proof fn lemma_loadable_cells(size: Option<(u32, u32)>, max_cols: u16, cell_w: u16)
    requires
        loadable(size, max_cols, cell_w),
    ensures
        cell_w > 0,
{
    assert(max_cols * 0 == 0);
}

/// Whether loading an image of the given content and size can give a result: where the image can
/// be loaded, a PNG of the size at which it is shown, with the columns and rows it is shown at;
/// else none. A PNG that is shown at its own size keeps its pixels.
pub open spec fn loads_as(
    data: Option<Seq<u8>>,
    size: Option<(u32, u32)>,
    image: Option<(Seq<u8>, u16, u16)>,
    max_cols: u16,
    cell_w: u16,
    cell_h: u16,
) -> bool {
    &&& image is Some <==> loadable(size, max_cols, cell_w)
    &&& image matches Some((png, cols, rows)) ==> {
        &&& image == loaded_image(size, Some(png), max_cols, cell_w, cell_h)
        &&& png_of(png, target_size(size->0, max_cols, cell_w))
        &&& data is Some && is_png(data->0) && target_size(size->0, max_cols, cell_w) == size->0
            && image_size(png) is Some ==> png_pixels(png) == png_pixels(data->0)
    }
}

/// Whether an image that can be decoded has the size that its header gives.
pub open spec fn header_agrees(path: Seq<char>, data: Option<Seq<u8>>) -> bool {
    size_in(path, data) is Some ==> header_of(path, data) == size_in(path, data)
}

/// What a loaded image stands for.
pub open spec fn loaded_view(image: Option<(Vec<u8>, u16, u16)>) -> Option<(Seq<u8>, u16, u16)> {
    match image {
        Some((png, cols, rows)) => Some((png@, cols, rows)),
        None => None,
    }
}

/// What optional bytes stand for.
pub open spec fn optional_bytes(bytes: Option<Vec<u8>>) -> Option<Seq<u8>> {
    match bytes {
        Some(b) => Some(b@),
        None => None,
    }
}

/// What comes of loading an image of the given size, once resampling it gave `png`.
pub fn place_image(
    size: Option<(u32, u32)>,
    png: Option<Vec<u8>>,
    max_cols: u16,
    cell_w: u16,
    cell_h: u16,
) -> (image: Option<(Vec<u8>, u16, u16)>)
    ensures
        loaded_view(image) == loaded_image(size, optional_bytes(png), max_cols, cell_w, cell_h),
{
    match (size, png) {
        (Some((w, h)), Some(bytes)) => {
            if w == 0 || h == 0 {
                return None;
            }
            let target: (u32, u32) = fit((w, h), max_cols, cell_w);
            let rows: u16 = cell_count(target.1, cell_h);
            Some(
                (
                    bytes,
                    cell_count(target.0, cell_w),
                    if rows == 0 {
                        1
                    } else {
                        rows
                    },
                ),
            )
        },
        _ => None,
    }
}

/// Load the image in a file, resize it to fit within `max_cols` terminal columns (preserving
/// aspect ratio), and return PNG-encoded bytes along with the display dimensions in terminal
/// cells. `data` is the file's content, `None` if it cannot be read.
///
/// Returns `None` if the image cannot be loaded: if it cannot be decoded, or if there is no room
/// for a pixel of it.
pub fn load_image(
    path: &str,
    data: Option<&Vec<u8>>,
    max_cols: u16,
    cell_w: u16,
    cell_h: u16,
) -> (image: Option<(Vec<u8>, u16, u16)>)
    ensures
        loads_as(
            content_of(data),
            size_in(path@, content_of(data)),
            loaded_view(image),
            max_cols,
            cell_w,
            cell_h,
        ),
        header_agrees(path@, content_of(data)),
        cell_h > 0 ==> (image matches Some((_, _, rows)) ==> rows == estimated_rows(
            header_of(path@, content_of(data)),
            max_cols,
            cell_w,
            cell_h,
        )),
{
    let mut size: Option<(u32, u32)> = None;
    let mut png: Option<Vec<u8>> = None;
    if let Some(bytes) = data {
        size = decode_file(path, bytes.as_slice());
        if let Some((w, h)) = size {
            if w > 0 && h > 0 {
                let target: (u32, u32) = fit((w, h), max_cols, cell_w);
                png = resize_file(path, bytes.as_slice(), target.0, target.1);
            }
        }
    }
    let image = place_image(size, png, max_cols, cell_w, cell_h);
    proof {
        if let Some(shown) = loaded_view(image) {
            if cell_h > 0 {
                law_estimate_is_shown(path@, content_of(data), shown, max_cols, cell_w, cell_h);
            }
        }
    }
    image
}

/// Load an image from in-memory bytes (e.g. a rendered diagram), resize it to fit within
/// `max_cols` terminal columns (preserving aspect ratio), and return re-encoded PNG bytes along
/// with display dimensions in terminal cells.
///
/// Returns `None` if the bytes cannot be decoded as a valid image, or if there is no room for a
/// pixel of it.
pub fn load_image_from_bytes(data: &Vec<u8>, max_cols: u16, cell_w: u16, cell_h: u16) -> (image:
    Option<(Vec<u8>, u16, u16)>)
    ensures
        loads_as(Some(data@), image_size(data@), loaded_view(image), max_cols, cell_w, cell_h),
{
    let size: Option<(u32, u32)> = decode(data.as_slice());
    let mut png: Option<Vec<u8>> = None;
    if let Some((w, h)) = size {
        if w > 0 && h > 0 {
            let target: (u32, u32) = fit((w, h), max_cols, cell_w);
            png = resize(data.as_slice(), target.0, target.1);
        }
    }
    place_image(size, png, max_cols, cell_w, cell_h)
}

// ---------------------------------------------------------------- laws

/// The rows set aside for the image in a file, by its header, are those it takes up once it is
/// loaded.
pub proof fn law_estimate_is_shown(
    path: Seq<char>,
    data: Option<Seq<u8>>,
    image: (Seq<u8>, u16, u16),
    max_cols: u16,
    cell_w: u16,
    cell_h: u16,
)
    requires
        header_agrees(path, data),
        loads_as(data, size_in(path, data), Some(image), max_cols, cell_w, cell_h),
        cell_h > 0,
    ensures
        image.2 == estimated_rows(header_of(path, data), max_cols, cell_w, cell_h),
{
    let size = size_in(path, data);
    lemma_loadable_cells(size, max_cols, cell_w);
    law_images_fit(size->0, max_cols, cell_w, cell_h);
}

/// A PNG that is not wider than the columns it may take is shown with the pixels it has, unless
/// it is too large to be decoded once more.
pub proof fn law_unscaled_images_keep_pixels(
    data: Seq<u8>,
    size: (u32, u32),
    image: (Seq<u8>, u16, u16),
    max_cols: u16,
    cell_w: u16,
    cell_h: u16,
)
    requires
        loads_as(Some(data), Some(size), Some(image), max_cols, cell_w, cell_h),
        is_png(data),
        size.0 <= columns_px(max_cols, cell_w),
        size.0 * size.1 <= READABLE_PIXELS,
    ensures
        png_pixels(image.0) == png_pixels(data),
{
}

/// Pixels take up as many cells as cover them, and no more, up to the greatest number there is.
pub proof fn law_cells(px: u32, cell: u16)
    requires
        cell > 0,
    ensures
        ({
            let n = cells(px, cell);
            &&& n < u16::MAX ==> px <= n * cell
            &&& n > 0 ==> (n - 1) * cell < px
            &&& px == 0 ==> n == 0
        }),
{
    let n = (px + cell - 1) / cell as int;
    assert(px <= n * cell && (n - 1) * cell < px) by (nonlinear_arith)
        requires
            n == (px + cell - 1) / cell as int,
            cell > 0,
            px >= 0,
    ;
    if n > u16::MAX {
        assert((u16::MAX - 1) * cell < px) by (nonlinear_arith)
            requires
                n > u16::MAX,
                (n - 1) * cell < px,
                cell > 0,
        ;
    }
    if px == 0 {
        assert((cell - 1) / cell as int == 0) by (nonlinear_arith)
            requires
                cell > 0,
        ;
    }
}

/// An image that fits into its columns keeps its size; a wider one gets just their width, and some
/// height.
pub proof fn law_target_size(size: (u32, u32), max_cols: u16, cell_w: u16)
    ensures
        size.0 <= max_cols * cell_w ==> target_size(size, max_cols, cell_w) == size,
        size.0 > max_cols * cell_w ==> target_size(size, max_cols, cell_w).0 == max_cols * cell_w
            && target_size(size, max_cols, cell_w).1 >= 1,
{
    assert(0 <= max_cols * cell_w <= 0xffff * 0xffff) by (nonlinear_arith)
        requires
            max_cols <= 0xffff,
            cell_w <= 0xffff,
    ;
}

/// A file is loaded where its image has pixels and was resampled: as what that gave, in the cells
/// that cover it. It cannot be without a size, without pixels, or without room for any.
pub proof fn law_loaded_images(
    w: u32,
    h: u32,
    png: Seq<u8>,
    max_cols: u16,
    cell_w: u16,
    cell_h: u16,
)
    requires
        cell_w > 0,
        cell_h > 0,
    ensures
        w > 0 && h > 0 ==> (loaded_image(Some((w, h)), Some(png), max_cols, cell_w, cell_h) matches
            Some(image) && {
            let target = target_size((w, h), max_cols, cell_w);
            &&& image.0 == png
            &&& image.1 == cells(target.0, cell_w)
            &&& image.2 >= 1 && image.2 >= cells(target.1, cell_h)
            &&& image.2 > 1 ==> image.2 == cells(target.1, cell_h)
        }),
        w == 0 || h == 0 ==> loaded_image(Some((w, h)), Some(png), max_cols, cell_w, cell_h) is None,
        loaded_image(None, Some(png), max_cols, cell_w, cell_h) is None,
        loaded_image(Some((w, h)), None, max_cols, cell_w, cell_h) is None,
        loadable(Some((w, h)), max_cols, cell_w) <==> w > 0 && h > 0 && max_cols > 0,
        !loadable(None, max_cols, cell_w),
{
    assert(max_cols * cell_w > 0 <==> max_cols > 0) by (nonlinear_arith)
        requires
            cell_w > 0,
            max_cols >= 0,
    ;
    assert(0 <= max_cols * cell_w <= 0xffff * 0xffff) by (nonlinear_arith)
        requires
            max_cols <= 0xffff,
            cell_w <= 0xffff,
    ;
}

/// A PNG is told by its first eight bytes.
pub proof fn law_png(rest: Seq<u8>, data: Seq<u8>, i: int)
    requires
        0 <= i < 8,
    ensures
        is_png(seq![0x89u8, 0x50, 0x4e, 0x47, 0x0d, 0x0a, 0x1a, 0x0a] + rest),
        is_png(data) ==> data.len() >= 8 && data[i] == seq![
            0x89u8,
            0x50,
            0x4e,
            0x47,
            0x0d,
            0x0a,
            0x1a,
            0x0a,
        ][i],
{
    let all = seq![0x89u8, 0x50, 0x4e, 0x47, 0x0d, 0x0a, 0x1a, 0x0a] + rest;
    assert(all.take(8) =~= seq![137u8, 80, 78, 71, 13, 10, 26, 10]);
    if is_png(data) {
        assert(data.take(8)[i] == data[i]);
    }
}

proof fn lemma_product_within(w: int, a: int, most: int)
    requires
        w >= 0,
        -most <= a <= most,
    ensures
        -(w * most) <= w * a <= w * most,
{
    assert(-(w * most) <= w * a <= w * most) by (nonlinear_arith)
        requires
            w >= 0,
            -most <= a <= most,
    ;
}

/// An image that is scaled down keeps its shape: its height is to the other height as the widths
/// are to each other, by less than one pixel.
pub proof fn law_scaled_images_keep_their_shape(w: u32, h: u32, max_w: u32)
    requires
        max_w < w,
    ensures
        ({
            let s = scaled_height(w, h, max_w);
            -w < s * w - h * max_w < w
        }),
{
    let half = TWO_88 as int;
    let n = max_w * TWO_88;
    let q = n / w as int;
    let rest = n % w as int;
    assert(n == q * w + rest && 0 <= rest < w) by (nonlinear_arith)
        requires
            q == n / w as int,
            rest == n % w as int,
            w > 0,
    ;
    let m = 2 * q + (if rest != 0 {
        1int
    } else {
        0int
    });
    assert(n < w * half) by (nonlinear_arith)
        requires
            n == max_w * half,
            max_w < w,
            half > 0,
    ;
    assert(0 <= q < half) by (nonlinear_arith)
        requires
            n == q * w + rest,
            0 <= rest < w,
            0 <= n < w * half,
            w > 0,
    ;
    let sc = quotient(max_w, w) as int;
    law_rounded(m as nat);
    let d3 = sc - m;
    assert(-0x10_0000_0000 <= d3 <= 0x10_0000_0000);
    let p = h * sc;
    assert(0 <= p <= 0x1_0000_0000 * sc) by (nonlinear_arith)
        requires
            p == h * sc,
            0 <= h <= 0x1_0000_0000,
            sc >= 0,
    ;
    law_rounded(p as nat);
    let product = rounded(p as nat) as int;
    let d2 = product - p;
    assert(-0x20_0000_0000_0000_0000 <= d2 <= 0x20_0000_0000_0000_0000);
    lemma_height_shrinks(w, h, max_w);
    let s = (product + half) / (2 * half);
    let d1 = 2 * half * s - product;
    assert(-half <= d1 <= half) by (nonlinear_arith)
        requires
            d1 == 2 * half * s - product,
            s == (product + half) / (2 * half),
            half > 0,
    ;
    let d4 = m * w - max_w * (2 * half);
    assert(-(2 * w) <= d4 <= 2 * w) by {
        assert(m * w == 2 * (q * w) + (if rest != 0 {
            w as int
        } else {
            0int
        })) by (nonlinear_arith)
            requires
                m == 2 * q + (if rest != 0 {
                    1int
                } else {
                    0int
                }),
        ;
        assert(max_w * (2 * half) == 2 * n) by (nonlinear_arith)
            requires
                n == max_w * half,
        ;
    }
    lemma_product_within(w as int, d1, half);
    lemma_product_within(w as int, d2, 0x20_0000_0000_0000_0000);
    lemma_product_within(h as int, d3, 0x10_0000_0000);
    lemma_product_within(w as int, h * d3, 0x10_0000_0000_0000_0000);
    lemma_product_within(h as int, d4, 2 * w);
    assert(h * (2 * w) <= 0x1_0000_0000 * (2 * w)) by (nonlinear_arith)
        requires
            h <= 0x1_0000_0000,
            w >= 0,
    ;
    let y = s * w - h * max_w;
    assert(2 * half * y == w * d1 + w * d2 + w * (h * d3) + h * d4) by (nonlinear_arith)
        requires
            y == s * w - h * max_w,
            d1 == 2 * half * s - product,
            d2 == product - p,
            p == h * sc,
            d3 == sc - m,
            d4 == m * w - max_w * (2 * half),
    ;
}

/// In cells without any extent pixels take up as many as there can be; no pixel takes up none.
pub proof fn law_cells_without_extent(px: u32)
    ensures
        cells(px, 0) == 0 <==> px == 0,
        px > 0 ==> cells(px, 0) == 0xffff,
{
}

} // verus!
