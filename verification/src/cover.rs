//! Cover pictures: their addresses, the cache of them, and how they are drawn
//! with coloured half blocks.

use std::collections::{HashMap, HashSet};

use vstd::arithmetic::div_mod::lemma_fundamental_div_mod_converse;
use vstd::prelude::*;

use crate::text::{
    ascii_lower_of, chars_of, decimal, decimal_text, find_char, find_of, find_text, same_text, skip_chars, starts_with,
    string_of, to_ascii_lower, trim_of, trimmed,
};

verus! {

broadcast use vstd::std_specs::hash::group_hash_axioms;

// Addresses.

/// The address over a secure connection.
pub open spec fn secured(url: Seq<char>) -> Seq<char> {
    if "http://"@.is_prefix_of(url) {
        "https://"@ + url.skip(7)
    } else {
        url
    }
}

pub open spec fn thumb_url_of(url: Seq<char>) -> Seq<char> {
    let address = secured(url);
    address + (if address.contains('?') { "&"@ } else { "?"@ }) + "param=400y400"@
}

/// The address of a cover in the size in which it is shown.
pub fn ncm_thumb_url(url: &str) -> (r: String)
    ensures
        r@ == thumb_url_of(url@),
{
    let chars = chars_of(url);
    let prefix = chars_of("http://");
    proof {
        reveal_strlit("http://");
    }
    let mut out: String = if starts_with(chars.as_slice(), prefix.as_slice()) {
        let rest = string_of(skip_chars(chars.as_slice(), 7));
        "https://".to_owned().concat(rest.as_str())
    } else {
        url.to_owned()
    };
    let address = chars_of(out.as_str());
    proof {
        crate::text::lemma_first_of(address@, '?');
    }
    match find_char(address.as_slice(), '?') {
        Some(i) => {
            proof {
                assert(address@[i as int] == '?');
            }
            out.append("&");
        },
        None => {
            out.append("?");
        },
    }
    out.append("param=400y400");
    out
}

/// An address without the white space around it, if it is one.
pub fn nonempty_url(url: &str) -> (r: Option<String>)
    ensures
        match r {
            Some(address) => address@ == trim_of(url@) && "http"@.is_prefix_of(address@),
            None => !"http"@.is_prefix_of(trim_of(url@)),
        },
{
    let address = trimmed(url);
    let chars = chars_of(address.as_str());
    let prefix = chars_of("http");
    if starts_with(chars.as_slice(), prefix.as_slice()) {
        Some(address)
    } else {
        None
    }
}

// Pictures.

/// The pixels of a picture, row by row, three bytes each.
#[derive(Clone, Debug)]
pub struct RgbPixels {
    pub width: u32,
    pub height: u32,
    pub data: Vec<u8>,
}

/// What `image::load_from_memory` and `to_rgb8` make of the bytes of a picture:
/// its width, its height and its pixels.
pub uninterp spec fn decoded_rgb(bytes: Seq<u8>) -> Option<(u32, u32, Seq<u8>)>;

/// What `image::load_from_memory` and `to_rgba8` make of the bytes of a
/// picture: its width, its height and its pixels, four bytes each.
pub uninterp spec fn decoded_rgba(bytes: Seq<u8>) -> Option<(u32, u32, Seq<u8>)>;

/// What `image::imageops::resize` with a triangle filter makes of a picture:
/// the pixels of one with another width and height.
pub uninterp spec fn resized_rgb(width: u32, height: u32, data: Seq<u8>, to_width: u32, to_height: u32) -> Seq<u8>;

/// `image::load_from_memory`: the picture that bytes hold, if they hold one, as
/// three bytes for each pixel.
#[verifier::external_body]
fn decode_rgb(bytes: &[u8]) -> (r: Option<RgbPixels>)
    ensures
        match r {
            Some(pixels) => decoded_rgb(bytes@) == Some((pixels.width, pixels.height, pixels.data@))
                && pixels.data@.len() == 3 * pixels.width * pixels.height,
            None => decoded_rgb(bytes@) is None,
        },
{
    match image::load_from_memory(bytes) {
        Ok(picture) => {
            let rgb = picture.to_rgb8();
            Some(RgbPixels { width: rgb.width(), height: rgb.height(), data: rgb.into_raw() })
        },
        Err(_) => None,
    }
}

/// `image::load_from_memory` and `to_rgba8`: the width, the height and the
/// pixels of the picture that bytes hold, if they hold one, as four bytes for
/// each pixel.
#[verifier::external_body]
fn decode_rgba(bytes: &[u8]) -> (r: Option<(u32, u32, Vec<u8>)>)
    ensures
        match r {
            Some((width, height, data)) => decoded_rgba(bytes@) == Some((width, height, data@)) && data@.len() == 4
                * width * height,
            None => decoded_rgba(bytes@) is None,
        },
{
    match image::load_from_memory(bytes) {
        Ok(picture) => {
            let rgba = picture.to_rgba8();
            Some((rgba.width(), rgba.height(), rgba.into_raw()))
        },
        Err(_) => None,
    }
}

/// `image::imageops::resize` with a triangle filter: the pixels of the picture
/// in another size, three bytes for each.
#[verifier::external_body]
fn resize_rgb(pixels: RgbPixels, to_width: u32, to_height: u32) -> (r: Vec<u8>)
    requires
        pixels.data@.len() == 3 * pixels.width * pixels.height,
        0 < to_width <= 0xffff,
        0 < to_height <= 0xffff,
    ensures
        r@ == resized_rgb(pixels.width, pixels.height, pixels.data@, to_width, to_height),
        r@.len() == 3 * to_width * to_height,
{
    let picture = image::RgbImage::from_raw(pixels.width, pixels.height, pixels.data).unwrap();
    image::imageops::resize(&picture, to_width, to_height, image::imageops::FilterType::Triangle).into_raw()
}

/// Whether bytes hold a picture.
pub fn looks_like_image(bytes: &[u8]) -> (r: bool)
    ensures
        r == decoded_rgb(bytes@) is Some,
{
    decode_rgb(bytes).is_some()
}

/// The colours of one half block: those of its upper and its lower half.
#[derive(Clone, Copy, Debug, PartialEq, Eq)]
pub struct HalfBlock {
    pub top: (u8, u8, u8),
    pub bottom: (u8, u8, u8),
}

/// A picture as rows of half blocks.
#[derive(Clone, Debug, PartialEq, Eq)]
pub struct CoverArt {
    pub cols: u16,
    pub rows: u16,
    pub lines: Vec<Vec<HalfBlock>>,
}

/// The colour of a pixel.
pub open spec fn pixel_at(data: Seq<u8>, width: int, x: int, y: int) -> (u8, u8, u8) {
    let i = (y * width + x) * 3;
    (data[i], data[i + 1], data[i + 2])
}

/// The height in pixels of a picture with so many rows of half blocks: two
/// pixels for each, as far as a `u16` counts them.
pub open spec fn drawn_height(rows: int) -> int {
    if rows * 2 <= 0xffff {
        rows * 2
    } else {
        0xffff
    }
}

/// The half block at a column and a row: two pixels, one above the other. In a
/// row with only one pixel both are that one.
pub open spec fn block_at(data: Seq<u8>, cols: int, height: int, col: int, row: int) -> HalfBlock {
    let below = if row * 2 + 1 < height {
        row * 2 + 1
    } else {
        height - 1
    };
    HalfBlock { top: pixel_at(data, cols, col, row * 2), bottom: pixel_at(data, cols, col, below) }
}

fn read_pixel(data: &Vec<u8>, width: usize, height: usize, x: usize, y: usize) -> (r: (u8, u8, u8))
    requires
        x < width <= 0xffff,
        y < height <= 0xffff,
        data@.len() == 3 * width * height,
    ensures
        r == pixel_at(data@, width as int, x as int, y as int),
{
    proof {
        assert(y * width + x < width * height) by (nonlinear_arith)
            requires
                x < width,
                y < height,
        ;
        assert(width * height <= 0xffff * 0xffff) by (nonlinear_arith)
            requires
                width <= 0xffff,
                height <= 0xffff,
        ;
        assert(y * width <= 0xffff * 0xffff) by (nonlinear_arith)
            requires
                width <= 0xffff,
                y <= 0xffff,
        ;
        assert(3 * width * height == 3 * (width * height)) by (nonlinear_arith);
    }
    let count: usize = data.len();
    let y: u64 = y as u64;
    let i: u64 = (y * width as u64 + x as u64) * 3;
    assert(i + 2 < count);
    let i: usize = i as usize;
    (data[i], data[i + 1], data[i + 2])
}

/// The most rows of half blocks that a picture can have.
pub const MAX_ROWS: u16 = 0x8000;

/// The picture of a size in half blocks, from its pixels: `cols` wide and
/// twice `rows` high.
pub fn half_blocks(data: &Vec<u8>, cols: u16, rows: u16) -> (r: CoverArt)
    requires
        cols > 0,
        0 < rows <= MAX_ROWS,
        data@.len() == 3 * cols * drawn_height(rows as int),
    ensures
        r.cols == cols,
        r.rows == rows,
        r.lines@.len() == rows,
        forall|row: int| 0 <= row < rows ==> (#[trigger] r.lines@[row])@.len() == cols,
        forall|row: int, col: int|
            0 <= row < rows && 0 <= col < cols ==> #[trigger] r.lines@[row]@[col] == block_at(
                data@,
                cols as int,
                drawn_height(rows as int),
                col,
                row,
            ),
{
    let width: usize = cols as usize;
    let height: usize = if rows < 0x8000 { rows as usize * 2 } else { 0xffff };
    let mut lines: Vec<Vec<HalfBlock>> = Vec::new();
    let mut row: usize = 0;
    while row < rows as usize
        invariant
            row <= rows <= MAX_ROWS,
            width == cols,
            height == drawn_height(rows as int),
            data@.len() == 3 * width * height,
            lines@.len() == row,
            forall|k: int| 0 <= k < row ==> (#[trigger] lines@[k])@.len() == cols,
            forall|k: int, col: int|
                0 <= k < row && 0 <= col < cols ==> #[trigger] lines@[k]@[col] == block_at(
                    data@,
                    cols as int,
                    height as int,
                    col,
                    k,
                ),
        decreases rows - row,
    {
        let mut line: Vec<HalfBlock> = Vec::new();
        let mut col: usize = 0;
        while col < width
            invariant
                row < rows <= MAX_ROWS,
                col <= width,
                width == cols,
                height == drawn_height(rows as int),
                data@.len() == 3 * width * height,
                line@.len() == col,
                forall|k: int|
                    0 <= k < col ==> #[trigger] line@[k] == block_at(
                        data@,
                        cols as int,
                        height as int,
                        k,
                        row as int,
                    ),
            decreases width - col,
        {
            let below: usize = if row * 2 + 1 < height { row * 2 + 1 } else { height - 1 };
            line.push(
                HalfBlock {
                    top: read_pixel(data, width, height, col, row * 2),
                    bottom: read_pixel(data, width, height, col, below),
                },
            );
            col += 1;
        }
        lines.push(line);
        row += 1;
    }
    CoverArt { cols, rows, lines }
}

/// The pixels that a picture is drawn from.
pub open spec fn drawn_pixels(bytes: Seq<u8>, cols: u16, rows: u16) -> Seq<u8> {
    let (width, height, data) = decoded_rgb(bytes)->0;
    resized_rgb(width, height, data, cols as u32, drawn_height(rows as int) as u32)
}

/// Draws a picture in half blocks, so many columns wide and rows high.
pub fn from_bytes(bytes: &[u8], cols: u16, rows: u16) -> (r: Option<CoverArt>)
    requires
        rows <= MAX_ROWS,
    ensures
        match r {
            Some(art) => cols > 0 && rows > 0 && decoded_rgb(bytes@) is Some && art.cols == cols && art.rows == rows
                && art.lines@.len() == rows && (forall|row: int|
                0 <= row < rows ==> (#[trigger] art.lines@[row])@.len() == cols) && (forall|row: int, col: int|
                0 <= row < rows && 0 <= col < cols ==> #[trigger] art.lines@[row]@[col] == block_at(
                    drawn_pixels(bytes@, cols, rows),
                    cols as int,
                    drawn_height(rows as int),
                    col,
                    row,
                )),
            None => cols == 0 || rows == 0 || decoded_rgb(bytes@) is None,
        },
{
    if cols == 0 || rows == 0 {
        return None;
    }
    match decode_rgb(bytes) {
        Some(pixels) => {
            let height: u32 = if rows < 0x8000 { rows as u32 * 2 } else { 0xffff };
            let data = resize_rgb(pixels, cols as u32, height);
            Some(half_blocks(&data, cols, rows))
        },
        None => None,
    }
}

/// The columns that a square picture takes in a slot: half blocks are twice as
/// tall as they are wide.
pub open spec fn fitted_cols(max_cols: u16, max_rows: u16) -> u16 {
    if max_rows * 2 <= max_cols {
        (max_rows * 2) as u16
    } else {
        max_cols
    }
}

/// Fits a roughly square cover into a slot.
pub fn fit(bytes: &[u8], max_cols: u16, max_rows: u16) -> (r: Option<CoverArt>)
    requires
        max_rows <= MAX_ROWS,
    ensures
        match r {
            Some(art) => max_cols > 0 && max_rows > 0 && decoded_rgb(bytes@) is Some && art.cols == fitted_cols(
                max_cols,
                max_rows,
            ) && art.rows == max_rows && art.cols <= max_cols && art.lines@.len() == max_rows && (forall|row: int|
                0 <= row < max_rows ==> (#[trigger] art.lines@[row])@.len() == art.cols) && (forall|row: int, col: int|
                0 <= row < max_rows && 0 <= col < art.cols ==> #[trigger] art.lines@[row]@[col] == block_at(
                    drawn_pixels(bytes@, art.cols, max_rows),
                    art.cols as int,
                    drawn_height(max_rows as int),
                    col,
                    row,
                )),
            None => max_cols == 0 || max_rows == 0 || decoded_rgb(bytes@) is None,
        },
{
    if max_cols == 0 || max_rows == 0 {
        return None;
    }
    let doubled: u32 = max_rows as u32 * 2;
    let cols: u16 = if doubled <= max_cols as u32 {
        doubled as u16
    } else {
        max_cols
    };
    from_bytes(bytes, cols, max_rows)
}

/// The largest square in the middle of a picture: where it starts, and its size.
pub fn square_crop(width: u32, height: u32) -> (r: Option<(u32, u32, u32)>)
    ensures
        match r {
            Some((x, y, size)) => width > 0 && height > 0 && size == (if width <= height { width } else { height })
                && x == (width - size) / 2 && y == (height - size) / 2 && x + size <= width && y + size <= height,
            None => width == 0 || height == 0,
        },
{
    if width == 0 || height == 0 {
        return None;
    }
    let size: u32 = if width <= height {
        width
    } else {
        height
    };
    Some(((width - size) / 2, (height - size) / 2, size))
}

/// The pixels of a square that starts `x` to the right and `y` below in a
/// picture, four bytes each, row by row.
pub open spec fn cropped_of(data: Seq<u8>, width: int, x: int, y: int, size: int) -> Seq<u8> {
    Seq::new(
        (size * (4 * size)) as nat,
        |i: int| data[((y + i / (4 * size)) * width + x) * 4 + i % (4 * size)],
    )
}

proof fn lemma_crop_place(width: int, height: int, x: int, y: int, size: int, row: int, k: int)
    requires
        0 <= x,
        0 <= y,
        x + size <= width,
        y + size <= height,
        0 <= row < size,
        0 <= k < 4 * size,
    ensures
        0 <= (y + row) * width <= ((y + row) * width + x) * 4 + k < 4 * width * height,
        0 <= row * (4 * size) + k < size * (4 * size),
        (row * (4 * size) + k) / (4 * size) == row,
        (row * (4 * size) + k) % (4 * size) == k,
{
    assert(0 <= (y + row) * width) by (nonlinear_arith)
        requires
            0 <= y + row,
            0 <= width,
    ;
    assert((y + row) * width + width <= width * height) by (nonlinear_arith)
        requires
            y + row + 1 <= height,
            0 <= width,
    ;
    assert(4 * width * height == 4 * (width * height)) by (nonlinear_arith);
    assert((row + 1) * (4 * size) <= size * (4 * size)) by (nonlinear_arith)
        requires
            row + 1 <= size,
            0 <= size,
    ;
    assert((row + 1) * (4 * size) == row * (4 * size) + 4 * size) by (nonlinear_arith);
    assert(0 <= row * (4 * size)) by (nonlinear_arith)
        requires
            0 <= row,
            0 <= size,
    ;
    lemma_fundamental_div_mod_converse(row * (4 * size) + k, 4 * size, row, k);
}

fn crop(data: &Vec<u8>, width: u32, height: u32, x: u32, y: u32, size: u32) -> (r: Vec<u8>)
    requires
        size > 0,
        x + size <= width,
        y + size <= height,
        data@.len() == 4 * width * height,
    ensures
        r@ == cropped_of(data@, width as int, x as int, y as int, size as int),
{
    let ghost whole = cropped_of(data@, width as int, x as int, y as int, size as int);
    let total: usize = data.len();
    let mut out: Vec<u8> = Vec::new();
    let mut row: u32 = 0;
    proof {
        assert(out@ =~= whole.take(0));
    }
    while row < size
        invariant
            row <= size,
            size > 0,
            x + size <= width,
            y + size <= height,
            total == data@.len() == 4 * width * height,
            whole == cropped_of(data@, width as int, x as int, y as int, size as int),
            row * (4 * size) <= whole.len() == size * (4 * size),
            out@ == whole.take(row * (4 * size)),
        decreases size - row,
    {
        proof {
            lemma_crop_place(width as int, height as int, x as int, y as int, size as int, row as int, 4 * size - 1);
        }
        let start: usize = ((y as usize + row as usize) * width as usize + x as usize) * 4;
        let length: usize = 4 * size as usize;
        let mut k: usize = 0;
        while k < length
            invariant
                row < size,
                k <= length == 4 * size,
                x + size <= width,
                y + size <= height,
                start == ((y + row) * width + x) * 4,
                total == data@.len() == 4 * width * height,
                whole == cropped_of(data@, width as int, x as int, y as int, size as int),
                row * (4 * size) + length <= whole.len() == size * (4 * size),
                0 <= row * (4 * size),
                out@ == whole.take(row * (4 * size) + k),
            decreases length - k,
        {
            proof {
                lemma_crop_place(width as int, height as int, x as int, y as int, size as int, row as int, k as int);
                let i = row * (4 * size) + k;
                assert(whole.take(i + 1) =~= whole.take(i).push(whole[i]));
            }
            out.push(data[start + k]);
            k += 1;
        }
        proof {
            assert((row + 1) * (4 * size) == row * (4 * size) + 4 * size) by (nonlinear_arith);
        }
        row += 1;
    }
    proof {
        assert(whole.take(whole.len() as int) =~= whole);
    }
    out
}

/// The largest square in the middle of the picture that bytes hold: its size,
/// and its pixels, four bytes each.
pub fn square_cover(bytes: &[u8]) -> (r: Option<(u32, Vec<u8>)>)
    ensures
        match (r, decoded_rgba(bytes@)) {
            (Some((size, data)), Some((width, height, pixels))) => width > 0 && height > 0 && size == (if width
                <= height {
                width
            } else {
                height
            }) && data@ == cropped_of(
                pixels,
                width as int,
                (width - size) / 2,
                (height - size) / 2,
                size as int,
            ) && data@.len() == 4 * size * size,
            (None, Some((width, height, _))) => width == 0 || height == 0,
            (r, None) => r is None,
        },
{
    match decode_rgba(bytes) {
        Some((width, height, data)) => match square_crop(width, height) {
            Some((x, y, size)) => {
                proof {
                    assert(size * (4 * size) == 4 * size * size) by (nonlinear_arith);
                    assert(0 <= size * (4 * size)) by (nonlinear_arith)
                        requires
                            0 <= size,
                    ;
                }
                Some((size, crop(&data, width, height, x, y, size)))
            },
            None => None,
        },
        None => None,
    }
}

/// The first position that is marked, or else the first.
pub open spec fn marked_or_first(marks: Seq<bool>) -> Option<int>
    decreases marks.len(),
{
    if marks.len() == 0 {
        None
    } else {
        let i = first_mark(marks);
        Some(if i < marks.len() { i } else { 0 })
    }
}

pub open spec fn first_mark(marks: Seq<bool>) -> int
    decreases marks.len(),
{
    if marks.len() == 0 || marks[0] {
        0
    } else {
        1 + first_mark(marks.drop_first())
    }
}

/// Which picture of a file is its cover: the first that is marked as the front
/// cover, or else the first.
pub fn choose_picture(is_front: &Vec<bool>) -> (r: Option<usize>)
    ensures
        match r {
            Some(i) => marked_or_first(is_front@) == Some(i as int) && i < is_front@.len(),
            None => is_front@.len() == 0,
        },
{
    if is_front.len() == 0 {
        return None;
    }
    let mut i: usize = 0;
    proof {
        assert(is_front@.skip(0) =~= is_front@);
    }
    while i < is_front.len() && !is_front[i]
        invariant
            i <= is_front@.len(),
            first_mark(is_front@) == i + first_mark(is_front@.skip(i as int)),
        decreases is_front@.len() - i,
    {
        proof {
            assert(is_front@.skip(i as int).drop_first() =~= is_front@.skip(i + 1));
        }
        i += 1;
    }
    if i < is_front.len() {
        Some(i)
    } else {
        Some(0)
    }
}

// The cache of covers.

/// Covers that were fetched, and songs that are known to have none.
pub struct CoverCache {
    memory: HashMap<u64, Vec<u8>>,
    misses: HashSet<u64>,
}

#[verifier::ext_equal]
pub struct CoverCacheView {
    pub memory: Map<u64, Seq<u8>>,
    pub misses: Set<u64>,
}

pub open spec fn byte_views(memory: Map<u64, Vec<u8>>) -> Map<u64, Seq<u8>> {
    memory.map_values(|bytes: Vec<u8>| bytes@)
}

impl View for CoverCache {
    type V = CoverCacheView;

    closed spec fn view(&self) -> CoverCacheView {
        CoverCacheView { memory: byte_views(self.memory@), misses: self.misses@ }
    }
}

fn copy_bytes(bytes: &[u8]) -> (r: Vec<u8>)
    ensures
        r@ == bytes@,
{
    let mut out: Vec<u8> = Vec::new();
    let mut i: usize = 0;
    while i < bytes.len()
        invariant
            i <= bytes@.len(),
            out@ == bytes@.take(i as int),
        decreases bytes@.len() - i,
    {
        out.push(bytes[i]);
        proof {
            assert(bytes@.take(i + 1) =~= bytes@.take(i as int).push(bytes@[i as int]));
        }
        i += 1;
    }
    proof {
        assert(bytes@.take(i as int) =~= bytes@);
    }
    out
}

impl CoverCacheView {
    /// The covers after one was read from the store, if it is a picture.
    pub open spec fn loading(self, song_id: u64, bytes: Seq<u8>) -> CoverCacheView {
        if decoded_rgb(bytes) is Some {
            CoverCacheView { memory: self.memory.insert(song_id, bytes), ..self }
        } else {
            self
        }
    }

    /// The covers after one was fetched, if it is a picture.
    pub open spec fn putting(self, song_id: u64, bytes: Seq<u8>) -> CoverCacheView {
        if decoded_rgb(bytes) is Some {
            CoverCacheView {
                memory: self.memory.insert(song_id, bytes),
                misses: self.misses.remove(song_id),
            }
        } else {
            self
        }
    }

    /// The covers after a song turned out to have none.
    pub open spec fn missing(self, song_id: u64) -> CoverCacheView {
        CoverCacheView { misses: self.misses.insert(song_id), ..self }
    }
}

impl CoverCache {
    pub fn new() -> (r: CoverCache)
        ensures
            r@.memory == Map::<u64, Seq<u8>>::empty(),
            r@.misses == Set::<u64>::empty(),
    {
        let r = CoverCache { memory: HashMap::new(), misses: HashSet::new() };
        proof {
            assert(r@.memory =~= Map::empty());
        }
        r
    }

    /// The cover of a song that is held in memory.
    pub fn get(&self, song_id: u64) -> (r: Option<Vec<u8>>)
        ensures
            match r {
                Some(bytes) => self@.memory.contains_key(song_id) && bytes@ == self@.memory[song_id],
                None => !self@.memory.contains_key(song_id),
            },
    {
        match self.memory.get(&song_id) {
            Some(bytes) => Some(copy_bytes(bytes.as_slice())),
            None => None,
        }
    }

    /// Takes what a stored file holds for a song that is not held in memory, if
    /// it is a picture. Whether it is.
    pub fn load(&mut self, song_id: u64, bytes: &[u8]) -> (r: bool)
        ensures
            final(self)@ == old(self)@.loading(song_id, bytes@),
            r == decoded_rgb(bytes@) is Some,
            final(self)@ == if r {
                CoverCacheView { memory: old(self)@.memory.insert(song_id, bytes@), ..old(self)@ }
            } else {
                old(self)@
            },
    {
        if !looks_like_image(bytes) {
            return false;
        }
        let ghost before = self.memory@;
        self.memory.insert(song_id, copy_bytes(bytes));
        proof {
            assert(byte_views(self.memory@) =~= byte_views(before).insert(song_id, bytes@));
        }
        true
    }

    /// Takes a cover that was fetched, if it is a picture; the song is then no
    /// longer one without a cover. Whether the cover has to be stored.
    pub fn put(&mut self, song_id: u64, bytes: &[u8]) -> (r: bool)
        ensures
            final(self)@ == old(self)@.putting(song_id, bytes@),
            r == decoded_rgb(bytes@) is Some,
            final(self)@ == if r {
                CoverCacheView {
                    memory: old(self)@.memory.insert(song_id, bytes@),
                    misses: old(self)@.misses.remove(song_id),
                }
            } else {
                old(self)@
            },
    {
        if !self.load(song_id, bytes) {
            return false;
        }
        self.misses.remove(&song_id);
        true
    }

    /// Whether a song is known to have no cover. `marked` tells whether it is
    /// marked so in the store.
    pub fn is_miss(&self, song_id: u64, marked: bool) -> (r: bool)
        ensures
            r == (self@.misses.contains(song_id) || marked),
    {
        self.misses.contains(&song_id) || marked
    }

    /// Remembers that a song has no cover.
    pub fn remember_miss(&mut self, song_id: u64)
        ensures
            final(self)@ == old(self)@.missing(song_id),
            final(self)@ == (CoverCacheView { misses: old(self)@.misses.insert(song_id), ..old(self)@ }),
    {
        self.misses.insert(song_id);
    }
}

/// The name of the file in which the cover of a song is stored.
pub fn image_name(song_id: u64) -> (r: String)
    ensures
        r@ == decimal(song_id as nat) + ".img"@,
{
    decimal_text(song_id).concat(".img")
}

/// The name of the file that marks a song without a cover.
pub fn miss_name(song_id: u64) -> (r: String)
    ensures
        r@ == decimal(song_id as nat) + ".miss"@,
{
    decimal_text(song_id).concat(".miss")
}

// Terminals that show pictures.

/// What the environment says of the terminal.
#[derive(Clone, Debug)]
pub struct TerminalHints {
    pub kitty_window: bool,
    pub kitty_pid: bool,
    pub ghostty_resources: bool,
    pub foot_version: bool,
    pub term_program: Option<String>,
    pub term: Option<String>,
}

pub open spec fn is_kitty_program(name: Seq<char>) -> bool {
    name == "kitty"@ || name == "ghostty"@ || name == "rio"@ || name == "WezTerm"@
}

pub open spec fn kitty_hinted(hints: TerminalHints) -> bool {
    ||| hints.kitty_window || hints.kitty_pid || hints.ghostty_resources
    ||| hints.term_program is Some && is_kitty_program(hints.term_program->0@)
    ||| hints.term is Some && (find_of(ascii_lower_of(hints.term->0@), "kitty"@) >= 0 || ascii_lower_of(
        hints.term->0@,
    ) == "xterm-ghostty"@)
}

pub open spec fn sixel_hinted(hints: TerminalHints) -> bool {
    ||| hints.foot_version
    ||| hints.term is Some && ("foot"@.is_prefix_of(ascii_lower_of(hints.term->0@)) || "mlterm"@.is_prefix_of(
        ascii_lower_of(hints.term->0@),
    ))
}

/// Whether the environment speaks of a terminal with the Kitty protocol.
pub fn kitty_available(hints: &TerminalHints) -> (r: bool)
    ensures
        r == kitty_hinted(*hints),
{
    if hints.kitty_window || hints.kitty_pid || hints.ghostty_resources {
        return true;
    }
    if let Some(name) = &hints.term_program {
        if same_text(name.as_str(), "kitty") || same_text(name.as_str(), "ghostty") || same_text(
            name.as_str(),
            "rio",
        ) || same_text(name.as_str(), "WezTerm") {
            return true;
        }
    }
    match &hints.term {
        Some(term) => {
            let lower = to_ascii_lower(chars_of(term.as_str()).as_slice());
            find_text(lower.as_slice(), chars_of("kitty").as_slice()).is_some() || crate::text::same_chars(
                lower.as_slice(),
                chars_of("xterm-ghostty").as_slice(),
            )
        },
        None => false,
    }
}

/// Whether the environment speaks of a terminal with sixel graphics.
pub fn sixel_available(hints: &TerminalHints) -> (r: bool)
    ensures
        r == sixel_hinted(*hints),
{
    if hints.foot_version {
        return true;
    }
    match &hints.term {
        Some(term) => {
            let lower = to_ascii_lower(chars_of(term.as_str()).as_slice());
            starts_with(lower.as_slice(), chars_of("foot").as_slice()) || starts_with(
                lower.as_slice(),
                chars_of("mlterm").as_slice(),
            )
        },
        None => false,
    }
}

/// The ways in which a terminal shows a picture.
#[derive(Clone, Copy, Debug, PartialEq, Eq, Structural)]
pub enum GraphicsProtocol {
    HalfBlocks,
    Sixel,
    Kitty,
    Iterm2,
}

/// The protocol to use. Where the terminal's answer left only half blocks, a
/// better one is taken if the environment speaks of it and the answer showed a
/// trace of it.
pub fn choose_protocol(detected: GraphicsProtocol, hints: &TerminalHints, seen_kitty: bool, seen_sixel: bool) -> (r:
    GraphicsProtocol)
    ensures
        r == if detected != GraphicsProtocol::HalfBlocks {
            detected
        } else if kitty_hinted(*hints) && seen_kitty {
            GraphicsProtocol::Kitty
        } else if sixel_hinted(*hints) && seen_sixel {
            GraphicsProtocol::Sixel
        } else {
            GraphicsProtocol::HalfBlocks
        },
{
    if detected != GraphicsProtocol::HalfBlocks {
        return detected;
    }
    if kitty_available(hints) && seen_kitty {
        GraphicsProtocol::Kitty
    } else if sixel_available(hints) && seen_sixel {
        GraphicsProtocol::Sixel
    } else {
        GraphicsProtocol::HalfBlocks
    }
}

// Laws of covers.

/// A cover that was taken is what is held for its song, which is then no longer
/// one without a cover; the covers of other songs stay. What is no picture
/// changes nothing.
pub proof fn lemma_covers_held(v: CoverCacheView, song_id: u64, bytes: Seq<u8>, other: u64)
    ensures
        decoded_rgb(bytes) is Some ==> v.putting(song_id, bytes).memory.contains_key(song_id) && v.putting(
            song_id,
            bytes,
        ).memory[song_id] == bytes && !v.putting(song_id, bytes).misses.contains(song_id),
        decoded_rgb(bytes) is Some ==> v.loading(song_id, bytes).memory.contains_key(song_id) && v.loading(
            song_id,
            bytes,
        ).memory[song_id] == bytes && v.loading(song_id, bytes).misses == v.misses,
        decoded_rgb(bytes) is None ==> v.putting(song_id, bytes) == v && v.loading(song_id, bytes) == v,
        other != song_id ==> v.putting(song_id, bytes).memory.contains_key(other) == v.memory.contains_key(other)
            && v.putting(song_id, bytes).memory[other] == v.memory[other] && v.putting(song_id, bytes).misses.contains(
            other,
        ) == v.misses.contains(other),
        v.missing(song_id).misses.contains(song_id) && v.missing(song_id).memory == v.memory,
        other != song_id ==> v.missing(song_id).misses.contains(other) == v.misses.contains(other),
{
}

/// What is held for a song is given back; a song is known to have no cover if it
/// was noted or is marked.
pub proof fn lemma_covers_read(cache: CoverCache, song_id: u64, marked: bool, r: Option<Vec<u8>>, s: bool)
    requires
        call_ensures(CoverCache::get, (&cache, song_id), r),
        call_ensures(CoverCache::is_miss, (&cache, song_id, marked), s),
    ensures
        r is Some <==> cache@.memory.contains_key(song_id),
        r is Some ==> r->0@ == cache@.memory[song_id],
        s <==> marked || cache@.misses.contains(song_id),
{
}

/// Covers are asked for over a secure connection and in the size in which they
/// are shown.
pub proof fn lemma_thumbs(rest: Seq<char>)
    requires
        !rest.contains('?'),
    ensures
        thumb_url_of("http://"@ + rest) == "https://"@ + rest + "?"@ + "param=400y400"@,
        thumb_url_of("https://"@ + rest) == "https://"@ + rest + "?"@ + "param=400y400"@,
        thumb_url_of("https://"@ + rest + "?"@) == "https://"@ + rest + "?"@ + "&"@ + "param=400y400"@,
{
    reveal_strlit("http://");
    reveal_strlit("https://");
    reveal_strlit("?");
    let a = "http://"@ + rest;
    let b = "https://"@ + rest;
    let c = b + "?"@;
    assert(a.subrange(0, 7) =~= "http://"@);
    assert(a.skip(7) =~= rest);
    assert(secured(a) =~= b);
    assert(b[4] == 's');
    assert("http://"@[4] == ':');
    assert(!"http://"@.is_prefix_of(b)) by {
        if "http://"@.is_prefix_of(b) {
            assert(b.subrange(0, 7)[4] == b[4]);
        }
    }
    assert(!"http://"@.is_prefix_of(c)) by {
        if "http://"@.is_prefix_of(c) {
            assert(c.subrange(0, 7)[4] == c[4]);
        }
    }
    assert(!b.contains('?')) by {
        if b.contains('?') {
            let i = choose|i: int| 0 <= i < b.len() && b[i] == '?';
            if i >= 8 {
                assert(rest[i - 8] == '?');
                assert(rest.contains('?'));
            }
        }
    }
    assert(c[b.len() as int] == '?');
    assert(c.contains('?'));
}

/// An address is one that starts like one, without the white space around it.
pub proof fn lemma_addresses(url: &str, r: Option<String>)
    requires
        call_ensures(nonempty_url, (url,), r),
    ensures
        r is Some <==> "http"@.is_prefix_of(trim_of(url@)),
        r is Some ==> r->0@ == trim_of(url@),
{
}

/// A pixel is three bytes; they follow one another from left to right, and the
/// rows from top to bottom.
pub proof fn lemma_pixels(data: Seq<u8>, width: int, x: int, y: int)
    ensures
        pixel_at(data, width, 0, 0) == (data[0], data[1], data[2]),
        x >= 0 && y >= 0 && width >= 0 && (y * width + x + 1) * 3 + 3 <= data.len() ==> pixel_at(
            data.skip(3),
            width,
            x,
            y,
        ) == pixel_at(data, width, x + 1, y),
        pixel_at(data, width, x + width, y) == pixel_at(data, width, x, y + 1),
{
    assert((y + 1) * width + x == y * width + (x + width)) by (nonlinear_arith);
    assert((0int * width + 0) * 3 == 0) by (nonlinear_arith);
    if x >= 0 && y >= 0 && width >= 0 && (y * width + x + 1) * 3 + 3 <= data.len() {
        assert(y * width >= 0) by (nonlinear_arith)
            requires
                y >= 0,
                width >= 0,
        ;
        let i = (y * width + x) * 3;
        assert((y * width + (x + 1)) * 3 == i + 3);
        assert(data.skip(3)[i] == data[i + 3]);
        assert(data.skip(3)[i + 1] == data[i + 4]);
        assert(data.skip(3)[i + 2] == data[i + 5]);
    }
}

/// A half block shows two pixels, the upper one above the lower one.
pub proof fn lemma_half_block(data: Seq<u8>, cols: int, rows: int, col: int, row: int)
    requires
        0 <= row < rows <= 0x7fff,
    ensures
        drawn_height(rows) == 2 * rows,
        block_at(data, cols, drawn_height(rows), col, row).top == pixel_at(data, cols, col, 2 * row),
        block_at(data, cols, drawn_height(rows), col, row).bottom == pixel_at(data, cols, col, 2 * row + 1),
{
}

/// A cover in a slot is as wide as it is high, unless the slot is narrower, and
/// as high as the slot.
pub proof fn lemma_fitted_cols(max_cols: u16, max_rows: u16)
    ensures
        2 * max_rows <= max_cols ==> fitted_cols(max_cols, max_rows) == 2 * max_rows,
        2 * max_rows > max_cols ==> fitted_cols(max_cols, max_rows) == max_cols,
{
}

/// The square of a picture is as large as its shorter side, and as much is cut
/// off on either side, to the pixel.
pub proof fn lemma_square(width: u32, height: u32, r: Option<(u32, u32, u32)>)
    requires
        call_ensures(square_crop, (width, height), r),
    ensures
        width == 0 || height == 0 <==> r is None,
        r matches Some((x, y, size)) ==> {
            &&& size <= width && size <= height && (size == width || size == height)
            &&& 0 <= (width - size) - 2 * x <= 1
            &&& 0 <= (height - size) - 2 * y <= 1
        },
{
}

/// The pixels of a square are those of the picture at their places.
pub proof fn lemma_cropped(data: Seq<u8>, width: int, x: int, y: int, size: int, row: int, k: int)
    requires
        0 <= row < size,
        0 <= k < 4 * size,
        0 <= x,
        0 <= y,
        x + size <= width,
    ensures
        cropped_of(data, width, x, y, size).len() == 4 * size * size,
        cropped_of(data, width, x, y, size)[row * (4 * size) + k] == data[((y + row) * width + x) * 4 + k],
{
    lemma_crop_place(width, y + size, x, y, size, row, k);
    assert(size * (4 * size) == 4 * size * size) by (nonlinear_arith);
    assert(0 <= size * (4 * size)) by (nonlinear_arith)
        requires
            0 <= size,
    ;
}

/// The cover of a file is the first picture that is marked as the front cover,
/// and the first of all where none is.
pub proof fn lemma_pictures(is_front: Vec<bool>, r: Option<usize>)
    requires
        call_ensures(choose_picture, (&is_front,), r),
    ensures
        r is None <==> is_front@.len() == 0,
        r is Some && is_front@[r->0 as int] ==> forall|i: int| 0 <= i < r->0 ==> !(#[trigger] is_front@[i]),
        r is Some && !is_front@[r->0 as int] ==> r->0 == 0 && forall|i: int|
            0 <= i < is_front@.len() ==> !(#[trigger] is_front@[i]),
{
    lemma_first_mark(is_front@);
}

proof fn lemma_first_mark(marks: Seq<bool>)
    ensures
        0 <= first_mark(marks) <= marks.len(),
        first_mark(marks) < marks.len() ==> marks[first_mark(marks)],
        forall|i: int| 0 <= i < first_mark(marks) ==> !(#[trigger] marks[i]),
    decreases marks.len(),
{
    if marks.len() > 0 && !marks[0] {
        let t = marks.drop_first();
        lemma_first_mark(t);
        assert forall|i: int| 0 <= i < first_mark(marks) implies !(#[trigger] marks[i]) by {
            if i > 0 {
                assert(marks[i] == t[i - 1]);
            }
        }
    }
}

/// What the terminal was found to speak is used; where that is nothing better
/// than half blocks, a protocol is used that both the environment and the
/// terminal speak of.
pub proof fn lemma_protocols(
    detected: GraphicsProtocol,
    hints: TerminalHints,
    seen_kitty: bool,
    seen_sixel: bool,
    r: GraphicsProtocol,
)
    requires
        call_ensures(choose_protocol, (detected, &hints, seen_kitty, seen_sixel), r),
    ensures
        detected != GraphicsProtocol::HalfBlocks ==> r == detected,
        detected == GraphicsProtocol::HalfBlocks && kitty_hinted(hints) && seen_kitty ==> r == GraphicsProtocol::Kitty,
        detected == GraphicsProtocol::HalfBlocks && !(kitty_hinted(hints) && seen_kitty) && sixel_hinted(hints)
            && seen_sixel ==> r == GraphicsProtocol::Sixel,
        detected == GraphicsProtocol::HalfBlocks && !(kitty_hinted(hints) && seen_kitty) && !(sixel_hinted(hints)
            && seen_sixel) ==> r == GraphicsProtocol::HalfBlocks,
        hints.kitty_window || hints.kitty_pid || hints.ghostty_resources ==> kitty_hinted(hints),
        hints.foot_version ==> sixel_hinted(hints),
{
}

/// The cover of a song and the mark that it has none are kept under its number.
pub proof fn lemma_cover_files(song_id: u64, r: String, s: String)
    requires
        call_ensures(image_name, (song_id,), r),
        call_ensures(miss_name, (song_id,), s),
    ensures
        r@ == decimal(song_id as nat) + ".img"@,
        s@ == decimal(song_id as nat) + ".miss"@,
{
}

} // verus!
