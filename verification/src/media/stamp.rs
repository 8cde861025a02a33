//! The frame stamp: frame `i` of a synthetic clip shows `i` in binary as a
//! 4x4 grid of black and white blocks, most significant bit first in raster
//! order, so the index survives scaling and lossy coding.
use crate::data::Frame;
use crate::media::metadata::Resolution;
use vstd::prelude::*;

verus! {

/// Blocks per side of the stamp.
pub const GRID: u32 = 4;

/// Bits a stamp holds.
pub const STAMP_BITS: u32 = 16;

/// Block `(row, col)` of the stamp of `index` is white: bit
/// `15 - (4 * row + col)` of `index` is set.
pub open spec fn block_white(index: u32, row: u32, col: u32) -> bool {
    (index >> (15 - (row * 4 + col)) as u32) & 1 == 1
}

/// The block row of pixel row `y` in a picture `height` pixels high.
pub open spec fn block_of(y: int, height: int) -> u32 {
    (y * 4 / height) as u32
}

/// Channel `c` of pixel `(x, y)` in the stamp of `index`: white or black in
/// the color channels, opaque alpha.
pub open spec fn stamp_byte(index: u32, width: u32, height: u32, y: int, x: int, c: int) -> u8 {
    if c == 3 {
        255
    } else if block_white(index, block_of(y, height as int), block_of(x, width as int)) {
        255
    } else {
        0
    }
}

/// Where channel `c` of pixel `(x, y)` sits in packed RGBA rows `width` wide.
pub open spec fn rgba_offset(width: u32, y: int, x: int, c: int) -> int {
    4 * (y * width + x) + c
}

/// `f` is the stamp of `index`: packed RGBA, every byte as `stamp_byte` has it.
pub open spec fn is_stamp(f: Frame, index: u32) -> bool {
    &&& f.data@.len() == 4 * f.width * f.height
    &&& forall|y: int, x: int, c: int|
        0 <= y < f.height && 0 <= x < f.width && 0 <= c < 4 ==> #[trigger] f.data@[rgba_offset(f.width, y, x, c)]
            == stamp_byte(index, f.width, f.height, y, x, c)
}

proof fn lemma_earlier_pixel(w: int, yy: int, xx: int, y: int, x: int)
    requires
        0 <= yy,
        0 <= xx,
        0 <= x <= w,
        (yy < y && xx < w) || (yy == y && xx < x),
    ensures
        yy * w + xx < y * w + x,
{
    if yy < y {
        assert(yy * w + w <= y * w) by (nonlinear_arith)
            requires
                yy < y,
                0 <= w,
        ;
    }
}

proof fn lemma_block_bound(v: int, n: int)
    requires
        0 <= v < n,
    ensures
        0 <= v * 4 / n < 4,
{
    assert(0 <= v * 4 / n < 4) by (nonlinear_arith)
        requires
            0 <= v < n,
    ;
}

/// A frame of `resolution` with `index` stamped on it, as packed RGBA.
pub fn stamp(resolution: Resolution, index: u32) -> (r: Frame)
    requires
        index < 0x1_0000,
        resolution.width * resolution.height <= u32::MAX,
        4 * resolution.width * resolution.height <= usize::MAX,
        (resolution.width - 1) * 4 <= u32::MAX,
        (resolution.height - 1) * 4 <= u32::MAX,
    ensures
        r.width == resolution.width,
        r.height == resolution.height,
        is_stamp(r, index),
{
    let width = resolution.width;
    let height = resolution.height;
    let mut data: Vec<u8> = Vec::new();
    let mut y: u32 = 0;
    while y < height
        invariant
            width == resolution.width,
            height == resolution.height,
            (width - 1) * 4 <= u32::MAX,
            (height - 1) * 4 <= u32::MAX,
            y <= height,
            data@.len() == 4 * (y * width),
            forall|yy: int, xx: int, c: int|
                0 <= yy < y && 0 <= xx < width && 0 <= c < 4 ==> #[trigger] data@[rgba_offset(width, yy, xx, c)]
                    == stamp_byte(index, width, height, yy, xx, c),
        decreases height - y,
    {
        proof {
            lemma_block_bound(y as int, height as int);
        }
        let row = y * GRID / height;
        let mut x: u32 = 0;
        while x < width
            invariant
                width == resolution.width,
                height == resolution.height,
                (width - 1) * 4 <= u32::MAX,
                y < height,
                row == block_of(y as int, height as int),
                row < 4,
                x <= width,
                data@.len() == 4 * (y * width + x),
                forall|yy: int, xx: int, c: int|
                    0 <= c < 4 && 0 <= xx && 0 <= yy && ((yy < y && xx < width) || (yy == y && xx < x))
                        ==> #[trigger] data@[rgba_offset(width, yy, xx, c)] == stamp_byte(
                        index,
                        width,
                        height,
                        yy,
                        xx,
                        c,
                    ),
            decreases width - x,
        {
            proof {
                lemma_block_bound(x as int, width as int);
            }
            let col = x * GRID / width;
            let bit = STAMP_BITS - 1 - (row * GRID + col);
            let color: u8 = if (index >> bit) & 1 == 1 {
                255
            } else {
                0
            };
            let ghost before = data@;
            data.push(color);
            data.push(color);
            data.push(color);
            data.push(255);
            proof {
                assert forall|yy: int, xx: int, c: int|
                    0 <= c < 4 && 0 <= xx && 0 <= yy && ((yy < y && xx < width) || (yy == y && xx < x
                        + 1)) implies #[trigger] data@[rgba_offset(width, yy, xx, c)] == stamp_byte(
                    index,
                    width,
                    height,
                    yy,
                    xx,
                    c,
                ) by {
                    if yy == y && xx == x {
                        assert(rgba_offset(width, yy, xx, c) == before.len() + c);
                    } else {
                        lemma_earlier_pixel(width as int, yy, xx, y as int, x as int);
                        assert(rgba_offset(width, yy, xx, c) < before.len());
                        assert(data@[rgba_offset(width, yy, xx, c)] == before[rgba_offset(width, yy, xx, c)]);
                    }
                }
            }
            x = x + 1;
        }
        proof {
            assert(y * width + width == (y + 1) * width) by (nonlinear_arith);
        }
        y = y + 1;
    }
    proof {
        assert(4 * (height * width) == 4 * width * height) by (nonlinear_arith);
    }
    Frame { width, height, data }
}

/// The 16 blocks of a stamp spell out the index: two indices below `2^16`
/// with the same blocks are the same index.
pub proof fn lemma_blocks_determine_index(a: u32, b: u32)
    requires
        a < 0x1_0000,
        b < 0x1_0000,
        forall|row: u32, col: u32| row < 4 && col < 4 ==> block_white(a, row, col) == block_white(b, row, col),
    ensures
        a == b,
{
    assert(block_white(a, 0, 0) == block_white(b, 0, 0));
    assert(block_white(a, 0, 1) == block_white(b, 0, 1));
    assert(block_white(a, 0, 2) == block_white(b, 0, 2));
    assert(block_white(a, 0, 3) == block_white(b, 0, 3));
    assert(block_white(a, 1, 0) == block_white(b, 1, 0));
    assert(block_white(a, 1, 1) == block_white(b, 1, 1));
    assert(block_white(a, 1, 2) == block_white(b, 1, 2));
    assert(block_white(a, 1, 3) == block_white(b, 1, 3));
    assert(block_white(a, 2, 0) == block_white(b, 2, 0));
    assert(block_white(a, 2, 1) == block_white(b, 2, 1));
    assert(block_white(a, 2, 2) == block_white(b, 2, 2));
    assert(block_white(a, 2, 3) == block_white(b, 2, 3));
    assert(block_white(a, 3, 0) == block_white(b, 3, 0));
    assert(block_white(a, 3, 1) == block_white(b, 3, 1));
    assert(block_white(a, 3, 2) == block_white(b, 3, 2));
    assert(block_white(a, 3, 3) == block_white(b, 3, 3));
    assert(a == b) by (bit_vector)
        requires
            a < 0x1_0000,
            b < 0x1_0000,
            ((a >> 15u32) & 1 == 1) == ((b >> 15u32) & 1 == 1),
            ((a >> 14u32) & 1 == 1) == ((b >> 14u32) & 1 == 1),
            ((a >> 13u32) & 1 == 1) == ((b >> 13u32) & 1 == 1),
            ((a >> 12u32) & 1 == 1) == ((b >> 12u32) & 1 == 1),
            ((a >> 11u32) & 1 == 1) == ((b >> 11u32) & 1 == 1),
            ((a >> 10u32) & 1 == 1) == ((b >> 10u32) & 1 == 1),
            ((a >> 9u32) & 1 == 1) == ((b >> 9u32) & 1 == 1),
            ((a >> 8u32) & 1 == 1) == ((b >> 8u32) & 1 == 1),
            ((a >> 7u32) & 1 == 1) == ((b >> 7u32) & 1 == 1),
            ((a >> 6u32) & 1 == 1) == ((b >> 6u32) & 1 == 1),
            ((a >> 5u32) & 1 == 1) == ((b >> 5u32) & 1 == 1),
            ((a >> 4u32) & 1 == 1) == ((b >> 4u32) & 1 == 1),
            ((a >> 3u32) & 1 == 1) == ((b >> 3u32) & 1 == 1),
            ((a >> 2u32) & 1 == 1) == ((b >> 2u32) & 1 == 1),
            ((a >> 1u32) & 1 == 1) == ((b >> 1u32) & 1 == 1),
            ((a >> 0u32) & 1 == 1) == ((b >> 0u32) & 1 == 1),
    ;
}

/// A pixel column (or row) that lies in block `col` of a side `n >= 4` pixels
/// long.
proof fn lemma_block_has_pixel(col: int, n: int)
    requires
        0 <= col < 4,
        n >= 4,
    ensures
        ({
            let x = (col * n + 3) / 4;
            0 <= x < n && x * 4 / n == col
        }),
{
    let x = (col * n + 3) / 4;
    assert(4 * x <= col * n + 3 && col * n <= 4 * x) by (nonlinear_arith)
        requires
            x == (col * n + 3) / 4,
            0 <= col,
            n >= 4,
    ;
    assert(col * n <= 3 * n) by (nonlinear_arith)
        requires
            0 <= col < 4,
            n >= 4,
    ;
    assert(0 <= col * n) by (nonlinear_arith)
        requires
            0 <= col,
            n >= 4,
    ;
    assert(0 <= x < n);
    assert(x * 4 / n == col) by (nonlinear_arith)
        requires
            4 * x <= col * n + 3,
            col * n <= 4 * x,
            n >= 4,
            0 <= col,
    ;
}

/// Stamps are told apart at any size of at least 4x4 pixels: the stamps of
/// two different indices differ in some channel of some pixel.
pub proof fn lemma_stamps_differ(width: u32, height: u32, a: u32, b: u32)
    requires
        a < 0x1_0000,
        b < 0x1_0000,
        a != b,
        width >= 4,
        height >= 4,
    ensures
        exists|y: int, x: int, c: int|
            0 <= y < height && 0 <= x < width && 0 <= c < 4 && stamp_byte(a, width, height, y, x, c) != stamp_byte(
                b,
                width,
                height,
                y,
                x,
                c,
            ),
{
    if forall|row: u32, col: u32| row < 4 && col < 4 ==> block_white(a, row, col) == block_white(b, row, col) {
        lemma_blocks_determine_index(a, b);
    }
    let (row, col) = choose|row: u32, col: u32| row < 4 && col < 4 && block_white(a, row, col) != block_white(b, row, col);
    lemma_block_has_pixel(row as int, height as int);
    lemma_block_has_pixel(col as int, width as int);
    let y = (row * height + 3) / 4;
    let x = (col * width + 3) / 4;
    assert(block_of(y, height as int) == row);
    assert(block_of(x, width as int) == col);
    assert(stamp_byte(a, width, height, y, x, 0) != stamp_byte(b, width, height, y, x, 0));
}


// === Reading a stamp back ==================================================

/// Why a stamp could not be read from a frame.
#[derive(Debug, Clone, Copy, PartialEq, Eq, Structural)]
pub enum StampError {
    /// The sampled centre of block `(row, col)` holds no pixel.
    EmptyBlock { row: u32, col: u32 },
    /// Block `(row, col)` averages neither dark nor bright: in `[64, 192)`.
    Ambiguous { row: u32, col: u32 },
}

/// The first pixel column (or row) sampled for block `c` on a side `n`
/// pixels long: a quarter of the way into the block.
pub open spec fn sample_start(c: int, n: int) -> int {
    (4 * c + 1) * n / 16
}

/// One past the last pixel sampled for block `c`: three quarters of the way
/// into the block, at least one past the start, and never past the side.
pub open spec fn sample_end(c: int, n: int) -> int {
    let s = sample_start(c, n);
    let e = (4 * c + 3) * n / 16;
    let e = if e < s + 1 {
        s + 1
    } else {
        e
    };
    if e > n {
        n
    } else {
        e
    }
}

/// How many pixels of a side block `c` samples.
pub open spec fn sample_span(c: int, n: int) -> int {
    if sample_end(c, n) > sample_start(c, n) {
        sample_end(c, n) - sample_start(c, n)
    } else {
        0
    }
}

/// Bytes per pixel of `f`, as the length of its buffer gives them.
pub open spec fn channels(f: Frame) -> int {
    f.data@.len() as int / (f.width * f.height)
}

/// The first channel of pixel `(x, y)` of `f`.
pub open spec fn luma(f: Frame, x: int, y: int) -> int {
    f.data@[channels(f) * (y * f.width + x)] as int
}

/// Sum of `luma` over the pixels `x0..x1` of row `y`.
pub open spec fn row_sum(f: Frame, y: int, x0: int, x1: int) -> int
    decreases x1 - x0,
{
    if x1 <= x0 {
        0
    } else {
        row_sum(f, y, x0, x1 - 1) + luma(f, x1 - 1, y)
    }
}

/// Sum of `luma` over the pixels `x0..x1` of the rows `y0..y1`.
pub open spec fn area_sum(f: Frame, x0: int, x1: int, y0: int, y1: int) -> int
    decreases y1 - y0,
{
    if y1 <= y0 {
        0
    } else {
        area_sum(f, x0, x1, y0, y1 - 1) + row_sum(f, y1 - 1, x0, x1)
    }
}

/// Pixels sampled for block `(row, col)` of `f`.
pub open spec fn block_count(f: Frame, row: u32, col: u32) -> int {
    sample_span(col as int, f.width as int) * sample_span(row as int, f.height as int)
}

/// Sum of the first channel over the sampled centre of block `(row, col)`.
pub open spec fn block_sum(f: Frame, row: u32, col: u32) -> int {
    area_sum(
        f,
        sample_start(col as int, f.width as int),
        sample_end(col as int, f.width as int),
        sample_start(row as int, f.height as int),
        sample_end(row as int, f.height as int),
    )
}

/// What block `(row, col)` of `f` reads as: bright when the average of its
/// sampled centre is at least 128, dark below; an error when the centre
/// holds no pixel or its average lies in `[64, 192)`.
pub open spec fn block_reading(f: Frame, row: u32, col: u32) -> Result<bool, StampError> {
    let count = block_count(f, row, col);
    let sum = block_sum(f, row, col);
    if count == 0 {
        Err(StampError::EmptyBlock { row, col })
    } else if 64 * count <= sum && sum < 192 * count {
        Err(StampError::Ambiguous { row, col })
    } else {
        Ok(sum >= 128 * count)
    }
}

/// Reading blocks `b..16` in raster order after the bits `acc`, most
/// significant first; the first block that cannot be read decides the error.
pub open spec fn read_blocks(f: Frame, b: nat, acc: nat) -> Result<nat, StampError>
    decreases 16 - b,
{
    if b >= 16 {
        Ok(acc)
    } else {
        match block_reading(f, (b / 4) as u32, (b % 4) as u32) {
            Err(e) => Err(e),
            Ok(bright) => read_blocks(
                f,
                b + 1,
                2 * acc + if bright {
                    1nat
                } else {
                    0nat
                },
            ),
        }
    }
}

/// The index a frame's stamp reads as.
pub open spec fn stamp_reading(f: Frame) -> Result<u32, StampError> {
    match read_blocks(f, 0, 0) {
        Ok(v) => Ok(v as u32),
        Err(e) => Err(e),
    }
}

proof fn lemma_pixel_in_buffer(w: int, h: int, len: int, y: int, x: int)
    requires
        0 <= y < h,
        0 <= x < w,
        w * h <= len,
    ensures
        0 <= y * w + x < w * h,
        0 <= (len / (w * h)) * (y * w + x) < len,
        (len / (w * h)) * (y * w + x) <= len / (w * h) * (w * h),
{
    assert(0 <= y * w + x < w * h) by (nonlinear_arith)
        requires
            0 <= y < h,
            0 <= x < w,
    ;
    let ch = len / (w * h);
    let k = y * w + x;
    assert(ch >= 1 && ch * (w * h) <= len) by (nonlinear_arith)
        requires
            w * h <= len,
            w * h > 0,
            ch == len / (w * h),
    ;
    assert(0 <= ch * k && ch * k + ch <= ch * (w * h)) by (nonlinear_arith)
        requires
            0 <= k < w * h,
            ch >= 1,
    ;
}

/// Read block `(row, col)` of `frame`.
fn read_block(frame: &Frame, row: u32, col: u32) -> (r: Result<bool, StampError>)
    requires
        row < 4,
        col < 4,
        frame.width * frame.height <= frame.data@.len(),
    ensures
        r == block_reading(*frame, row, col),
{
    let w: u64 = frame.width as u64;
    let h: u64 = frame.height as u64;
    assert((4 * col + 3) * w <= 15 * 0xffff_ffff && (4 * row + 3) * h <= 15 * 0xffff_ffff) by (nonlinear_arith)
        requires
            col < 4,
            row < 4,
            w <= 0xffff_ffff,
            h <= 0xffff_ffff,
    ;
    assert((4 * col + 1) * w <= (4 * col + 3) * w && (4 * row + 1) * h <= (4 * row + 3) * h) by (nonlinear_arith)
        requires
            w >= 0,
            h >= 0,
    ;
    let x0: u64 = (4 * col as u64 + 1) * w / 16;
    let mut x1: u64 = (4 * col as u64 + 3) * w / 16;
    if x1 < x0 + 1 {
        x1 = x0 + 1;
    }
    if x1 > w {
        x1 = w;
    }
    let y0: u64 = (4 * row as u64 + 1) * h / 16;
    let mut y1: u64 = (4 * row as u64 + 3) * h / 16;
    if y1 < y0 + 1 {
        y1 = y0 + 1;
    }
    if y1 > h {
        y1 = h;
    }
    assert(x0 == sample_start(col as int, w as int) && x1 == sample_end(col as int, w as int));
    assert(y0 == sample_start(row as int, h as int) && y1 == sample_end(row as int, h as int));
    if x1 <= x0 || y1 <= y0 {
        assert(block_count(*frame, row, col) == 0) by (nonlinear_arith)
            requires
                sample_span(col as int, w as int) == 0 || sample_span(row as int, h as int) == 0,
                block_count(*frame, row, col) == sample_span(col as int, w as int) * sample_span(
                    row as int,
                    h as int,
                ),
        ;
        return Err(StampError::EmptyBlock { row, col });
    }
    assert(w * h <= u64::MAX) by (nonlinear_arith)
        requires
            w <= u32::MAX,
            h <= u32::MAX,
    ;
    let pixels: u64 = w * h;
    assert(pixels > 0) by (nonlinear_arith)
        requires
            pixels == w * h,
            x0 < x1 <= w,
            y0 < y1 <= h,
    ;
    let n: usize = frame.data.len();
    let len: u64 = n as u64;
    let ch: u64 = len / pixels;
    let mut sum: u128 = 0;
    let mut y: u64 = y0;
    while y < y1
        invariant
            w == frame.width,
            h == frame.height,
            pixels == w * h,
            len == frame.data@.len(),
            len <= usize::MAX,
            pixels <= len,
            ch as int == channels(*frame),
            x0 < x1 <= w,
            y0 <= y <= y1,
            y1 <= h,
            sum as int == area_sum(*frame, x0 as int, x1 as int, y0 as int, y as int),
            sum <= 0xff_0000_0000 * (y - y0),
        decreases y1 - y,
    {
        let ghost before: int = sum as int;
        let mut x: u64 = x0;
        while x < x1
            invariant
                w == frame.width,
                h == frame.height,
                pixels == w * h,
                len == frame.data@.len(),
                len <= usize::MAX,
                pixels <= len,
                ch as int == channels(*frame),
                x0 <= x <= x1,
                x1 <= w,
                y0 <= y < y1,
                y1 <= h,
                before == area_sum(*frame, x0 as int, x1 as int, y0 as int, y as int),
                sum as int == before + row_sum(*frame, y as int, x0 as int, x as int),
                sum <= 0xff_0000_0000 * (y - y0) + 0xff * (x - x0),
            decreases x1 - x,
        {
            proof {
                lemma_pixel_in_buffer(w as int, h as int, len as int, y as int, x as int);
            }
            let i: u64 = ch * (y * w + x);
            assert(frame.data@[i as int] as int == luma(*frame, x as int, y as int));
            sum = sum + frame.data[i as usize] as u128;
            x = x + 1;
        }
        y = y + 1;
    }
    assert((x1 - x0) * (y1 - y0) <= w * h) by (nonlinear_arith)
        requires
            x0 < x1 <= w,
            y0 < y1 <= h,
    ;
    let count: u128 = ((x1 - x0) as u128) * ((y1 - y0) as u128);
    assert(count as int == block_count(*frame, row, col));
    assert(count > 0) by (nonlinear_arith)
        requires
            count as int == (x1 - x0) * (y1 - y0),
            x1 > x0,
            y1 > y0,
    ;
    if 64 * count <= sum && sum < 192 * count {
        Err(StampError::Ambiguous { row, col })
    } else {
        Ok(sum >= 128 * count)
    }
}

/// `2^b`.
pub open spec fn two_pow(b: nat) -> nat
    decreases b,
{
    if b == 0 {
        1
    } else {
        2 * two_pow((b - 1) as nat)
    }
}

proof fn lemma_two_pow_mono(a: nat, b: nat)
    requires
        a <= b,
    ensures
        1 <= two_pow(a) <= two_pow(b),
    decreases b,
{
    if b > 0 {
        if a < b {
            lemma_two_pow_mono(a, (b - 1) as nat);
        } else {
            lemma_two_pow_mono((a - 1) as nat, (b - 1) as nat);
        }
    }
}

/// Read back the index stamped on `frame`, at any size and for gray, RGB or
/// RGBA data (the first channel is read): the centre half of each block is
/// averaged and compared with 128, and a block whose average lies in
/// `[64, 192)` is an error rather than a guess. The averages are compared
/// exactly, as `sum` against `threshold * count`.
pub fn recover_index(frame: &Frame) -> (r: Result<u32, StampError>)
    requires
        frame.width * frame.height <= frame.data@.len(),
    ensures
        r == stamp_reading(*frame),
{
    let mut index: u32 = 0;
    let mut b: u32 = 0;
    proof {
        assert(two_pow(15) == 32768) by {
            reveal_with_fuel(two_pow, 16);
        }
    }
    while b < 16
        invariant
            frame.width * frame.height <= frame.data@.len(),
            b <= 16,
            index < two_pow(b as nat),
            two_pow(15) == 32768,
            read_blocks(*frame, 0, 0) == read_blocks(*frame, b as nat, index as nat),
        decreases 16 - b,
    {
        let bright = match read_block(frame, b / 4, b % 4) {
            Ok(bright) => bright,
            Err(e) => return Err(e),
        };
        proof {
            lemma_two_pow_mono(b as nat, 15);
        }
        index = index * 2 + if bright {
            1
        } else {
            0
        };
        b = b + 1;
    }
    Ok(index)
}

/// The sampled centre of block `c` on a side `n` pixels long lies within the
/// pixels the block covers, those `v` with `v * 4 / n == c`.
pub open spec fn centre_inside(c: int, n: int) -> bool {
    c * n <= 4 * sample_start(c, n) && 4 * (sample_end(c, n) - 1) < (c + 1) * n
}

/// A side `n` pixels long on which every block's sampled centre lies inside
/// the block.
pub open spec fn side_readable(n: int) -> bool {
    &&& n > 0
    &&& centre_inside(0, n)
    &&& centre_inside(1, n)
    &&& centre_inside(2, n)
    &&& centre_inside(3, n)
}

proof fn lemma_centre_inside(c: int, n: int)
    requires
        0 <= c < 4,
        n >= 12,
    ensures
        centre_inside(c, n),
{
    let s = sample_start(c, n);
    let e = (4 * c + 3) * n / 16;
    assert(16 * s <= (4 * c + 1) * n && (4 * c + 1) * n < 16 * s + 16) by (nonlinear_arith)
        requires
            s == (4 * c + 1) * n / 16,
            n >= 12,
            0 <= c,
    ;
    assert(c * n <= 4 * s) by (nonlinear_arith)
        requires
            (4 * c + 1) * n < 16 * s + 16,
            n >= 12,
    ;
    assert(16 * e <= (4 * c + 3) * n) by (nonlinear_arith)
        requires
            e == (4 * c + 3) * n / 16,
            n >= 12,
            0 <= c,
    ;
    assert(4 * (e - 1) < (c + 1) * n && 4 * s < (c + 1) * n) by (nonlinear_arith)
        requires
            16 * e <= (4 * c + 3) * n,
            16 * s <= (4 * c + 1) * n,
            n >= 12,
    ;
}

/// Every side of at least 12 pixels is readable.
pub proof fn lemma_side_readable(n: int)
    requires
        n >= 12,
    ensures
        side_readable(n),
{
    lemma_centre_inside(0, n);
    lemma_centre_inside(1, n);
    lemma_centre_inside(2, n);
    lemma_centre_inside(3, n);
}

proof fn lemma_row_const(f: Frame, y: int, x0: int, x1: int, v: int)
    requires
        x0 <= x1,
        forall|x: int| x0 <= x < x1 ==> #[trigger] luma(f, x, y) == v,
    ensures
        row_sum(f, y, x0, x1) == v * (x1 - x0),
    decreases x1 - x0,
{
    if x1 > x0 {
        lemma_row_const(f, y, x0, x1 - 1, v);
        assert(luma(f, x1 - 1, y) == v);
        assert(v * (x1 - 1 - x0) + v == v * (x1 - x0)) by (nonlinear_arith);
    } else {
        assert(v * (x1 - x0) == 0) by (nonlinear_arith)
            requires
                x1 == x0,
        ;
    }
}

proof fn lemma_area_const(f: Frame, x0: int, x1: int, y0: int, y1: int, v: int)
    requires
        x0 <= x1,
        y0 <= y1,
        forall|x: int, y: int| x0 <= x < x1 && y0 <= y < y1 ==> #[trigger] luma(f, x, y) == v,
    ensures
        area_sum(f, x0, x1, y0, y1) == v * (x1 - x0) * (y1 - y0),
    decreases y1 - y0,
{
    if y1 > y0 {
        lemma_area_const(f, x0, x1, y0, y1 - 1, v);
        assert forall|x: int| x0 <= x < x1 implies #[trigger] luma(f, x, y1 - 1) == v by {}
        lemma_row_const(f, y1 - 1, x0, x1, v);
        assert(v * (x1 - x0) * (y1 - 1 - y0) + v * (x1 - x0) == v * (x1 - x0) * (y1 - y0)) by (nonlinear_arith);
    } else {
        assert(v * (x1 - x0) * (y1 - y0) == 0) by (nonlinear_arith)
            requires
                y1 == y0,
        ;
    }
}

proof fn lemma_centre_span(c: int, n: int)
    requires
        0 <= c < 4,
        n > 0,
    ensures
        0 <= sample_start(c, n) < sample_end(c, n) <= n,
{
    let s = sample_start(c, n);
    assert(0 <= s && 16 * s <= (4 * c + 1) * n) by (nonlinear_arith)
        requires
            s == (4 * c + 1) * n / 16,
            n > 0,
            0 <= c,
    ;
    assert((4 * c + 1) * n < 16 * n) by (nonlinear_arith)
        requires
            c < 4,
            n > 0,
    ;
}

proof fn lemma_in_block(c: int, n: int, v: int)
    requires
        0 <= c < 4,
        side_readable(n),
        sample_start(c, n) <= v < sample_end(c, n),
    ensures
        block_of(v, n) == c as u32,
{
    assert(centre_inside(c, n));
    assert(c * n <= 4 * v < (c + 1) * n);
    assert(v * 4 / n == c) by (nonlinear_arith)
        requires
            c * n <= 4 * v < (c + 1) * n,
            n > 0,
    ;
}

/// Every block of a readable stamp reads as the bit it was stamped with.
proof fn lemma_block_reads(f: Frame, index: u32, row: u32, col: u32)
    requires
        is_stamp(f, index),
        side_readable(f.width as int),
        side_readable(f.height as int),
        row < 4,
        col < 4,
    ensures
        block_reading(f, row, col) == Ok::<bool, StampError>(block_white(index, row, col)),
{
    let w = f.width as int;
    let h = f.height as int;
    let x0 = sample_start(col as int, w);
    let x1 = sample_end(col as int, w);
    let y0 = sample_start(row as int, h);
    let y1 = sample_end(row as int, h);
    lemma_centre_span(col as int, w);
    lemma_centre_span(row as int, h);
    assert(channels(f) == 4) by (nonlinear_arith)
        requires
            channels(f) == f.data@.len() as int / (w * h),
            f.data@.len() == 4 * w * h,
            w > 0,
            h > 0,
    ;
    let v: int = if block_white(index, row, col) {
        255
    } else {
        0
    };
    assert forall|x: int, y: int| x0 <= x < x1 && y0 <= y < y1 implies #[trigger] luma(f, x, y) == v by {
        lemma_in_block(col as int, w, x);
        lemma_in_block(row as int, h, y);
        assert(rgba_offset(f.width, y, x, 0) == channels(f) * (y * f.width + x));
        assert(f.data@[rgba_offset(f.width, y, x, 0)] == stamp_byte(index, f.width, f.height, y, x, 0));
    }
    lemma_area_const(f, x0, x1, y0, y1, v);
    let count = block_count(f, row, col);
    assert(count == (x1 - x0) * (y1 - y0));
    assert(count > 0) by (nonlinear_arith)
        requires
            count == (x1 - x0) * (y1 - y0),
            x0 < x1,
            y0 < y1,
    ;
    assert(block_sum(f, row, col) == v * count) by (nonlinear_arith)
        requires
            block_sum(f, row, col) == v * (x1 - x0) * (y1 - y0),
            count == (x1 - x0) * (y1 - y0),
    ;
    assert(v == 255 ==> 255 * count >= 192 * count && 255 * count >= 128 * count) by (nonlinear_arith)
        requires
            count > 0,
    ;
    assert(v == 0 ==> 0 < 64 * count && 0 < 128 * count) by (nonlinear_arith)
        requires
            count > 0,
    ;
}

proof fn lemma_next_bits(i: u32, s: u32)
    requires
        s < 16,
    ensures
        (i >> (s + 1) as u32) * 2 + ((i >> s) & 1) == i >> s,
        (i >> s) & 1 == 0 || (i >> s) & 1 == 1,
{
    assert((i >> (s + 1) as u32) * 2 + ((i >> s) & 1) == i >> s) by (bit_vector)
        requires
            s < 16,
    ;
    assert((i >> s) & 1 == 0 || (i >> s) & 1 == 1) by (bit_vector);
}

proof fn lemma_read_rest(f: Frame, index: u32, b: nat)
    requires
        b <= 16,
        forall|row: u32, col: u32|
            row < 4 && col < 4 ==> #[trigger] block_reading(f, row, col) == Ok::<bool, StampError>(
                block_white(index, row, col),
            ),
    ensures
        read_blocks(f, b, (index >> (16 - b) as u32) as nat) == Ok::<nat, StampError>(index as nat),
    decreases 16 - b,
{
    if b < 16 {
        let s = (15 - b) as u32;
        let row = (b / 4) as u32;
        let col = (b % 4) as u32;
        assert(block_reading(f, row, col) == Ok::<bool, StampError>(block_white(index, row, col)));
        assert(15 - (row * 4 + col) == s);
        lemma_next_bits(index, s);
        assert((s + 1) as u32 == (16 - b) as u32);
        lemma_read_rest(f, index, b + 1);
        assert((16 - (b + 1)) as u32 == s);
    } else {
        assert(index >> 0u32 == index) by (bit_vector);
    }
}

/// A stamp reads back as its index wherever every block's sampled centre
/// lies inside the block: on any frame at least 12 pixels on each side
/// (`lemma_side_readable`).
pub proof fn lemma_stamp_round_trip(f: Frame, index: u32)
    requires
        index < 0x1_0000,
        is_stamp(f, index),
        side_readable(f.width as int),
        side_readable(f.height as int),
    ensures
        stamp_reading(f) == Ok::<u32, StampError>(index),
{
    assert forall|row: u32, col: u32| row < 4 && col < 4 implies #[trigger] block_reading(f, row, col)
        == Ok::<bool, StampError>(block_white(index, row, col)) by {
        lemma_block_reads(f, index, row, col);
    }
    lemma_read_rest(f, index, 0);
    assert(index >> 16u32 == 0) by (bit_vector)
        requires
            index < 0x1_0000,
    ;
}

} // verus!
