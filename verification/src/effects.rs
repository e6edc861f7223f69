//! Effects applied to a captured screen image: a buffer of 32-bit pixels
//! (blue, green, red, alpha in memory) whose rows lie `stride` bytes apart.

use crate::pixels::{
    lemma_packed_rows_len, lemma_packed_rows_of_written, lemma_written_rows_twice, offset, pack_rows, packed_rows, push_range,
    write_rows, written_rows,
};
use vstd::arithmetic::div_mod::{
    lemma_fundamental_div_mod,
    lemma_fundamental_div_mod_converse,
    lemma_mod_add_multiples_vanish,
};
use vstd::prelude::*;

verus! {

pub open spec fn min_int(a: int, b: int) -> int {
    if a <= b {
        a
    } else {
        b
    }
}

/// The sum of `n` bytes of one channel starting at byte `start`, taken from
/// `n` neighbouring pixels (4 bytes apart).
pub open spec fn row_sum(data: Seq<u8>, start: int, n: nat) -> int
    decreases n,
{
    if n == 0 {
        0
    } else {
        row_sum(data, start, (n - 1) as nat) + data[start + 4 * (n - 1)]
    }
}

/// The sum of one channel over `rows` × `cols` pixels whose top-left byte
/// for that channel is `start`.
pub open spec fn block_sum(data: Seq<u8>, stride: int, start: int, rows: nat, cols: nat) -> int
    decreases rows,
{
    if rows == 0 {
        0
    } else {
        block_sum(data, stride, start, (rows - 1) as nat, cols) + row_sum(
            data,
            start + stride * (rows - 1),
            cols,
        )
    }
}

/// The row (or column) of the pixel that byte `i` belongs to, and its channel.
pub open spec fn row_of(i: int, stride: int) -> int {
    i / stride
}

pub open spec fn column_of(i: int, stride: int) -> int {
    (i % stride) / 4
}

pub open spec fn channel_of(i: int, stride: int) -> int {
    (i % stride) % 4
}

/// Byte `i` after the image is cut into squares of side `size` (clipped at
/// the right and bottom edges) and each colour channel of each square is
/// replaced by its average, rounded down. Alpha and padding are kept.
pub open spec fn pixelated_byte(
    data: Seq<u8>,
    width: int,
    height: int,
    stride: int,
    size: int,
    i: int,
) -> u8 {
    let y = row_of(i, stride);
    let x = column_of(i, stride);
    let ch = channel_of(i, stride);
    if y < height && x < width && ch < 3 {
        let by = y / size * size;
        let bx = x / size * size;
        let rows = min_int(size, height - by);
        let cols = min_int(size, width - bx);
        (block_sum(data, stride, by * stride + bx * 4 + ch, rows as nat, cols as nat) / (rows
            * cols)) as u8
    } else {
        data[i]
    }
}

/// The image after pixelation with squares of side `size`; a side of 0 or 1
/// leaves it as it is.
pub open spec fn pixelated(data: Seq<u8>, width: int, height: int, stride: int, size: int) -> Seq<
    u8,
> {
    if size <= 1 {
        data
    } else {
        Seq::new(data.len(), |i: int| pixelated_byte(data, width, height, stride, size, i))
    }
}

/// Byte `y * stride + 4 * x + ch` lies in row `y`, column `x`, channel `ch`.
proof fn lemma_coords(y: int, x: int, ch: int, stride: int)
    requires
        0 <= y,
        0 <= x,
        0 <= ch < 4,
        4 * x + ch < stride,
    ensures
        row_of(y * stride + 4 * x + ch, stride) == y,
        column_of(y * stride + 4 * x + ch, stride) == x,
        channel_of(y * stride + 4 * x + ch, stride) == ch,
{
    let i = y * stride + 4 * x + ch;
    lemma_fundamental_div_mod_converse(i, stride, y, 4 * x + ch);
    lemma_fundamental_div_mod_converse(4 * x + ch, 4, x, ch);
}

/// Every byte of the buffer has a row below `height` and a non-negative
/// column and channel.
proof fn lemma_in_buffer(i: int, stride: int, height: int)
    requires
        0 <= i < stride * height,
        0 < stride,
    ensures
        0 <= row_of(i, stride) < height,
        0 <= column_of(i, stride),
        4 * column_of(i, stride) + channel_of(i, stride) == i % stride,
        0 <= channel_of(i, stride) < 4,
        i == row_of(i, stride) * stride + i % stride,
{
    lemma_fundamental_div_mod(i, stride);
    lemma_fundamental_div_mod(i % stride, 4);
    assert(stride * (i / stride) == (i / stride) * stride) by (nonlinear_arith);
    if i / stride >= height {
        assert((i / stride) * stride >= height * stride) by (nonlinear_arith)
            requires
                i / stride >= height,
                stride > 0,
        ;
        assert(height * stride == stride * height) by (nonlinear_arith);
    }
}

/// A coordinate inside the square that starts at the multiple `start` of
/// `size` belongs to that square.
proof fn lemma_square_start(v: int, start: int, size: int)
    requires
        0 < size,
        0 <= start,
        start % size == 0,
        start <= v < start + size,
    ensures
        v / size * size == start,
{
    lemma_fundamental_div_mod(start, size);
    let k = start / size;
    assert(start == k * size) by (nonlinear_arith)
        requires
            start == size * k + 0,
    ;
    assert(v == k * size + (v - start));
    lemma_fundamental_div_mod_converse(v, size, k, v - start);
}

proof fn lemma_row_sum_bound(data: Seq<u8>, start: int, n: nat)
    ensures
        0 <= row_sum(data, start, n) <= 255 * n,
    decreases n,
{
    if n > 0 {
        lemma_row_sum_bound(data, start, (n - 1) as nat);
    }
}

proof fn lemma_block_sum_bound(data: Seq<u8>, stride: int, start: int, rows: nat, cols: nat)
    ensures
        0 <= block_sum(data, stride, start, rows, cols) <= 255 * (rows * cols),
    decreases rows,
{
    if rows > 0 {
        lemma_block_sum_bound(data, stride, start, (rows - 1) as nat, cols);
        lemma_row_sum_bound(data, start + stride * (rows - 1), cols);
        assert((rows - 1) * cols + cols == rows * cols) by (nonlinear_arith);
    }
}

/// Byte `k` of a channel's run of pixels starting at `start`.
pub open spec fn cell(data: Seq<u8>, start: int, k: int) -> u8 {
    data[start + 4 * k]
}

proof fn lemma_row_sum_const(data: Seq<u8>, start: int, n: nat, v: int)
    requires
        forall|k: int| 0 <= k < n ==> #[trigger] cell(data, start, k) == v,
    ensures
        row_sum(data, start, n) == n * v,
    decreases n,
{
    if n > 0 {
        lemma_row_sum_const(data, start, (n - 1) as nat, v);
        assert(cell(data, start, n - 1) == v);
        assert((n - 1) * v + v == n * v) by (nonlinear_arith);
    } else {
        assert(n * v == 0) by (nonlinear_arith)
            requires
                n == 0,
        ;
    }
}

proof fn lemma_block_sum_const(
    data: Seq<u8>,
    stride: int,
    start: int,
    rows: nat,
    cols: nat,
    v: int,
)
    requires
        forall|r: int, k: int|
            0 <= r < rows && 0 <= k < cols ==> #[trigger] cell(data, start + stride * r, k) == v,
    ensures
        block_sum(data, stride, start, rows, cols) == rows * cols * v,
    decreases rows,
{
    if rows > 0 {
        lemma_block_sum_const(data, stride, start, (rows - 1) as nat, cols, v);
        assert forall|k: int| 0 <= k < cols implies #[trigger] cell(
            data,
            start + stride * (rows - 1),
            k,
        ) == v by {}
        lemma_row_sum_const(data, start + stride * (rows - 1), cols, v);
        assert((rows - 1) * cols * v + cols * v == rows * cols * v) by (nonlinear_arith);
    } else {
        assert(rows * cols * v == 0) by (nonlinear_arith)
            requires
                rows == 0,
        ;
    }
}

/// Where the square of a pixel starts along one axis, and that it lies in
/// its square.
proof fn lemma_square_of(v: int, size: int)
    requires
        0 <= v,
        0 < size,
    ensures
        v / size * size <= v < v / size * size + size,
        0 <= v / size * size,
        (v / size * size) % size == 0,
{
    lemma_fundamental_div_mod(v, size);
    assert(size * (v / size) == v / size * size) by (nonlinear_arith);
    assert(0 <= v / size) by (nonlinear_arith)
        requires
            0 <= v,
            0 < size,
    ;
    assert(0 <= v / size * size) by (nonlinear_arith)
        requires
            0 <= v / size,
            0 < size,
    ;
    lemma_fundamental_div_mod_converse(v / size * size, size, v / size, 0);
}

/// A colour byte reads the same after a second pixelation: its square
/// already holds one colour.
proof fn lemma_pixelated_byte_stable(
    data: Seq<u8>,
    width: int,
    height: int,
    stride: int,
    size: int,
    i: int,
)
    requires
        size > 1,
        0 <= width,
        4 * width <= stride,
        data.len() == stride * height,
        0 <= i < data.len(),
    ensures
        pixelated_byte(pixelated(data, width, height, stride, size), width, height, stride, size, i)
            == pixelated_byte(data, width, height, stride, size, i),
{
    let once = pixelated(data, width, height, stride, size);
    assert(stride > 0) by (nonlinear_arith)
        requires
            0 <= stride,
            0 <= i < stride * height,
    ;
    lemma_in_buffer(i, stride, height);
    let y = row_of(i, stride);
    let x = column_of(i, stride);
    let ch = channel_of(i, stride);
    if y < height && x < width && ch < 3 {
        lemma_square_of(y, size);
        lemma_square_of(x, size);
        let by = y / size * size;
        let bx = x / size * size;
        let rows = min_int(size, height - by);
        let cols = min_int(size, width - bx);
        let s0 = by * stride + bx * 4 + ch;
        let a = pixelated_byte(data, width, height, stride, size, i);
        assert forall|r: int, k: int| 0 <= r < rows && 0 <= k < cols implies #[trigger] cell(
            once,
            s0 + stride * r,
            k,
        ) == a by {
            let j = (by + r) * stride + 4 * (bx + k) + ch;
            assert(s0 + stride * r + 4 * k == j) by (nonlinear_arith)
                requires
                    s0 == by * stride + bx * 4 + ch,
                    j == (by + r) * stride + 4 * (bx + k) + ch,
            ;
            assert(j < stride * height) by (nonlinear_arith)
                requires
                    j == (by + r) * stride + 4 * (bx + k) + ch,
                    by + r < height,
                    4 * (bx + k) + ch < stride,
                    0 <= by + r,
                    0 <= stride,
            ;
            assert(0 <= j) by (nonlinear_arith)
                requires
                    j == (by + r) * stride + 4 * (bx + k) + ch,
                    0 <= by + r,
                    0 <= bx + k,
                    0 <= ch,
                    0 <= stride,
            ;
            lemma_coords(by + r, bx + k, ch, stride);
            lemma_square_start(by + r, by, size);
            lemma_square_start(bx + k, bx, size);
        }
        lemma_block_sum_const(once, stride, s0, rows as nat, cols as nat, a as int);
        assert(rows * cols > 0) by (nonlinear_arith)
            requires
                rows > 0,
                cols > 0,
        ;
        assert((rows * cols * a) / (rows * cols) == a) by (nonlinear_arith)
            requires
                rows * cols > 0,
        ;
    }
}

/// Pixelating a pixelated image changes nothing.
pub proof fn lemma_pixelate_twice(data: Seq<u8>, width: int, height: int, stride: int, size: int)
    requires
        0 <= width,
        4 * width <= stride,
        data.len() == stride * height,
    ensures
        pixelated(pixelated(data, width, height, stride, size), width, height, stride, size)
            == pixelated(data, width, height, stride, size),
{
    if size > 1 {
        let once = pixelated(data, width, height, stride, size);
        let twice = pixelated(once, width, height, stride, size);
        assert forall|i: int| 0 <= i < once.len() implies #[trigger] twice[i] == once[i] by {
            lemma_pixelated_byte_stable(data, width, height, stride, size, i);
        }
        assert(twice =~= once);
    }
}

/// The sums of the three colour channels over the `rows` × `cols` pixels
/// whose top-left pixel is in row `top`, column `left`.
fn channel_sums(
    data: &Vec<u8>,
    stride: usize,
    height: usize,
    width: usize,
    top: usize,
    left: usize,
    rows: usize,
    cols: usize,
) -> (sums: (u128, u128, u128))
    requires
        4 * width <= stride,
        data@.len() == stride * height,
        top + rows <= height,
        left + cols <= width,
    ensures
        sums.0 == block_sum(data@, stride as int, top * stride + left * 4, rows as nat, cols as nat),
        sums.1 == block_sum(
            data@,
            stride as int,
            top * stride + left * 4 + 1,
            rows as nat,
            cols as nat,
        ),
        sums.2 == block_sum(
            data@,
            stride as int,
            top * stride + left * 4 + 2,
            rows as nat,
            cols as nat,
        ),
{
    let ghost d = data@;
    let ghost s0 = top * stride + left * 4;
    let len = data.len();
    let ghost total = rows * cols;
    proof {
        assert(rows * cols <= usize::MAX) by (nonlinear_arith)
            requires
                rows <= height,
                cols <= width,
                4 * width <= stride,
                stride * height == len,
                len <= usize::MAX,
        ;
    }
    let mut r: u128 = 0;
    let mut g: u128 = 0;
    let mut b: u128 = 0;
    let mut py: usize = 0;
    while py < rows
        invariant
            4 * width <= stride,
            d == data@,
            d.len() == stride * height,
            len == d.len(),
            top + rows <= height,
            left + cols <= width,
            total == rows * cols,
            total <= usize::MAX,
            s0 == top * stride + left * 4,
            0 <= py <= rows,
            r == block_sum(d, stride as int, s0, py as nat, cols as nat),
            g == block_sum(d, stride as int, s0 + 1, py as nat, cols as nat),
            b == block_sum(d, stride as int, s0 + 2, py as nat, cols as nat),
        decreases rows - py,
    {
        let ghost row_start = s0 + stride * py;
        let ghost r0 = r;
        let ghost g0 = g;
        let ghost b0 = b;
        let ghost base = py * cols;
        proof {
            lemma_block_sum_bound(d, stride as int, s0, py as nat, cols as nat);
            lemma_block_sum_bound(d, stride as int, s0 + 1, py as nat, cols as nat);
            lemma_block_sum_bound(d, stride as int, s0 + 2, py as nat, cols as nat);
            assert(base + cols <= total) by (nonlinear_arith)
                requires
                    py < rows,
                    base == py * cols,
                    total == rows * cols,
            ;
        }
        let mut px: usize = 0;
        while px < cols
            invariant
                4 * width <= stride,
                d == data@,
                d.len() == stride * height,
                len == d.len(),
                top + rows <= height,
                left + cols <= width,
                total <= usize::MAX,
                s0 == top * stride + left * 4,
                py < rows,
                row_start == s0 + stride * py,
                0 <= px <= cols,
                base + cols <= total,
                r0 + row_sum(d, row_start, px as nat) <= 255 * (base + px),
                g0 + row_sum(d, row_start + 1, px as nat) <= 255 * (base + px),
                b0 + row_sum(d, row_start + 2, px as nat) <= 255 * (base + px),
                r == r0 + row_sum(d, row_start, px as nat),
                g == g0 + row_sum(d, row_start + 1, px as nat),
                b == b0 + row_sum(d, row_start + 2, px as nat),
            decreases cols - px,
        {
            let y = top + py;
            let x = left + px;
            proof {
                assert(y * stride + 4 * x + 2 < stride * height) by (nonlinear_arith)
                    requires
                        y < height,
                        x < width,
                        4 * width <= stride,
                ;
                assert(y * stride + 4 * x == row_start + 4 * px) by (nonlinear_arith)
                    requires
                        y == top + py,
                        x == left + px,
                        row_start == s0 + stride * py,
                        s0 == top * stride + left * 4,
                ;
            }
            let at = y * stride + 4 * x;
            r = r + data[at] as u128;
            g = g + data[at + 1] as u128;
            b = b + data[at + 2] as u128;
            px = px + 1;
        }
        proof {
            assert(row_start == s0 + stride * ((py + 1) - 1));
        }
        py = py + 1;
    }
    (r, g, b)
}

/// The colour value that a filled block gives channel `ch`.
pub open spec fn pick(c: (u8, u8, u8), ch: int) -> u8 {
    if ch == 0 {
        c.0
    } else if ch == 1 {
        c.1
    } else {
        c.2
    }
}

/// Whether byte `i` is a colour byte of a pixel in the block with top-left
/// pixel (`top`, `left`).
pub open spec fn in_block(i: int, stride: int, top: int, left: int, rows: int, cols: int) -> bool {
    &&& top <= row_of(i, stride) < top + rows
    &&& left <= column_of(i, stride) < left + cols
    &&& channel_of(i, stride) < 3
}

/// Set the colour channels of every pixel of a block to `c`.
fn fill_block(
    out: &mut Vec<u8>,
    stride: usize,
    height: usize,
    width: usize,
    top: usize,
    left: usize,
    rows: usize,
    cols: usize,
    c: (u8, u8, u8),
)
    requires
        4 * width <= stride,
        old(out)@.len() == stride * height,
        top + rows <= height,
        left + cols <= width,
    ensures
        final(out)@.len() == old(out)@.len(),
        forall|i: int|
            0 <= i < old(out)@.len() ==> final(out)@[i] == if in_block(
                i,
                stride as int,
                top as int,
                left as int,
                rows as int,
                cols as int,
            ) {
                pick(c, channel_of(i, stride as int))
            } else {
                old(out)@[i]
            },
{
    let ghost o = out@;
    let ghost st = stride as int;
    let len = out.len();
    let mut py: usize = 0;
    while py < rows
        invariant
            4 * width <= stride,
            st == stride as int,
            o.len() == stride * height,
            len == o.len(),
            out@.len() == o.len(),
            top + rows <= height,
            left + cols <= width,
            0 <= py <= rows,
            forall|i: int|
                0 <= i < o.len() ==> out@[i] == if in_block(
                    i,
                    st,
                    top as int,
                    left as int,
                    py as int,
                    cols as int,
                ) {
                    pick(c, channel_of(i, st))
                } else {
                    o[i]
                },
        decreases rows - py,
    {
        let mut px: usize = 0;
        while px < cols
            invariant
                4 * width <= stride,
                st == stride as int,
                o.len() == stride * height,
                len == o.len(),
                out@.len() == o.len(),
                top + rows <= height,
                left + cols <= width,
                py < rows,
                0 <= px <= cols,
                forall|i: int|
                    0 <= i < o.len() ==> out@[i] == if in_block(
                        i,
                        st,
                        top as int,
                        left as int,
                        py as int,
                        cols as int,
                    ) || in_block(i, st, top + py, left as int, 1, px as int) {
                        pick(c, channel_of(i, st))
                    } else {
                        o[i]
                    },
            decreases cols - px,
        {
            let y = top + py;
            let x = left + px;
            proof {
                assert(y * stride + 4 * x + 3 < stride * height) by (nonlinear_arith)
                    requires
                        y < height,
                        x < width,
                        4 * width <= stride,
                ;
                lemma_coords(y as int, x as int, 0, st);
                lemma_coords(y as int, x as int, 1, st);
                lemma_coords(y as int, x as int, 2, st);
            }
            let at = y * stride + 4 * x;
            let ghost before = out@;
            out.set(at, c.0);
            out.set(at + 1, c.1);
            out.set(at + 2, c.2);
            proof {
                assert forall|i: int| 0 <= i < o.len() implies out@[i] == if in_block(
                    i,
                    st,
                    top as int,
                    left as int,
                    py as int,
                    cols as int,
                ) || in_block(i, st, top + py, left as int, 1, px + 1) {
                    pick(c, channel_of(i, st))
                } else {
                    o[i]
                } by {
                    if i == at || i == at + 1 || i == at + 2 {
                    } else {
                        lemma_in_buffer(i, st, height as int);
                        if in_block(i, st, top + py, left as int, 1, px + 1) && !in_block(
                            i,
                            st,
                            top + py,
                            left as int,
                            1,
                            px as int,
                        ) {
                            assert(row_of(i, st) == y);
                            assert(column_of(i, st) == x);
                            assert(i == y * st + 4 * x + channel_of(i, st));
                        }
                    }
                }
            }
            px = px + 1;
        }
        proof {
            assert forall|i: int| 0 <= i < o.len() implies out@[i] == if in_block(
                i,
                st,
                top as int,
                left as int,
                py + 1,
                cols as int,
            ) {
                pick(c, channel_of(i, st))
            } else {
                o[i]
            } by {
                lemma_in_buffer(i, st, height as int);
            }
        }
        py = py + 1;
    }
}

/// What `fastblur::gaussian_blur` makes of an RGB image of `width` ×
/// `height` pixels (3 bytes each, row after row) for a blur radius.
pub uninterp spec fn gaussian_blurred(rgb: Seq<u8>, width: usize, height: usize, radius: u32) -> Seq<u8>;

/// The images and radii on which `fastblur::gaussian_blur` runs to the
/// end. It sizes three boxes from the radius in `f32` and `i32`; below a
/// radius of 2^20 each box reaches between `radius - 1` and `radius + 1`
/// pixels to either side. It reads the first and last pixel of every row
/// and column, which fails when exactly one of the two sizes is 0. Its
/// horizontal pass subtracts the height from a box radius wider than a row,
/// which underflows when that box radius is below the height. It reaches a
/// box radius of rows beyond a pixel, which must stay within `usize`. These
/// conditions leave out every image on which one of those can happen for
/// some box radius in that range.
pub open spec fn blur_fits(width: nat, height: nat, radius: u32) -> bool {
    &&& (width == 0) == (height == 0)
    &&& radius < 0x10_0000
    &&& (radius + 1 <= width || radius > height || height <= width + 1)
    &&& (radius + 2 + height) * width <= usize::MAX
}

/// Blur an RGB image with `fastblur::gaussian_blur`, which works on one
/// `[u8; 3]` per pixel and takes the radius as `f32`. The result is that
/// function's, and it has as many bytes as the image. `blur_fits` says on
/// which images the call runs to the end.
#[verifier::external_body]
fn gaussian_blur(rgb: &mut Vec<u8>, width: usize, height: usize, radius: u32)
    requires
        old(rgb)@.len() == 3 * width * height,
        blur_fits(width as nat, height as nat, radius),
    ensures
        final(rgb)@ == gaussian_blurred(old(rgb)@, width, height, radius),
        final(rgb)@.len() == old(rgb)@.len(),
{
    let mut pixels: Vec<[u8; 3]> = rgb.chunks_exact(3).map(|p| [p[0], p[1], p[2]]).collect();
    fastblur::gaussian_blur(&mut pixels, width, height, radius as _);
    *rgb = pixels.concat();
}

/// `n` passes of the blur.
pub open spec fn blur_passes(rgb: Seq<u8>, width: usize, height: usize, radius: u32, n: nat) -> Seq<
    u8,
>
    decreases n,
{
    if n == 0 {
        rgb
    } else {
        gaussian_blurred(blur_passes(rgb, width, height, radius, (n - 1) as nat), width, height, radius)
    }
}

/// The first three bytes of each of the `n` 4-byte pixels of `px`.
pub open spec fn rgb_of(px: Seq<u8>, n: nat) -> Seq<u8> {
    Seq::new(3 * n, |i: int| px[(i / 3) * 4 + i % 3])
}

/// The 4-byte pixels of `px` with their first three bytes taken from `rgb`.
pub open spec fn with_rgb(px: Seq<u8>, rgb: Seq<u8>) -> Seq<u8> {
    Seq::new(px.len(), |i: int| if i % 4 == 3 { px[i] } else { rgb[(i / 4) * 3 + i % 4] })
}

/// The image after `times` passes of a Gaussian blur of `radius` over its
/// colour channels; alpha and the padding after each row are kept. A radius
/// or count of 0 leaves it as it is.
pub open spec fn blurred(
    data: Seq<u8>,
    width: nat,
    height: nat,
    stride: nat,
    radius: u32,
    times: u32,
) -> Seq<u8> {
    if radius == 0 || times == 0 {
        data
    } else {
        let tight = packed_rows(data, 4 * width, stride as int, height);
        let rgb = blur_passes(
            rgb_of(tight, width * height),
            width as usize,
            height as usize,
            radius,
            times as nat,
        );
        written_rows(data, with_rgb(tight, rgb), 4 * width, stride as int, height)
    }
}

/// Taking the colour bytes of pixels whose colour bytes were just replaced
/// gives the replacement back.
proof fn lemma_rgb_of_with_rgb(px: Seq<u8>, rgb: Seq<u8>, n: nat)
    requires
        px.len() == 4 * n,
        rgb.len() == 3 * n,
    ensures
        rgb_of(with_rgb(px, rgb), n) == rgb,
{
    let merged = with_rgb(px, rgb);
    let back = rgb_of(merged, n);
    assert forall|i: int| 0 <= i < 3 * n implies #[trigger] back[i] == rgb[i] by {
        lemma_fundamental_div_mod(i, 3);
        let p = i / 3;
        let c = i % 3;
        let m = p * 4 + c;
        assert(0 <= p < n) by (nonlinear_arith)
            requires
                i == 3 * p + c,
                0 <= c < 3,
                0 <= i < 3 * n,
        ;
        assert(0 <= m < 4 * n) by (nonlinear_arith)
            requires
                m == p * 4 + c,
                0 <= c < 3,
                0 <= p < n,
        ;
        lemma_fundamental_div_mod_converse(m, 4, p, c);
        assert(merged[m] == rgb[p * 3 + c]);
        assert(p * 3 + c == i);
    }
    assert(back =~= rgb);
}

/// Replacing the colour bytes twice leaves only the second replacement.
proof fn lemma_with_rgb_twice(px: Seq<u8>, first: Seq<u8>, second: Seq<u8>)
    ensures
        with_rgb(with_rgb(px, first), second) == with_rgb(px, second),
{
    assert(with_rgb(with_rgb(px, first), second) =~= with_rgb(px, second));
}

/// The first `times` passes of the blur keep the size of the image's
/// colour bytes. Every pass the library runs does (`gaussian_blur` states
/// it); the name for fastblur's result says nothing of lengths by itself.
pub open spec fn passes_keep_size(
    data: Seq<u8>,
    width: nat,
    height: nat,
    stride: nat,
    radius: u32,
    times: u32,
) -> bool {
    let tight = packed_rows(data, 4 * width, stride as int, height);
    blur_passes(rgb_of(tight, width * height), width as usize, height as usize, radius, times as nat).len()
        == 3 * width * height
}

proof fn lemma_rgb_of_len(px: Seq<u8>, n: nat)
    ensures
        rgb_of(px, n).len() == 3 * n,
{
}

/// Each further pass is one more blur of what the passes before it made:
/// blurring `times + 1` times is blurring `times` times and then once more.
/// Alpha and row padding stay as they were throughout.
pub proof fn lemma_blur_one_more_pass(
    data: Seq<u8>,
    width: nat,
    height: nat,
    stride: nat,
    radius: u32,
    times: u32,
)
    requires
        4 * width <= stride,
        data.len() == stride * height,
        times < u32::MAX,
        passes_keep_size(data, width, height, stride, radius, times),
    ensures
        blurred(data, width, height, stride, radius, (times + 1) as u32) == blurred(
            blurred(data, width, height, stride, radius, times),
            width,
            height,
            stride,
            radius,
            1,
        ),
{
    if radius != 0 && times != 0 {
        let row_len: nat = 4 * width;
        let n: nat = width * height;
        let tight = packed_rows(data, row_len, stride as int, height);
        lemma_packed_rows_len(data, row_len, stride as int, height);
        lemma_rgb_of_len(tight, n);
        assert(height * row_len == 4 * n) by (nonlinear_arith)
            requires
                row_len == 4 * width,
                n == width * height,
        ;
        let rgb0 = rgb_of(tight, n);
        let rgb_t = blur_passes(rgb0, width as usize, height as usize, radius, times as nat);
        let once = with_rgb(tight, rgb_t);
        let d1 = written_rows(data, once, row_len, stride as int, height);
        assert(blurred(data, width, height, stride, radius, times) == d1);
        lemma_packed_rows_of_written(data, once, row_len, stride as int, height);
        assert(3 * width * height == 3 * n) by (nonlinear_arith)
            requires
                n == width * height,
        ;
        lemma_rgb_of_with_rgb(tight, rgb_t, n);
        let rgb_next = blur_passes(rgb_t, width as usize, height as usize, radius, 1);
        reveal_with_fuel(blur_passes, 2);
        assert(rgb_next == blur_passes(
            rgb0,
            width as usize,
            height as usize,
            radius,
            (times + 1) as nat,
        ));
        lemma_with_rgb_twice(tight, rgb_t, rgb_next);
        lemma_written_rows_twice(data, once, with_rgb(tight, rgb_next), row_len, stride as int, height);
    }
}

/// The colour bytes of the first `n` pixels of a packed buffer.
fn take_rgb(px: &Vec<u8>, n: usize) -> (rgb: Vec<u8>)
    requires
        px@.len() == 4 * n,
    ensures
        rgb@ == rgb_of(px@, n as nat),
{
    let mut rgb: Vec<u8> = Vec::new();
    let len = px.len();
    let mut p: usize = 0;
    while p < n
        invariant
            px@.len() == 4 * n,
            len == px@.len(),
            0 <= p <= n,
            rgb@ =~= rgb_of(px@, p as nat),
        decreases n - p,
    {
        rgb.push(px[4 * p]);
        rgb.push(px[4 * p + 1]);
        rgb.push(px[4 * p + 2]);
        proof {
            assert forall|i: int| 0 <= i < 3 * (p + 1) implies #[trigger] rgb@[i] == px@[(i / 3) * 4
                + i % 3] by {
                if i >= 3 * p {
                    lemma_fundamental_div_mod_converse(i, 3, p as int, i - 3 * p);
                }
            }
        }
        p = p + 1;
    }
    rgb
}

/// The packed pixels with their colour bytes replaced from `rgb`.
fn put_rgb(px: &Vec<u8>, rgb: &Vec<u8>, n: usize) -> (out: Vec<u8>)
    requires
        px@.len() == 4 * n,
        rgb@.len() == 3 * n,
    ensures
        out@ == with_rgb(px@, rgb@),
{
    let mut out: Vec<u8> = Vec::new();
    let len = px.len();
    let mut p: usize = 0;
    while p < n
        invariant
            px@.len() == 4 * n,
            len == px@.len(),
            rgb@.len() == 3 * n,
            0 <= p <= n,
            out@ =~= with_rgb(px@, rgb@).take(4 * p),
        decreases n - p,
    {
        out.push(rgb[3 * p]);
        out.push(rgb[3 * p + 1]);
        out.push(rgb[3 * p + 2]);
        out.push(px[4 * p + 3]);
        proof {
            assert forall|i: int| 0 <= i < 4 * (p + 1) implies #[trigger] out@[i] == with_rgb(
                px@,
                rgb@,
            )[i] by {
                if i >= 4 * p {
                    lemma_fundamental_div_mod_converse(i, 4, p as int, i - 4 * p);
                }
            }
            assert(out@ =~= with_rgb(px@, rgb@).take(4 * (p + 1)));
        }
        p = p + 1;
    }
    assert(with_rgb(px@, rgb@).take(4 * n) =~= with_rgb(px@, rgb@));
    out
}

/// A captured screen image: `height` rows of `width` 32-bit pixels, rows
/// `stride` bytes apart.
pub struct Screenshot {
    data: Vec<u8>,
    width: usize,
    height: usize,
    stride: usize,
}

impl Screenshot {
    pub closed spec fn bytes(&self) -> Seq<u8> {
        self.data@
    }

    pub closed spec fn pixel_width(&self) -> nat {
        self.width as nat
    }

    pub closed spec fn pixel_height(&self) -> nat {
        self.height as nat
    }

    pub closed spec fn row_stride(&self) -> nat {
        self.stride as nat
    }

    /// The rows hold the pixels and the buffer holds exactly the rows.
    pub open spec fn wf(&self) -> bool {
        &&& 4 * self.pixel_width() <= self.row_stride()
        &&& self.bytes().len() == self.row_stride() * self.pixel_height()
    }

    /// An image from its bytes; `None` unless each row holds `width` pixels
    /// and the buffer holds exactly `height` rows.
    pub fn new(data: Vec<u8>, width: usize, height: usize, stride: usize) -> (shot: Option<Self>)
        ensures
            match shot {
                Some(s) => s.wf() && s.bytes() == data@ && s.pixel_width() == width
                    && s.pixel_height() == height && s.row_stride() == stride,
                None => !(4 * width <= stride && data@.len() == stride * height),
            },
    {
        let len = data.len();
        let row_ok = match width.checked_mul(4) {
            Some(row) => row <= stride,
            None => false,
        };
        let size_ok = match stride.checked_mul(height) {
            Some(n) => n == len,
            None => false,
        };
        if row_ok && size_ok {
            Some(Screenshot { data, width, height, stride })
        } else {
            None
        }
    }

    /// The image's bytes.
    pub fn into_inner(self) -> (data: Vec<u8>)
        ensures
            data@ == self.bytes(),
    {
        self.data
    }

    /// Blur the colour channels with `times` passes of a Gaussian blur of
    /// `radius`; alpha and row padding are kept.
    pub fn apply_blur(&mut self, radius: u32, times: u32)
        requires
            old(self).wf(),
            radius == 0 || times == 0 || blur_fits(
                old(self).pixel_width(),
                old(self).pixel_height(),
                radius,
            ),
        ensures
            final(self).wf(),
            final(self).pixel_width() == old(self).pixel_width(),
            final(self).pixel_height() == old(self).pixel_height(),
            final(self).row_stride() == old(self).row_stride(),
            final(self).bytes() == blurred(
                old(self).bytes(),
                old(self).pixel_width(),
                old(self).pixel_height(),
                old(self).row_stride(),
                radius,
                times,
            ),
            times > 0 ==> final(self).bytes() == blurred(
                blurred(
                    old(self).bytes(),
                    old(self).pixel_width(),
                    old(self).pixel_height(),
                    old(self).row_stride(),
                    radius,
                    (times - 1) as u32,
                ),
                old(self).pixel_width(),
                old(self).pixel_height(),
                old(self).row_stride(),
                radius,
                1,
            ),
    {
        if radius == 0 || times == 0 {
            return;
        }
        let width = self.width;
        let height = self.height;
        let stride = self.stride;
        let len = self.data.len();
        let row_len = 4 * width;
        proof {
            assert(height * row_len <= len && width * height <= len) by (nonlinear_arith)
                requires
                    row_len == 4 * width,
                    row_len <= stride,
                    len == stride * height,
            ;
            if height > 0 {
                assert(offset(height - 1, stride as int) + row_len <= len) by (nonlinear_arith)
                    requires
                        height > 0,
                        row_len <= stride,
                        len == stride * height,
                ;
            }
            assert forall|r: int|
                0 <= r < height && #[trigger] offset(r, stride as int) < len implies offset(
                r,
                stride as int,
            ) + row_len <= len by {
                assert(offset(r, stride as int) + row_len <= len) by (nonlinear_arith)
                    requires
                        0 <= r < height,
                        row_len <= stride,
                        len == stride * height,
                ;
            }
        }
        let tight = pack_rows(self.data.as_slice(), row_len, height, stride);
        let n = width * height;
        let ghost d = self.data@;
        let ghost rgb0 = rgb_of(tight@, n as nat);
        proof {
            assert(height * row_len == 4 * n && 3 * n == 3 * width * height) by (nonlinear_arith)
                requires
                    row_len == 4 * width,
                    n == width * height,
            ;
        }
        let mut rgb = take_rgb(&tight, n);
        let mut k: u32 = 0;
        while k < times
            invariant
                rgb0.len() == 3 * width * height,
                blur_fits(width as nat, height as nat, radius),
                0 <= k <= times,
                rgb@ == blur_passes(rgb0, width, height, radius, k as nat),
                rgb@.len() == rgb0.len(),
                forall|j: nat|
                    j <= k ==> #[trigger] blur_passes(rgb0, width, height, radius, j).len()
                        == rgb0.len(),
            decreases times - k,
        {
            gaussian_blur(&mut rgb, width, height, radius);
            k = k + 1;
        }
        proof {
            let t1 = (times - 1) as u32;
            assert(blur_passes(rgb0, width, height, radius, t1 as nat).len() == rgb0.len());
            assert(rgb0.len() == 3 * width * height);
            lemma_blur_one_more_pass(d, width as nat, height as nat, stride as nat, radius, t1);
        }
        let merged = put_rgb(&tight, &rgb, n);
        write_rows(&mut self.data, merged.as_slice(), row_len, height, stride);
        assert(self.data@ == blurred(d, width as nat, height as nat, stride as nat, radius, times));
    }

    /// Cut the image into squares of `pixel_size` pixels a side (clipped at
    /// the right and bottom edges) and fill each with its average colour.
    pub fn apply_pixelate(&mut self, pixel_size: u32)
        requires
            old(self).wf(),
        ensures
            final(self).wf(),
            final(self).pixel_width() == old(self).pixel_width(),
            final(self).pixel_height() == old(self).pixel_height(),
            final(self).row_stride() == old(self).row_stride(),
            final(self).bytes() == pixelated(
                old(self).bytes(),
                old(self).pixel_width() as int,
                old(self).pixel_height() as int,
                old(self).row_stride() as int,
                pixel_size as int,
            ),
    {
        if pixel_size <= 1 {
            return;
        }
        let ps = pixel_size as usize;
        let width = self.width;
        let height = self.height;
        let stride = self.stride;
        let ghost d = self.data@;
        let ghost st = stride as int;
        let ghost sz = ps as int;
        let len = self.data.len();
        let mut out: Vec<u8> = Vec::new();
        push_range(&mut out, self.data.as_slice(), 0, self.data.len());
        assert(out@ =~= d);
        let mut top: usize = 0;
        while top < height
            invariant
                4 * width <= stride,
                d == self.data@,
                d.len() == stride * height,
                len == d.len(),
                out@.len() == d.len(),
                st == stride as int,
                sz == ps as int,
                ps > 1,
                top <= height,
                top % ps == 0 || top == height,
                forall|i: int|
                    0 <= i < d.len() ==> out@[i] == if row_of(i, st) < top {
                        pixelated_byte(d, width as int, height as int, st, sz, i)
                    } else {
                        d[i]
                    },
            decreases height - top,
        {
            let rows = if height - top < ps {
                height - top
            } else {
                ps
            };
            let mut left: usize = 0;
            while left < width
                invariant
                    4 * width <= stride,
                    d == self.data@,
                    d.len() == stride * height,
                    len == d.len(),
                    out@.len() == d.len(),
                    st == stride as int,
                    sz == ps as int,
                    ps > 1,
                    top < height,
                    top % ps == 0,
                    rows == min_int(sz, height - top),
                    left <= width,
                    left % ps == 0 || left == width,
                    forall|i: int|
                        0 <= i < d.len() ==> out@[i] == if row_of(i, st) < top || (row_of(i, st)
                            < top + rows && column_of(i, st) < left) {
                            pixelated_byte(d, width as int, height as int, st, sz, i)
                        } else {
                            d[i]
                        },
                decreases width - left,
            {
                let cols = if width - left < ps {
                    width - left
                } else {
                    ps
                };
                let sums = channel_sums(&self.data, stride, height, width, top, left, rows, cols);
                let ghost s0 = top * st + left * 4;
                proof {
                    lemma_block_sum_bound(d, st, s0, rows as nat, cols as nat);
                    lemma_block_sum_bound(d, st, s0 + 1, rows as nat, cols as nat);
                    lemma_block_sum_bound(d, st, s0 + 2, rows as nat, cols as nat);
                    assert(rows * cols <= usize::MAX) by (nonlinear_arith)
                        requires
                            rows <= height,
                            cols <= width,
                            4 * width <= stride,
                            stride * height == d.len(),
                            d.len() == len,
                            len <= usize::MAX,
                    ;
                    assert(rows * cols > 0) by (nonlinear_arith)
                        requires
                            rows > 0,
                            cols > 0,
                    ;
                }
                let count = (rows as u128) * (cols as u128);
                proof {
                    assert(sums.0 / count <= 255) by (nonlinear_arith)
                        requires
                            sums.0 <= 255 * (rows * cols),
                            count == rows * cols,
                            count > 0,
                    ;
                    assert(sums.1 / count <= 255) by (nonlinear_arith)
                        requires
                            sums.1 <= 255 * (rows * cols),
                            count == rows * cols,
                            count > 0,
                    ;
                    assert(sums.2 / count <= 255) by (nonlinear_arith)
                        requires
                            sums.2 <= 255 * (rows * cols),
                            count == rows * cols,
                            count > 0,
                    ;
                }
                let c = ((sums.0 / count) as u8, (sums.1 / count) as u8, (sums.2 / count) as u8);
                let ghost before = out@;
                fill_block(&mut out, stride, height, width, top, left, rows, cols, c);
                proof {
                    assert forall|i: int| 0 <= i < d.len() implies out@[i] == if row_of(i, st)
                        < top || (row_of(i, st) < top + rows && column_of(i, st) < left + cols) {
                        pixelated_byte(d, width as int, height as int, st, sz, i)
                    } else {
                        d[i]
                    } by {
                        lemma_in_buffer(i, st, height as int);
                        let y = row_of(i, st);
                        let x = column_of(i, st);
                        let ch = channel_of(i, st);
                        if in_block(i, st, top as int, left as int, rows as int, cols as int) {
                            lemma_square_start(y, top as int, sz);
                            lemma_square_start(x, left as int, sz);
                            assert(out@[i] == pick(c, ch));
                            assert(y / sz * sz == top);
                            assert(x / sz * sz == left);
                            assert(top * st + left * 4 + ch == s0 + ch);
                        }
                    }
                }
                proof {
                    if cols == ps {
                        lemma_mod_add_multiples_vanish(left as int, sz);
                    }
                }
                left = left + cols;
            }
            proof {
                assert forall|i: int| 0 <= i < d.len() implies out@[i] == if row_of(i, st) < top
                    + rows {
                    pixelated_byte(d, width as int, height as int, st, sz, i)
                } else {
                    d[i]
                } by {
                    lemma_in_buffer(i, st, height as int);
                }
            }
            proof {
                if rows == ps {
                    lemma_mod_add_multiples_vanish(top as int, sz);
                }
            }
            top = top + rows;
        }
        proof {
            assert forall|i: int| 0 <= i < d.len() implies out@[i] == pixelated_byte(
                d,
                width as int,
                height as int,
                st,
                sz,
                i,
            ) by {
                lemma_in_buffer(i, st, height as int);
            }
            assert(out@ =~= pixelated(d, width as int, height as int, st, sz));
        }
        self.data = out;
    }
}

} // verus!
