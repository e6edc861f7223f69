//! Byte-level transforms of 32-bit pixel buffers: channel reordering, row
//! packing and unpacking, and vertical flipping.

use vstd::arithmetic::div_mod::{lemma_fundamental_div_mod, lemma_fundamental_div_mod_converse};
use vstd::prelude::*;

verus! {

/// The four bytes of pixel `p` in a tightly packed 32-bit buffer.
pub open spec fn pixel(s: Seq<u8>, p: int) -> Seq<u8> {
    s.subrange(4 * p, 4 * p + 4)
}

/// The byte offset of row `r` in a buffer whose rows are `step` bytes apart.
pub open spec fn offset(r: int, step: int) -> int {
    r * step
}

/// The `len` bytes of row `r` in a buffer whose rows are `step` bytes apart.
pub open spec fn row_at(s: Seq<u8>, r: int, step: int, len: int) -> Seq<u8> {
    s.subrange(offset(r, step), offset(r, step) + len)
}

/// `len` zero bytes.
pub open spec fn zeros(len: nat) -> Seq<u8> {
    Seq::new(len, |i: int| 0u8)
}

/// Row `r` of a strided buffer, or zeros where the buffer ends before the
/// row starts.
pub open spec fn row_or_zeros(data: Seq<u8>, r: int, stride: int, row_len: nat) -> Seq<u8> {
    if offset(r, stride) < data.len() {
        row_at(data, r, stride, row_len as int)
    } else {
        zeros(row_len)
    }
}

/// The first `n` rows of a strided buffer, packed without padding.
pub open spec fn packed_rows(data: Seq<u8>, row_len: nat, stride: int, n: nat) -> Seq<u8>
    decreases n,
{
    if n == 0 {
        Seq::empty()
    } else {
        packed_rows(data, row_len, stride, (n - 1) as nat) + row_or_zeros(
            data,
            n - 1,
            stride,
            row_len,
        )
    }
}

/// The first `n` rows of a packed `height`-row buffer, taken bottom-up.
pub open spec fn flipped_rows(data: Seq<u8>, row_len: nat, height: int, n: nat) -> Seq<u8>
    decreases n,
{
    if n == 0 {
        Seq::empty()
    } else {
        flipped_rows(data, row_len, height, (n - 1) as nat) + row_at(
            data,
            height - n,
            row_len as int,
            row_len as int,
        )
    }
}

/// `target` with the first `n` packed rows of `packed` written at their
/// strided offsets; the bytes between rows are left as they were.
pub open spec fn written_rows(
    target: Seq<u8>,
    packed: Seq<u8>,
    row_len: nat,
    stride: int,
    n: nat,
) -> Seq<u8>
    decreases n,
{
    if n == 0 {
        target
    } else {
        let t = written_rows(target, packed, row_len, stride, (n - 1) as nat);
        let at = offset(n - 1, stride);
        t.take(at) + row_at(packed, n - 1, row_len as int, row_len as int) + t.skip(
            at + row_len,
        )
    }
}

/// Append `src[start..start + len]` to `dst`.
pub(crate) fn push_range(dst: &mut Vec<u8>, src: &[u8], start: usize, len: usize)
    requires
        start + len <= src@.len(),
    ensures
        final(dst)@ == old(dst)@ + src@.subrange(start as int, start + len),
{
    let src_len = src.len();
    let mut k: usize = 0;
    while k < len
        invariant
            start + len <= src@.len(),
            src_len == src@.len(),
            0 <= k <= len,
            dst@ == old(dst)@ + src@.subrange(start as int, start + k),
        decreases len - k,
    {
        dst.push(src[start + k]);
        assert(src@.subrange(start as int, start + k + 1) =~= src@.subrange(
            start as int,
            start + k,
        ).push(src@[start + k]));
        k = k + 1;
    }
}

/// Append `len` zero bytes to `dst`.
fn push_zeros(dst: &mut Vec<u8>, len: usize)
    ensures
        final(dst)@ == old(dst)@ + zeros(len as nat),
{
    let mut k: usize = 0;
    while k < len
        invariant
            0 <= k <= len,
            dst@ == old(dst)@ + zeros(k as nat),
        decreases len - k,
    {
        dst.push(0);
        assert(zeros((k + 1) as nat) =~= zeros(k as nat).push(0u8));
        k = k + 1;
    }
}

proof fn lemma_row_offsets(r: int, height: int, stride: int, row_len: int)
    requires
        0 <= r < height,
        0 <= row_len <= stride,
    ensures
        0 <= offset(r, stride) <= offset(height - 1, stride),
        offset(r, stride) + stride == offset(r + 1, stride),
        offset(r, row_len) + row_len == offset(r + 1, row_len),
        offset(r + 1, row_len) <= offset(height, row_len),
{
    assert(0 <= r * stride <= (height - 1) * stride) by (nonlinear_arith)
        requires
            0 <= r <= height - 1,
            0 <= stride,
    ;
    assert(r * stride + stride == (r + 1) * stride) by (nonlinear_arith);
    assert(r * row_len + row_len == (r + 1) * row_len) by (nonlinear_arith);
    assert((r + 1) * row_len <= height * row_len) by (nonlinear_arith)
        requires
            r + 1 <= height,
            0 <= row_len,
    ;
}

/// Copy the first `row_len` bytes of each of `height` rows that lie
/// `stride` bytes apart into a buffer without padding. A row that starts at
/// or after the end of `data` is left as zeros.
pub fn pack_rows(data: &[u8], row_len: usize, height: usize, stride: usize) -> (packed: Vec<u8>)
    requires
        row_len <= stride,
        height * row_len <= usize::MAX,
        height == 0 || offset(height - 1, stride as int) + row_len <= usize::MAX,
        forall|r: int|
            0 <= r < height && #[trigger] offset(r, stride as int) < data@.len() ==> offset(
                r,
                stride as int,
            ) + row_len <= data@.len(),
    ensures
        packed@ == packed_rows(data@, row_len as nat, stride as int, height as nat),
        packed@.len() == height * row_len,
{
    let mut packed: Vec<u8> = Vec::new();
    let mut r: usize = 0;
    while r < height
        invariant
            row_len <= stride,
            height * row_len <= usize::MAX,
            height == 0 || offset(height - 1, stride as int) + row_len <= usize::MAX,
            forall|q: int|
                0 <= q < height && #[trigger] offset(q, stride as int) < data@.len() ==> offset(
                    q,
                    stride as int,
                ) + row_len <= data@.len(),
            0 <= r <= height,
            packed@ == packed_rows(data@, row_len as nat, stride as int, r as nat),
            packed@.len() == offset(r as int, row_len as int),
        decreases height - r,
    {
        proof {
            lemma_row_offsets(r as int, height as int, stride as int, row_len as int);
        }
        let src = r * stride;
        if src < data.len() {
            push_range(&mut packed, data, src, row_len);
        } else {
            push_zeros(&mut packed, row_len);
        }
        r = r + 1;
    }
    proof {
        assert(offset(height as int, row_len as int) == height * row_len);
    }
    packed
}

/// Reverse the order of the `height` rows of a packed buffer.
pub fn flip_rows(data: &[u8], row_len: usize, height: usize) -> (flipped: Vec<u8>)
    requires
        height * row_len <= usize::MAX,
        data@.len() >= height * row_len,
    ensures
        flipped@ == flipped_rows(data@, row_len as nat, height as int, height as nat),
        flipped@.len() == height * row_len,
{
    let mut flipped: Vec<u8> = Vec::new();
    let mut r: usize = 0;
    while r < height
        invariant
            height * row_len <= usize::MAX,
            data@.len() >= height * row_len,
            0 <= r <= height,
            flipped@ == flipped_rows(data@, row_len as nat, height as int, r as nat),
            flipped@.len() == offset(r as int, row_len as int),
        decreases height - r,
    {
        let src_row = height - 1 - r;
        proof {
            lemma_row_offsets(src_row as int, height as int, row_len as int, row_len as int);
            lemma_row_offsets(r as int, height as int, row_len as int, row_len as int);
        }
        let src = src_row * row_len;
        push_range(&mut flipped, data, src, row_len);
        r = r + 1;
    }
    proof {
        assert(offset(height as int, row_len as int) == height * row_len);
    }
    flipped
}

/// Write each of the `height` packed rows of `packed` over the first
/// `row_len` bytes of the matching strided row of `target`.
pub fn write_rows(target: &mut Vec<u8>, packed: &[u8], row_len: usize, height: usize, stride: usize)
    requires
        row_len <= stride,
        height * row_len <= packed@.len(),
        height == 0 || offset(height - 1, stride as int) + row_len <= old(target)@.len(),
    ensures
        final(target)@ == written_rows(
            old(target)@,
            packed@,
            row_len as nat,
            stride as int,
            height as nat,
        ),
        final(target)@.len() == old(target)@.len(),
{
    let mut r: usize = 0;
    while r < height
        invariant
            row_len <= stride,
            height * row_len <= packed@.len(),
            height == 0 || offset(height - 1, stride as int) + row_len <= old(target)@.len(),
            0 <= r <= height,
            target@ == written_rows(
                old(target)@,
                packed@,
                row_len as nat,
                stride as int,
                r as nat,
            ),
            target@.len() == old(target)@.len(),
        decreases height - r,
    {
        proof {
            lemma_row_offsets(r as int, height as int, stride as int, row_len as int);
            lemma_row_offsets(r as int, height as int, row_len as int, row_len as int);
        }
        let target_len = target.len();
        let packed_len = packed.len();
        let dst = r * stride;
        let src = r * row_len;
        let ghost before = target@;
        let mut k: usize = 0;
        while k < row_len
            invariant
                dst + row_len <= before.len(),
                src + row_len <= packed@.len(),
                before.len() <= usize::MAX,
                packed@.len() <= usize::MAX,
                0 <= k <= row_len,
                target@ == before.take(dst as int) + packed@.subrange(src as int, src + k)
                    + before.skip(dst + k),
            decreases row_len - k,
        {
            target.set(dst + k, packed[src + k]);
            assert(target@ =~= before.take(dst as int) + packed@.subrange(src as int, src + k + 1)
                + before.skip(dst + k + 1));
            k = k + 1;
        }
        r = r + 1;
    }
}

/// Xbgr8888 memory order `[R, G, B, X]` to ARGB32 memory order
/// `[B, G, R, A=255]`.
pub open spec fn xbgr_pixel_to_argb(px: Seq<u8>) -> Seq<u8> {
    seq![px[2], px[1], px[0], 255u8]
}

/// Xrgb8888 memory order `[B, G, R, X]` to ARGB32 memory order
/// `[B, G, R, A=255]`.
pub open spec fn xrgb_pixel_to_argb(px: Seq<u8>) -> Seq<u8> {
    seq![px[0], px[1], px[2], 255u8]
}

/// A tightly packed Xbgr8888 buffer's first `n` pixels in ARGB32 order.
pub open spec fn xbgr_bytes(data: Seq<u8>, n: nat) -> Seq<u8>
    decreases n,
{
    if n == 0 {
        Seq::empty()
    } else {
        xbgr_bytes(data, (n - 1) as nat) + xbgr_pixel_to_argb(pixel(data, n - 1))
    }
}

/// A tightly packed Xrgb8888 buffer's first `n` pixels in ARGB32 order.
pub open spec fn xrgb_bytes(data: Seq<u8>, n: nat) -> Seq<u8>
    decreases n,
{
    if n == 0 {
        Seq::empty()
    } else {
        xrgb_bytes(data, (n - 1) as nat) + xrgb_pixel_to_argb(pixel(data, n - 1))
    }
}

proof fn lemma_pixel_prefix(old_s: Seq<u8>, new_s: Seq<u8>, p: int)
    requires
        0 <= p,
        4 * p + 4 <= old_s.len(),
        old_s.len() <= new_s.len(),
        new_s.subrange(0, old_s.len() as int) == old_s,
    ensures
        pixel(new_s, p) == pixel(old_s, p),
{
    assert forall|k: int| 0 <= k < 4 implies #[trigger] pixel(new_s, p)[k] == pixel(old_s, p)[k] by {
        assert(new_s.subrange(0, old_s.len() as int)[4 * p + k] == new_s[4 * p + k]);
    }
    assert(pixel(new_s, p) =~= pixel(old_s, p));
}

/// Convert Xbgr8888 buffer data to ARGB32 format (little-endian byte order).
/// Xbgr8888: 32-bit word 0xXXBBGGRR, memory layout: [R, G, B, X]
/// ARGB32: 32-bit word 0xAARRGGBB, memory layout: [B, G, R, A]
pub fn convert_xbgr8888_to_argb32(data: &[u8], width: usize, height: usize) -> (result: Vec<u8>)
    requires
        width * height * 4 <= usize::MAX,
        data@.len() >= width * height * 4,
    ensures
        result@.len() == width * height * 4,
        result@ == xbgr_bytes(data@, (width * height) as nat),
        forall|p: int|
            0 <= p < width * height ==> #[trigger] pixel(result@, p) == xbgr_pixel_to_argb(
                pixel(data@, p),
            ),
{
    let n = width * height;
    let mut result: Vec<u8> = Vec::new();
    let mut i: usize = 0;
    while i < n
        invariant
            n == width * height,
            n * 4 <= usize::MAX,
            data@.len() >= n * 4,
            0 <= i <= n,
            result@.len() == 4 * i,
            result@ == xbgr_bytes(data@, i as nat),
            forall|p: int|
                0 <= p < i ==> #[trigger] pixel(result@, p) == xbgr_pixel_to_argb(
                    pixel(data@, p),
                ),
        decreases n - i,
    {
        let ghost before = result@;
        let src = i * 4;
        result.push(data[src + 2]);
        result.push(data[src + 1]);
        result.push(data[src]);
        result.push(255);
        proof {
            assert(result@.subrange(0, before.len() as int) =~= before);
            assert forall|p: int| 0 <= p < i + 1 implies #[trigger] pixel(result@, p)
                == xbgr_pixel_to_argb(pixel(data@, p)) by {
                if p < i {
                    lemma_pixel_prefix(before, result@, p);
                } else {
                    assert(pixel(result@, p) =~= xbgr_pixel_to_argb(pixel(data@, p)));
                }
            }
            assert(result@ =~= xbgr_bytes(data@, (i + 1) as nat));
        }
        i = i + 1;
    }
    result
}

/// Convert Xrgb8888 buffer data to ARGB32 format (little-endian byte order).
/// Xrgb8888: 32-bit word 0xXXRRGGBB, memory layout: [B, G, R, X]
/// ARGB32: 32-bit word 0xAARRGGBB, memory layout: [B, G, R, A]
pub fn convert_xrgb8888_to_argb32(data: &[u8], width: usize, height: usize) -> (result: Vec<u8>)
    requires
        width * height * 4 <= usize::MAX,
        data@.len() >= width * height * 4,
    ensures
        result@.len() == width * height * 4,
        result@ == xrgb_bytes(data@, (width * height) as nat),
        forall|p: int|
            0 <= p < width * height ==> #[trigger] pixel(result@, p) == xrgb_pixel_to_argb(
                pixel(data@, p),
            ),
{
    let n = width * height;
    let mut result: Vec<u8> = Vec::new();
    let mut i: usize = 0;
    while i < n
        invariant
            n == width * height,
            n * 4 <= usize::MAX,
            data@.len() >= n * 4,
            0 <= i <= n,
            result@.len() == 4 * i,
            result@ == xrgb_bytes(data@, i as nat),
            forall|p: int|
                0 <= p < i ==> #[trigger] pixel(result@, p) == xrgb_pixel_to_argb(
                    pixel(data@, p),
                ),
        decreases n - i,
    {
        let ghost before = result@;
        let src = i * 4;
        result.push(data[src]);
        result.push(data[src + 1]);
        result.push(data[src + 2]);
        result.push(255);
        proof {
            assert(result@.subrange(0, before.len() as int) =~= before);
            assert forall|p: int| 0 <= p < i + 1 implies #[trigger] pixel(result@, p)
                == xrgb_pixel_to_argb(pixel(data@, p)) by {
                if p < i {
                    lemma_pixel_prefix(before, result@, p);
                } else {
                    assert(pixel(result@, p) =~= xrgb_pixel_to_argb(pixel(data@, p)));
                }
            }
            assert(result@ =~= xrgb_bytes(data@, (i + 1) as nat));
        }
        i = i + 1;
    }
    result
}

/// The pixel formats a captured frame may arrive in.
#[derive(Clone, Copy, Debug, PartialEq, Eq, Structural)]
pub enum PixelFormat {
    Argb8888,
    Xbgr8888,
    Xrgb8888,
    /// Any other format; its bytes are used as they are.
    Other,
}

/// Why a captured frame cannot be turned into an image.
#[derive(Clone, Copy, Debug, PartialEq, Eq, Structural)]
pub enum FrameError {
    /// The frame's stride is smaller than the width of a row of pixels.
    StrideTooSmall,
}

/// A captured frame's pixels as packed ARGB32 rows, top row first.
pub open spec fn frame_pixels(
    canvas: Seq<u8>,
    width: nat,
    height: nat,
    stride: nat,
    format: PixelFormat,
    y_invert: bool,
) -> Seq<u8> {
    let row_len = 4 * width;
    let raw = packed_rows(canvas, row_len, stride as int, height);
    let converted = match format {
        PixelFormat::Xbgr8888 => xbgr_bytes(raw, width * height),
        PixelFormat::Xrgb8888 => xrgb_bytes(raw, width * height),
        _ => raw,
    };
    if y_invert {
        flipped_rows(converted, row_len, height as int, height)
    } else {
        converted
    }
}

/// A buffer of `n` rows `stride` bytes apart packs into `n * row_len` bytes.
pub(crate) proof fn lemma_packed_rows_len(data: Seq<u8>, row_len: nat, stride: int, n: nat)
    requires
        row_len <= stride,
        data.len() >= stride * n,
    ensures
        packed_rows(data, row_len, stride, n).len() == n * row_len,
    decreases n,
{
    if n > 0 {
        lemma_row_offsets(n - 1, n as int, stride, row_len as int);
        assert((n - 1) * stride + stride == stride * n) by (nonlinear_arith);
        assert(data.len() >= stride * (n - 1)) by (nonlinear_arith)
            requires
                data.len() >= stride * n,
                stride >= 0,
                n >= 1,
        ;
        lemma_packed_rows_len(data, row_len, stride, (n - 1) as nat);
        assert((n - 1) * row_len + row_len == n * row_len) by (nonlinear_arith);
        assert(offset(n - 1, stride) + row_len <= data.len());
        assert(row_or_zeros(data, n - 1, stride, row_len).len() == row_len);
        assert(packed_rows(data, row_len, stride, n) == packed_rows(
            data,
            row_len,
            stride,
            (n - 1) as nat,
        ) + row_or_zeros(data, n - 1, stride, row_len));
    } else {
        assert(n * row_len == 0) by (nonlinear_arith)
            requires
                n == 0,
        ;
    }
}

/// Byte `i` of a strided buffer after the first `n` packed rows of `packed`
/// were written over it: inside the first `row_len` bytes of one of those
/// rows it is the packed row's byte, elsewhere the buffer's own.
pub open spec fn written_byte(
    target: Seq<u8>,
    packed: Seq<u8>,
    row_len: nat,
    stride: int,
    n: nat,
    i: int,
) -> u8 {
    if stride > 0 && i / stride < n && i % stride < row_len {
        packed[(i / stride) * row_len + i % stride]
    } else {
        target[i]
    }
}

proof fn lemma_written_rows_len(target: Seq<u8>, packed: Seq<u8>, row_len: nat, stride: int, n: nat)
    requires
        row_len <= stride,
        n == 0 || offset(n - 1, stride) + row_len <= target.len(),
        packed.len() >= n * row_len,
    ensures
        written_rows(target, packed, row_len, stride, n).len() == target.len(),
    decreases n,
{
    if n > 0 {
        lemma_row_offsets(n - 1, n as int, stride, row_len as int);
        assert(n - 1 == 0 || offset(n - 2, stride) + row_len <= target.len()) by {
            if n >= 2 {
                lemma_row_offsets(n - 2, n as int, stride, row_len as int);
            }
        }
        assert(packed.len() >= (n - 1) * row_len) by (nonlinear_arith)
            requires
                packed.len() >= n * row_len,
                n >= 1,
        ;
        assert((n - 1) * row_len + row_len == n * row_len) by (nonlinear_arith);
        lemma_written_rows_len(target, packed, row_len, stride, (n - 1) as nat);
    }
}

proof fn lemma_written_rows_byte(
    target: Seq<u8>,
    packed: Seq<u8>,
    row_len: nat,
    stride: int,
    n: nat,
    i: int,
)
    requires
        row_len <= stride,
        n == 0 || offset(n - 1, stride) + row_len <= target.len(),
        packed.len() >= n * row_len,
        0 <= i < target.len(),
    ensures
        written_rows(target, packed, row_len, stride, n)[i] == written_byte(
            target,
            packed,
            row_len,
            stride,
            n,
            i,
        ),
    decreases n,
{
    if n > 0 {
        let t = written_rows(target, packed, row_len, stride, (n - 1) as nat);
        let at = offset(n - 1, stride);
        lemma_row_offsets(n - 1, n as int, stride, row_len as int);
        assert(n - 1 == 0 || offset(n - 2, stride) + row_len <= target.len()) by {
            if n >= 2 {
                lemma_row_offsets(n - 2, n as int, stride, row_len as int);
            }
        }
        assert(packed.len() >= (n - 1) * row_len) by (nonlinear_arith)
            requires
                packed.len() >= n * row_len,
                n >= 1,
        ;
        assert((n - 1) * row_len + row_len == n * row_len) by (nonlinear_arith);
        lemma_written_rows_len(target, packed, row_len, stride, (n - 1) as nat);
        lemma_written_rows_byte(target, packed, row_len, stride, (n - 1) as nat, i);
        let row = row_at(packed, n - 1, row_len as int, row_len as int);
        assert(row.len() == row_len);
        let w = t.take(at) + row + t.skip(at + row_len);
        assert(written_rows(target, packed, row_len, stride, n) == w);
        if stride == 0 {
            assert(row_len == 0);
            assert(w[i] == t[i]);
        } else {
            lemma_fundamental_div_mod(i, stride);
            let r = i / stride;
            let j = i % stride;
            if i < at {
                assert(w[i] == t[i]);
                assert(r < n - 1) by (nonlinear_arith)
                    requires
                        i == stride * r + j,
                        0 <= j,
                        i < (n - 1) * stride,
                        stride > 0,
                        at == (n - 1) * stride,
                ;
            } else if i < at + row_len {
                assert(w[i] == row[i - at]);
                lemma_fundamental_div_mod_converse(i, stride, n - 1, i - at);
            } else {
                assert(w[i] == t[i]);
                assert(r >= n - 1) by (nonlinear_arith)
                    requires
                        i == stride * r + j,
                        j < stride,
                        i >= (n - 1) * stride,
                        stride > 0,
                ;
                if r == n - 1 {
                    assert(j >= row_len) by (nonlinear_arith)
                        requires
                            i == stride * r + j,
                            r == n - 1,
                            i >= at + row_len,
                            at == (n - 1) * stride,
                    ;
                }
            }
        }
    }
}

/// Writing packed rows into a strided buffer and packing them out again
/// gives back exactly the rows that were written.
pub proof fn lemma_packed_rows_of_written(
    target: Seq<u8>,
    packed: Seq<u8>,
    row_len: nat,
    stride: int,
    height: nat,
)
    requires
        row_len <= stride,
        target.len() == stride * height,
        packed.len() == height * row_len,
    ensures
        packed_rows(
            written_rows(target, packed, row_len, stride, height),
            row_len,
            stride,
            height,
        ) == packed,
{
    lemma_packed_prefix_of_written(target, packed, row_len, stride, height, height);
    assert(packed.take((height * row_len) as int) =~= packed);
}

proof fn lemma_packed_prefix_of_written(
    target: Seq<u8>,
    packed: Seq<u8>,
    row_len: nat,
    stride: int,
    height: nat,
    n: nat,
)
    requires
        row_len <= stride,
        target.len() == stride * height,
        packed.len() == height * row_len,
        n <= height,
    ensures
        packed_rows(
            written_rows(target, packed, row_len, stride, height),
            row_len,
            stride,
            n,
        ) == packed.take((n * row_len) as int),
    decreases n,
{
    let w = written_rows(target, packed, row_len, stride, height);
    if height > 0 {
        lemma_row_offsets(height - 1, height as int, stride, row_len as int);
        assert((height - 1) * stride + stride == stride * height) by (nonlinear_arith);
    }
    lemma_written_rows_len(target, packed, row_len, stride, height);
    if n == 0 {
        assert(n * row_len == 0) by (nonlinear_arith)
            requires
                n == 0,
        ;
        assert(packed.take(0) =~= Seq::<u8>::empty());
    } else {
        lemma_packed_prefix_of_written(target, packed, row_len, stride, height, (n - 1) as nat);
        lemma_row_offsets(n - 1, height as int, stride, row_len as int);
        assert((n - 1) * row_len + row_len == n * row_len) by (nonlinear_arith);
        assert(n * row_len <= height * row_len) by (nonlinear_arith)
            requires
                n <= height,
        ;
        let part = row_or_zeros(w, n - 1, stride, row_len);
        let expect = packed.subrange((n - 1) * row_len, (n * row_len) as int);
        if stride == 0 {
            assert(row_len == 0);
            assert(part =~= expect);
        } else {
            assert(offset(n - 1, stride) < w.len()) by (nonlinear_arith)
                requires
                    n <= height,
                    n >= 1,
                    stride > 0,
                    w.len() == stride * height,
            ;
            assert forall|k: int| 0 <= k < row_len implies #[trigger] part[k] == expect[k] by {
                let i = offset(n - 1, stride) + k;
                lemma_written_rows_byte(target, packed, row_len, stride, height, i);
                lemma_fundamental_div_mod_converse(i, stride, n - 1, k);
            }
            assert(part =~= expect);
        }
        assert(packed.take((n * row_len) as int) =~= packed.take((n - 1) * row_len) + expect);
        assert(packed_rows(w, row_len, stride, n) == packed_rows(w, row_len, stride, (n - 1) as nat)
            + part);
    }
}

/// Writing packed rows over a buffer twice leaves only the second write.
pub proof fn lemma_written_rows_twice(
    target: Seq<u8>,
    first: Seq<u8>,
    second: Seq<u8>,
    row_len: nat,
    stride: int,
    height: nat,
)
    requires
        row_len <= stride,
        target.len() == stride * height,
        first.len() == height * row_len,
        second.len() == height * row_len,
    ensures
        written_rows(
            written_rows(target, first, row_len, stride, height),
            second,
            row_len,
            stride,
            height,
        ) == written_rows(target, second, row_len, stride, height),
{
    let once = written_rows(target, first, row_len, stride, height);
    if height > 0 {
        lemma_row_offsets(height - 1, height as int, stride, row_len as int);
        assert((height - 1) * stride + stride == stride * height) by (nonlinear_arith);
    }
    lemma_written_rows_len(target, first, row_len, stride, height);
    lemma_written_rows_len(once, second, row_len, stride, height);
    lemma_written_rows_len(target, second, row_len, stride, height);
    let lhs = written_rows(once, second, row_len, stride, height);
    let rhs = written_rows(target, second, row_len, stride, height);
    assert forall|i: int| 0 <= i < target.len() implies #[trigger] lhs[i] == rhs[i] by {
        lemma_written_rows_byte(once, second, row_len, stride, height, i);
        lemma_written_rows_byte(target, second, row_len, stride, height, i);
        lemma_written_rows_byte(target, first, row_len, stride, height, i);
    }
    assert(lhs =~= rhs);
}

/// Byte `j` of pixel `c` of row `r` of a captured canvas whose rows are
/// `stride` bytes apart; 0 where the canvas ends before the row starts.
pub open spec fn canvas_byte(canvas: Seq<u8>, stride: int, r: int, c: int, j: int) -> u8 {
    if offset(r, stride) < canvas.len() {
        canvas[offset(r, stride) + 4 * c + j]
    } else {
        0u8
    }
}

/// Every row of a canvas that starts inside it ends inside it.
pub open spec fn rows_fit(canvas: Seq<u8>, row_len: int, stride: int, height: int) -> bool {
    forall|q: int|
        0 <= q < height && #[trigger] offset(q, stride) < canvas.len() ==> offset(q, stride) + row_len
            <= canvas.len()
}

proof fn lemma_packed_rows_index(data: Seq<u8>, row_len: nat, stride: int, n: nat, r: int, i: int)
    requires
        0 <= row_len <= stride,
        rows_fit(data, row_len as int, stride, n as int),
        0 <= r < n,
        0 <= i < row_len,
    ensures
        packed_rows(data, row_len, stride, n).len() == n * row_len,
        packed_rows(data, row_len, stride, n)[r * row_len + i] == row_or_zeros(
            data,
            r,
            stride,
            row_len,
        )[i],
    decreases n,
{
    let prev = packed_rows(data, row_len, stride, (n - 1) as nat);
    let last = row_or_zeros(data, n - 1, stride, row_len);
    lemma_row_offsets(n - 1, n as int, stride, row_len as int);
    assert(last.len() == row_len);
    if n - 1 > 0 {
        lemma_packed_rows_index(data, row_len, stride, (n - 1) as nat, 0, 0);
    }
    assert(prev.len() == (n - 1) * row_len) by {
        if n - 1 == 0 {
        } else {
            lemma_packed_rows_index(data, row_len, stride, (n - 1) as nat, 0, 0);
        }
    }
    assert((n - 1) * row_len + row_len == n * row_len) by (nonlinear_arith);
    if r < n - 1 {
        assert(r * row_len + i < (n - 1) * row_len) by (nonlinear_arith)
            requires
                r <= n - 2,
                0 <= i < row_len,
        ;
        lemma_packed_rows_index(data, row_len, stride, (n - 1) as nat, r, i);
    } else {
        assert(r * row_len == (n - 1) * row_len);
    }
}

proof fn lemma_flipped_rows_index(data: Seq<u8>, row_len: nat, height: int, n: nat, r: int, i: int)
    requires
        n <= height,
        data.len() >= height * row_len,
        0 <= r < n,
        0 <= i < row_len,
    ensures
        flipped_rows(data, row_len, height, n).len() == n * row_len,
        flipped_rows(data, row_len, height, n)[r * row_len + i] == data[(height - 1 - r) * row_len
            + i],
    decreases n,
{
    let prev = flipped_rows(data, row_len, height, (n - 1) as nat);
    lemma_row_offsets(height - n, height, row_len as int, row_len as int);
    assert((height - n + 1) * row_len <= height * row_len) by (nonlinear_arith)
        requires
            n >= 1,
    ;
    assert(prev.len() == (n - 1) * row_len) by {
        if n - 1 > 0 {
            lemma_flipped_rows_index(data, row_len, height, (n - 1) as nat, 0, 0);
        }
    }
    assert((n - 1) * row_len + row_len == n * row_len) by (nonlinear_arith);
    if r < n - 1 {
        assert(r * row_len + i < (n - 1) * row_len) by (nonlinear_arith)
            requires
                r <= n - 2,
                0 <= i < row_len,
        ;
        lemma_flipped_rows_index(data, row_len, height, (n - 1) as nat, r, i);
    } else {
        assert(r * row_len == (n - 1) * row_len);
        assert(height - n == height - 1 - r);
    }
}

proof fn lemma_xrgb_bytes_index(data: Seq<u8>, n: nat, p: int, k: int)
    requires
        data.len() >= 4 * n,
        0 <= p < n,
        0 <= k < 4,
    ensures
        xrgb_bytes(data, n).len() == 4 * n,
        xrgb_bytes(data, n)[4 * p + k] == if k == 3 {
            255u8
        } else {
            data[4 * p + k]
        },
    decreases n,
{
    let prev = xrgb_bytes(data, (n - 1) as nat);
    let last = xrgb_pixel_to_argb(pixel(data, n - 1));
    if n - 1 > 0 {
        lemma_xrgb_bytes_index(data, (n - 1) as nat, 0, 0);
    }
    assert(prev.len() == 4 * (n - 1));
    assert(last.len() == 4);
    assert(xrgb_bytes(data, n) == prev + last);
    if p < n - 1 {
        lemma_xrgb_bytes_index(data, (n - 1) as nat, p, k);
        assert((xrgb_bytes(data, n))[4 * p + k] == prev[4 * p + k]);
    } else {
        assert(4 * p + k == prev.len() + k);
        assert((xrgb_bytes(data, n))[4 * p + k] == last[k]);
        assert(pixel(data, n - 1)[k] == data[4 * p + k]);
        assert(k < 3 ==> pixel(data, n - 1)[2 - k] == data[4 * p + 2 - k]);
    }
}

proof fn lemma_xbgr_bytes_index(data: Seq<u8>, n: nat, p: int, k: int)
    requires
        data.len() >= 4 * n,
        0 <= p < n,
        0 <= k < 4,
    ensures
        xbgr_bytes(data, n).len() == 4 * n,
        xbgr_bytes(data, n)[4 * p + k] == if k == 3 {
            255u8
        } else {
            data[4 * p + 2 - k]
        },
    decreases n,
{
    let prev = xbgr_bytes(data, (n - 1) as nat);
    let last = xbgr_pixel_to_argb(pixel(data, n - 1));
    if n - 1 > 0 {
        lemma_xbgr_bytes_index(data, (n - 1) as nat, 0, 0);
    }
    assert(prev.len() == 4 * (n - 1));
    assert(last.len() == 4);
    assert(xbgr_bytes(data, n) == prev + last);
    if p < n - 1 {
        lemma_xbgr_bytes_index(data, (n - 1) as nat, p, k);
        assert((xbgr_bytes(data, n))[4 * p + k] == prev[4 * p + k]);
    } else {
        assert(4 * p + k == prev.len() + k);
        assert((xbgr_bytes(data, n))[4 * p + k] == last[k]);
        assert(pixel(data, n - 1)[k] == data[4 * p + k]);
        assert(k < 3 ==> pixel(data, n - 1)[2 - k] == data[4 * p + 2 - k]);
    }
}

/// What a captured frame becomes, byte by byte: byte `k` of pixel `c` in
/// row `r` of the image comes from pixel `c` of canvas row `r`, or of row
/// `height - 1 - r` when the frame is upside down. Xrgb8888 pixels keep
/// their first three bytes in order and get an opaque alpha; Xbgr8888
/// pixels have their first and third bytes swapped and get an opaque
/// alpha; other formats keep all four bytes. Rows the canvas does not reach
/// are zeros before conversion.
pub proof fn lemma_frame_pixel_bytes(
    canvas: Seq<u8>,
    width: nat,
    height: nat,
    stride: nat,
    format: PixelFormat,
    y_invert: bool,
    r: int,
    c: int,
    k: int,
)
    requires
        4 * width <= stride,
        rows_fit(canvas, (4 * width) as int, stride as int, height as int),
        0 <= r < height,
        0 <= c < width,
        0 <= k < 4,
    ensures
        ({
            let image = frame_pixels(canvas, width, height, stride, format, y_invert);
            let row = if y_invert {
                height - 1 - r
            } else {
                r
            };
            &&& image.len() == 4 * width * height
            &&& image[4 * (r * width + c) + k] == match format {
                PixelFormat::Xrgb8888 => if k == 3 {
                    255u8
                } else {
                    canvas_byte(canvas, stride as int, row, c, k)
                },
                PixelFormat::Xbgr8888 => if k == 3 {
                    255u8
                } else {
                    canvas_byte(canvas, stride as int, row, c, 2 - k)
                },
                _ => canvas_byte(canvas, stride as int, row, c, k),
            }
        }),
{
    let row_len: nat = 4 * width;
    let n: nat = width * height;
    let raw = packed_rows(canvas, row_len, stride as int, height);
    assert(row_len * height == 4 * n) by (nonlinear_arith)
        requires
            row_len == 4 * width,
            n == width * height,
    ;
    assert(height * row_len == 4 * n) by (nonlinear_arith)
        requires
            row_len == 4 * width,
            n == width * height,
    ;
    let row: int = if y_invert {
        height - 1 - r
    } else {
        r
    };
    // The image index and the index of the same pixel's bytes in the
    // packed source row.
    let idx = 4 * (r * width + c) + k;
    assert(idx == r * row_len + (4 * c + k)) by (nonlinear_arith)
        requires
            idx == 4 * (r * width + c) + k,
            row_len == 4 * width,
    ;
    let q = row * width + c;
    assert(0 <= row < height);
    assert(0 <= q < n) by (nonlinear_arith)
        requires
            0 <= row < height,
            0 <= c < width,
            n == width * height,
            q == row * width + c,
    ;
    assert(4 * q + k == row * row_len + (4 * c + k)) by (nonlinear_arith)
        requires
            q == row * width + c,
            row_len == 4 * width,
    ;
    assert(0 <= r * width + c < n) by (nonlinear_arith)
        requires
            0 <= r < height,
            0 <= c < width,
            n == width * height,
    ;
    assert forall|j: int| 0 <= j < 4 implies #[trigger] raw[4 * q + j] == canvas_byte(
        canvas,
        stride as int,
        row,
        c,
        j,
    ) by {
        assert(4 * q + j == row * row_len + (4 * c + j)) by (nonlinear_arith)
            requires
                q == row * width + c,
                row_len == 4 * width,
        ;
        lemma_packed_rows_index(canvas, row_len, stride as int, height, row, 4 * c + j);
        lemma_row_offsets(row, height as int, stride as int, row_len as int);
    }
    lemma_packed_rows_index(canvas, row_len, stride as int, height, 0, 0);
    let converted = match format {
        PixelFormat::Xbgr8888 => xbgr_bytes(raw, n),
        PixelFormat::Xrgb8888 => xrgb_bytes(raw, n),
        _ => raw,
    };
    let expected = match format {
        PixelFormat::Xrgb8888 => if k == 3 {
            255u8
        } else {
            canvas_byte(canvas, stride as int, row, c, k)
        },
        PixelFormat::Xbgr8888 => if k == 3 {
            255u8
        } else {
            canvas_byte(canvas, stride as int, row, c, 2 - k)
        },
        _ => canvas_byte(canvas, stride as int, row, c, k),
    };
    let jk = 2 - k;
    assert(raw[4 * q + k] == canvas_byte(canvas, stride as int, row, c, k));
    if k < 3 {
        assert(raw[4 * q + jk] == canvas_byte(canvas, stride as int, row, c, jk));
        assert(4 * q + jk == 4 * q + 2 - k);
    }
    match format {
        PixelFormat::Xbgr8888 => {
            lemma_xbgr_bytes_index(raw, n, q, k);
        },
        PixelFormat::Xrgb8888 => {
            lemma_xrgb_bytes_index(raw, n, q, k);
        },
        _ => {},
    }
    assert(converted.len() == 4 * n);
    assert(converted[4 * q + k] == expected);
    if y_invert {
        lemma_flipped_rows_index(converted, row_len, height as int, height, r, 4 * c + k);
        assert((height - 1 - r) * row_len + (4 * c + k) == 4 * q + k);
    } else {
        assert(idx == 4 * q + k);
    }
}

/// Turn the canvas of a captured frame (rows `stride` bytes apart, in
/// `format`, upside down when `y_invert`) into packed ARGB32 rows, top row
/// first; the result has `4 * width` bytes per row. Rows that the canvas
/// does not reach are black and transparent.
pub fn frame_to_argb(
    canvas: &[u8],
    width: u32,
    height: u32,
    stride: u32,
    format: PixelFormat,
    y_invert: bool,
) -> (result: Result<Vec<u8>, FrameError>)
    requires
        width * 4 <= u32::MAX,
        stride >= width * 4 ==> width * height * 4 <= u32::MAX,
        stride >= width * 4 ==> (height == 0 || offset(height - 1, stride as int) + width * 4
            <= usize::MAX),
        stride >= width * 4 ==> forall|r: int|
            0 <= r < height && #[trigger] offset(r, stride as int) < canvas@.len() ==> offset(
                r,
                stride as int,
            ) + width * 4 <= canvas@.len(),
    ensures
        result is Err <==> stride < width * 4,
        result matches Ok(pixels) ==> pixels@ == frame_pixels(
            canvas@,
            width as nat,
            height as nat,
            stride as nat,
            format,
            y_invert,
        ),
{
    let pixel_width = (width * 4) as usize;
    let stride = stride as usize;
    let height = height as usize;
    let width = width as usize;
    if stride < pixel_width {
        return Err(FrameError::StrideTooSmall);
    }
    assert(width * height * 4 == height * (width * 4)) by (nonlinear_arith);
    let raw = pack_rows(canvas, pixel_width, height, stride);
    let converted = match format {
        PixelFormat::Xbgr8888 => convert_xbgr8888_to_argb32(raw.as_slice(), width, height),
        PixelFormat::Xrgb8888 => convert_xrgb8888_to_argb32(raw.as_slice(), width, height),
        _ => raw,
    };
    if y_invert {
        Ok(flip_rows(converted.as_slice(), pixel_width, height))
    } else {
        Ok(converted)
    }
}

} // verus!
