//! Conversion of an interleaved BGRA raster into planar 4:2:0 (I420) bytes.
use vstd::prelude::*;
use vstd::arithmetic::div_mod::lemma_fundamental_div_mod_converse;
use vstd::arithmetic::mul::lemma_mul_inequality;

verus! {

/// `n / 2`, rounded up.
pub open spec fn half_up(n: nat) -> nat {
    (n + 1) / 2
}

/// Size of a planar 4:2:0 frame: a full luma plane and two chroma planes
/// of `⌈width/2⌉ × ⌈height/2⌉` samples each.
pub open spec fn i420_len(width: nat, height: nat) -> nat {
    width * height + 2 * (half_up(width) * half_up(height))
}

/// A raster of `width × height` four-byte pixels whose rows start `stride`
/// bytes apart fits in a buffer of `len` bytes.
pub open spec fn frame_fits(width: nat, height: nat, stride: nat, len: nat) -> bool {
    4 * width <= stride && stride * height <= len
}

/// Luma in 16-bit fixed point: `Y = 0.299 R + 0.587 G + 0.114 B`.
pub open spec fn luma(r: int, g: int, b: int) -> int {
    (19595 * r + 38470 * g + 7471 * b) / 65536
}

/// Blue-difference chroma: `U = 128 - 0.169 R - 0.331 G + 0.5 B`.
pub open spec fn chroma_u(r: int, g: int, b: int) -> int {
    (32768 * b - 11059 * r - 21709 * g + 8388608) / 65536
}

/// Red-difference chroma: `V = 128 + 0.5 R - 0.419 G - 0.081 B`.
pub open spec fn chroma_v(r: int, g: int, b: int) -> int {
    (32768 * r - 27439 * g - 5329 * b + 8388608) / 65536
}

/// Byte offset of pixel `(x, y)`; its bytes are blue, green, red, alpha.
pub open spec fn pixel_offset(stride: nat, x: nat, y: nat) -> int {
    (y * stride + 4 * x) as int
}

pub open spec fn luma_at(src: Seq<u8>, stride: nat, x: nat, y: nat) -> int {
    let o = pixel_offset(stride, x, y);
    luma(src[o + 2] as int, src[o + 1] as int, src[o] as int)
}

/// The chroma of one pixel: `V` when `red` holds, else `U`.
pub open spec fn chroma_at(src: Seq<u8>, stride: nat, x: nat, y: nat, red: bool) -> int {
    let o = pixel_offset(stride, x, y);
    if red {
        chroma_v(src[o + 2] as int, src[o + 1] as int, src[o] as int)
    } else {
        chroma_u(src[o + 2] as int, src[o + 1] as int, src[o] as int)
    }
}

/// Mean (rounded down) of the per-pixel chroma over the 2×2 block `(bx, by)`,
/// cut to the pixels that exist at a right or bottom edge of odd size.
pub open spec fn block_chroma(
    src: Seq<u8>,
    width: nat,
    height: nat,
    stride: nat,
    bx: nat,
    by: nat,
    red: bool,
) -> int {
    let x = 2 * bx;
    let y = 2 * by;
    let right = x + 1 < width;
    let below = y + 1 < height;
    let sum = chroma_at(src, stride, x, y, red)
        + (if right { chroma_at(src, stride, x + 1, y, red) } else { 0 })
        + (if below { chroma_at(src, stride, x, y + 1, red) } else { 0 })
        + (if right && below { chroma_at(src, stride, x + 1, y + 1, red) } else { 0 });
    let count = 1 + (if right { 1int } else { 0 }) + (if below { 1int } else { 0 }) + (if right
        && below { 1int } else { 0 });
    sum / count
}

pub open spec fn luma_plane(src: Seq<u8>, width: nat, height: nat, stride: nat) -> Seq<u8> {
    Seq::new(
        width * height,
        |i: int| luma_at(src, stride, (i % width as int) as nat, (i / width as int) as nat) as u8,
    )
}

pub open spec fn chroma_plane(
    src: Seq<u8>,
    width: nat,
    height: nat,
    stride: nat,
    red: bool,
) -> Seq<u8> {
    let cw = half_up(width);
    Seq::new(
        cw * half_up(height),
        |i: int|
            block_chroma(
                src,
                width,
                height,
                stride,
                (i % cw as int) as nat,
                (i / cw as int) as nat,
                red,
            ) as u8,
    )
}

/// The planar frame: luma, then `U`, then `V`, each plane row by row.
pub open spec fn i420_of(src: Seq<u8>, width: nat, height: nat, stride: nat) -> Seq<u8> {
    luma_plane(src, width, height, stride) + chroma_plane(src, width, height, stride, false)
        + chroma_plane(src, width, height, stride, true)
}

proof fn lemma_pixel_in_frame(width: nat, height: nat, stride: nat, len: nat, x: nat, y: nat)
    requires
        frame_fits(width, height, stride, len),
        x < width,
        y < height,
    ensures
        pixel_offset(stride, x, y) + 3 < len,
{
    lemma_mul_inequality((y + 1) as int, height as int, stride as int);
    assert((y + 1) * stride == y * stride + stride) by (nonlinear_arith);
}

proof fn lemma_mean_bounded(sum: int, count: int)
    requires
        0 <= sum <= 255 * count,
        count > 0,
    ensures
        sum / count <= 255,
{
    assert(sum / count <= 255) by (nonlinear_arith)
        requires
            0 <= sum <= 255 * count,
            count > 0,
    ;
}

proof fn lemma_row_major(k: int, d: int, q: int, r: int)
    requires
        0 <= r < d,
        k == q * d + r,
    ensures
        k % d == r,
        k / d == q,
{
    lemma_fundamental_div_mod_converse(k, d, q, r);
}

fn luma_of(b: u8, g: u8, r: u8) -> (y: u8)
    ensures
        y as int == luma(r as int, g as int, b as int),
{
    let s: u32 = 19595 * (r as u32) + 38470 * (g as u32) + 7471 * (b as u32);
    assert(s / 65536 <= 255) by {
        assert(s < 65536 * 256);
    }
    (s / 65536) as u8
}

fn chroma_of(b: u8, g: u8, r: u8, red: bool) -> (c: u8)
    ensures
        red ==> c as int == chroma_v(r as int, g as int, b as int),
        !red ==> c as int == chroma_u(r as int, g as int, b as int),
{
    let s: u32 = if red {
        32768 * (r as u32) + 8388608 - (27439 * (g as u32) + 5329 * (b as u32))
    } else {
        32768 * (b as u32) + 8388608 - (11059 * (r as u32) + 21709 * (g as u32))
    };
    assert(s / 65536 <= 255) by {
        assert(s < 65536 * 256);
    }
    (s / 65536) as u8
}

fn chroma_at_of(src: &[u8], width: usize, height: usize, stride: usize, x: usize, y: usize, red: bool) -> (c: u8)
    requires
        frame_fits(width as nat, height as nat, stride as nat, src@.len()),
        x < width,
        y < height,
    ensures
        c as int == chroma_at(src@, stride as nat, x as nat, y as nat, red),
{
    proof {
        lemma_pixel_in_frame(width as nat, height as nat, stride as nat, src@.len(), x as nat, y as nat);
    }
    let len = src.len();
    assert(y * stride <= pixel_offset(stride as nat, x as nat, y as nat) < len);
    let o = y * stride + 4 * x;
    chroma_of(src[o], src[o + 1], src[o + 2], red)
}

fn block_chroma_of(
    src: &[u8],
    width: usize,
    height: usize,
    stride: usize,
    bx: usize,
    by: usize,
    red: bool,
) -> (c: u8)
    requires
        frame_fits(width as nat, height as nat, stride as nat, src@.len()),
        2 * bx < width,
        2 * by < height,
    ensures
        c as int == block_chroma(src@, width as nat, height as nat, stride as nat, bx as nat, by as nat, red),
{
    let x = 2 * bx;
    let y = 2 * by;
    let right = x + 1 < width;
    let below = y + 1 < height;
    let mut sum: u32 = chroma_at_of(src, width, height, stride, x, y, red) as u32;
    let mut count: u32 = 1;
    if right {
        sum = sum + chroma_at_of(src, width, height, stride, x + 1, y, red) as u32;
        count = count + 1;
    }
    if below {
        sum = sum + chroma_at_of(src, width, height, stride, x, y + 1, red) as u32;
        count = count + 1;
    }
    if right && below {
        sum = sum + chroma_at_of(src, width, height, stride, x + 1, y + 1, red) as u32;
        count = count + 1;
    }
    proof {
        lemma_mean_bounded(sum as int, count as int);
    }
    (sum / count) as u8
}

proof fn lemma_next_in_grid(cols: nat, rows: nat, col: nat, row: nat)
    requires
        col < cols,
        row < rows,
    ensures
        row * cols + col < cols * rows,
        row * cols + col + 1 <= (row + 1) * cols,
        (row + 1) * cols == row * cols + cols,
{
    lemma_mul_inequality((row + 1) as int, rows as int, cols as int);
    assert((row + 1) * cols == row * cols + cols) by (nonlinear_arith);
    assert(rows * cols == cols * rows) by (nonlinear_arith);
}

/// Appends the luma plane of the raster to `dest`.
fn push_luma_plane(src: &[u8], width: usize, height: usize, stride: usize, dest: &mut Vec<u8>)
    requires
        frame_fits(width as nat, height as nat, stride as nat, src@.len()),
    ensures
        final(dest)@ == old(dest)@ + luma_plane(src@, width as nat, height as nat, stride as nat),
{
    let ghost base = old(dest)@;
    let ghost plane = luma_plane(src@, width as nat, height as nat, stride as nat);
    let mut y: usize = 0;
    while y < height
        invariant
            frame_fits(width as nat, height as nat, stride as nat, src@.len()),
            plane == luma_plane(src@, width as nat, height as nat, stride as nat),
            y <= height,
            dest@.len() == base.len() + y * width,
            forall|j: int| 0 <= j < base.len() ==> dest@[j] == base[j],
            forall|j: int| 0 <= j < y * width ==> dest@[base.len() + j] == plane[j],
        decreases height - y,
    {
        let mut x: usize = 0;
        while x < width
            invariant
                frame_fits(width as nat, height as nat, stride as nat, src@.len()),
                plane == luma_plane(src@, width as nat, height as nat, stride as nat),
                y < height,
                x <= width,
                dest@.len() == base.len() + y * width + x,
                forall|j: int| 0 <= j < base.len() ==> dest@[j] == base[j],
                forall|j: int| 0 <= j < y * width + x ==> dest@[base.len() + j] == plane[j],
            decreases width - x,
        {
            proof {
                lemma_pixel_in_frame(width as nat, height as nat, stride as nat, src@.len(), x as nat, y as nat);
                lemma_next_in_grid(width as nat, height as nat, x as nat, y as nat);
                lemma_row_major(y * width + x, width as int, y as int, x as int);
            }
            let len = src.len();
            assert(y * stride <= pixel_offset(stride as nat, x as nat, y as nat) < len);
            let o = y * stride + 4 * x;
            let v = luma_of(src[o], src[o + 1], src[o + 2]);
            assert(plane[y * width + x] == v);
            dest.push(v);
            x = x + 1;
        }
        proof {
            assert((y + 1) * width == y * width + width) by (nonlinear_arith);
        }
        y = y + 1;
    }
    assert(y * width == width * height) by (nonlinear_arith)
        requires y == height;
    assert(dest@ =~= base + plane);
}

/// Appends the `U` plane (or the `V` plane, when `red` holds) to `dest`.
fn push_chroma_plane(
    src: &[u8],
    width: usize,
    height: usize,
    stride: usize,
    red: bool,
    dest: &mut Vec<u8>,
)
    requires
        frame_fits(width as nat, height as nat, stride as nat, src@.len()),
    ensures
        final(dest)@ == old(dest)@ + chroma_plane(src@, width as nat, height as nat, stride as nat, red),
{
    let ghost base = old(dest)@;
    let ghost plane = chroma_plane(src@, width as nat, height as nat, stride as nat, red);
    let cols = width / 2 + width % 2;
    let rows = height / 2 + height % 2;
    assert(cols == half_up(width as nat) && rows == half_up(height as nat));
    let mut by: usize = 0;
    while by < rows
        invariant
            frame_fits(width as nat, height as nat, stride as nat, src@.len()),
            plane == chroma_plane(src@, width as nat, height as nat, stride as nat, red),
            cols == half_up(width as nat),
            rows == half_up(height as nat),
            by <= rows,
            dest@.len() == base.len() + by * cols,
            forall|j: int| 0 <= j < base.len() ==> dest@[j] == base[j],
            forall|j: int| 0 <= j < by * cols ==> dest@[base.len() + j] == plane[j],
        decreases rows - by,
    {
        let mut bx: usize = 0;
        while bx < cols
            invariant
                frame_fits(width as nat, height as nat, stride as nat, src@.len()),
                plane == chroma_plane(src@, width as nat, height as nat, stride as nat, red),
                cols == half_up(width as nat),
                rows == half_up(height as nat),
                by < rows,
                bx <= cols,
                dest@.len() == base.len() + by * cols + bx,
                forall|j: int| 0 <= j < base.len() ==> dest@[j] == base[j],
                forall|j: int| 0 <= j < by * cols + bx ==> dest@[base.len() + j] == plane[j],
            decreases cols - bx,
        {
            proof {
                lemma_next_in_grid(cols as nat, rows as nat, bx as nat, by as nat);
                lemma_row_major(by * cols + bx, cols as int, by as int, bx as int);
            }
            let v = block_chroma_of(src, width, height, stride, bx, by, red);
            assert(plane[by * cols + bx] == v);
            dest.push(v);
            bx = bx + 1;
        }
        proof {
            assert((by + 1) * cols == by * cols + cols) by (nonlinear_arith);
        }
        by = by + 1;
    }
    assert(by * cols == cols * rows) by (nonlinear_arith)
        requires by == rows;
    assert(dest@ =~= base + plane);
}

/// Converts a BGRA raster of `width × height` pixels, whose rows start
/// `stride` bytes apart, into planar 4:2:0 bytes. `dest` is cleared and
/// refilled, so its allocation is reused from one frame to the next.
pub fn argb_to_i420(width: usize, height: usize, stride: usize, src: &[u8], dest: &mut Vec<u8>)
    requires
        frame_fits(width as nat, height as nat, stride as nat, src@.len()),
    ensures
        final(dest)@ == i420_of(src@, width as nat, height as nat, stride as nat),
        final(dest)@.len() == i420_len(width as nat, height as nat),
{
    dest.clear();
    push_luma_plane(src, width, height, stride, dest);
    push_chroma_plane(src, width, height, stride, false, dest);
    push_chroma_plane(src, width, height, stride, true, dest);
    assert(dest@ =~= i420_of(src@, width as nat, height as nat, stride as nat));
}

} // verus!
