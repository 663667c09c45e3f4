use vstd::prelude::*;
use vstd::arithmetic::div_mod::lemma_fundamental_div_mod_converse;
use crate::format::{PixelFormat, PixelKind, kind_of, bytes_per_pixel, channels, is_big_endian, image_kind, pixel_size};
use crate::maps::{FixedPoint, LookupTable};

verus! {

/// Size, format and row stride of one frame's single plane.
#[derive(Clone, Copy, Debug, PartialEq, Eq, Structural)]
pub struct FrameGeometry {
    pub width: usize,
    pub height: usize,
    pub format: PixelFormat,
    pub stride: usize,
}

#[derive(Clone, Copy, Debug, PartialEq, Eq, Structural)]
pub enum TransformError {
    /// Geometry or lookup table is missing or inconsistent.
    NotNegotiated,
    /// A frame's memory is smaller than its geometry needs.
    BufferMapFailed,
}

pub open spec fn bpp_of(g: FrameGeometry) -> nat {
    bytes_per_pixel(kind_of(g.format))
}

/// The largest value one sample of the kind can hold.
pub open spec fn max_sample(k: PixelKind) -> int {
    if k == PixelKind::U16C1 { 65535 } else { 255 }
}

/// A packed row fits in the stride.
pub open spec fn geometry_ok(g: FrameGeometry) -> bool {
    g.width * bpp_of(g) <= g.stride
}

/// The frame's rows fit in a buffer of `len` bytes.
pub open spec fn fits(g: FrameGeometry, len: int) -> bool {
    g.stride * g.height <= len
}

/// What a transform needs before it can run.
pub open spec fn negotiated(ig: FrameGeometry, og: FrameGeometry, t: LookupTable) -> bool {
    &&& !t.is_empty_table()
    &&& t.width == og.width
    &&& t.height == og.height
    &&& kind_of(ig.format) == kind_of(og.format)
    &&& geometry_ok(ig)
    &&& geometry_ok(og)
}

/// Channel `c` of input pixel (x, y); the border color (zero) outside the frame.
pub open spec fn sample(inp: Seq<u8>, g: FrameGeometry, x: int, y: int, c: int) -> int {
    if 0 <= x < g.width && 0 <= y < g.height {
        let base = y * g.stride + x * bpp_of(g);
        if kind_of(g.format) == PixelKind::U16C1 {
            if is_big_endian(g.format) {
                inp[base] as int * 256 + inp[base + 1] as int
            } else {
                inp[base] as int + inp[base + 1] as int * 256
            }
        } else {
            inp[base + c] as int
        }
    } else {
        0
    }
}

/// Bilinear interpolation of channel `c` at a fixed-point location, with
/// weights in 1024ths rounded to nearest.
pub open spec fn interp(inp: Seq<u8>, g: FrameGeometry, p: FixedPoint, c: int) -> int {
    let x = p.x as int;
    let y = p.y as int;
    let fx = p.fx as int;
    let fy = p.fy as int;
    ((32 - fx) * (32 - fy) * sample(inp, g, x, y, c) + fx * (32 - fy) * sample(inp, g, x + 1, y, c)
        + (32 - fx) * fy * sample(inp, g, x, y + 1, c) + fx * fy * sample(inp, g, x + 1, y + 1, c)
        + 512) / 1024
}

/// Byte `k` of output pixel (x, y).
pub open spec fn out_byte(
    inp: Seq<u8>,
    ig: FrameGeometry,
    og: FrameGeometry,
    t: LookupTable,
    x: int,
    y: int,
    k: int,
) -> u8 {
    let p = t.entries@[y * t.width + x];
    if kind_of(og.format) == PixelKind::U16C1 {
        let v = interp(inp, ig, p, 0);
        if (k == 0) == is_big_endian(og.format) {
            (v / 256) as u8
        } else {
            (v % 256) as u8
        }
    } else {
        interp(inp, ig, p, k) as u8
    }
}

/// Byte `i` of the output buffer after a transform: pixel bytes are resampled,
/// row padding and the tail keep what `prev` held.
pub open spec fn frame_byte(
    prev: Seq<u8>,
    inp: Seq<u8>,
    ig: FrameGeometry,
    og: FrameGeometry,
    t: LookupTable,
    i: int,
) -> u8 {
    let y = i / og.stride as int;
    let r = i % og.stride as int;
    if og.stride > 0 && y < og.height && r < og.width * bpp_of(og) {
        out_byte(inp, ig, og, t, r / bpp_of(og) as int, y, r % bpp_of(og) as int)
    } else {
        prev[i]
    }
}

proof fn lemma_row_bound(y: int, h: int, a: int, s: int)
    requires
        0 <= y < h,
        0 <= a < s,
    ensures
        0 <= y * s + a < s * h,
        y * s <= y * s + a,
{
    assert(0 <= y * s) by (nonlinear_arith)
        requires
            0 <= y,
            0 <= s,
    ;
    assert(y * s + s <= s * h) by (nonlinear_arith)
        requires
            y < h,
            0 <= s,
    ;
}

proof fn lemma_split(y: int, r: int, s: int)
    requires
        0 <= r < s,
    ensures
        (y * s + r) / s == y,
        (y * s + r) % s == r,
{
    lemma_fundamental_div_mod_converse(y * s + r, s, y, r);
}

proof fn lemma_past_rows(i: int, h: int, s: int)
    requires
        s > 0,
        h >= 0,
        i >= h * s,
    ensures
        i / s >= h,
{
    vstd::arithmetic::div_mod::lemma_fundamental_div_mod(i, s);
    let q = i / s;
    if q < h {
        assert(s * q + s <= h * s) by (nonlinear_arith)
            requires
                q < h,
                s > 0,
        ;
    }
}

proof fn lemma_interp_bound(s00: int, s10: int, s01: int, s11: int, fx: int, fy: int, m: int)
    requires
        0 <= fx < 32,
        0 <= fy < 32,
        0 <= s00 <= m,
        0 <= s10 <= m,
        0 <= s01 <= m,
        0 <= s11 <= m,
    ensures
        0 <= (32 - fx) * (32 - fy) * s00 + fx * (32 - fy) * s10 + (32 - fx) * fy * s01 + fx * fy
            * s11 <= 1024 * m,
        0 <= ((32 - fx) * (32 - fy) * s00 + fx * (32 - fy) * s10 + (32 - fx) * fy * s01 + fx * fy
            * s11 + 512) / 1024 <= m,
{
    let a = (32 - fx) * (32 - fy);
    let b = fx * (32 - fy);
    let c = (32 - fx) * fy;
    let d = fx * fy;
    assert(a + b + c + d == 1024 && 0 <= a && 0 <= b && 0 <= c && 0 <= d) by (nonlinear_arith)
        requires
            a == (32 - fx) * (32 - fy),
            b == fx * (32 - fy),
            c == (32 - fx) * fy,
            d == fx * fy,
            0 <= fx < 32,
            0 <= fy < 32,
    ;
    assert(0 <= a * s00 + b * s10 + c * s01 + d * s11 <= 1024 * m) by (nonlinear_arith)
        requires
            a + b + c + d == 1024,
            0 <= a,
            0 <= b,
            0 <= c,
            0 <= d,
            0 <= s00 <= m,
            0 <= s10 <= m,
            0 <= s01 <= m,
            0 <= s11 <= m,
    ;
    let sum = a * s00 + b * s10 + c * s01 + d * s11;
    assert((sum + 512) / 1024 <= m) by {
        vstd::arithmetic::div_mod::lemma_fundamental_div_mod(sum + 512, 1024);
    }
}

/// Channel `c` of input pixel (x, y), or zero outside the frame.
fn read_sample(inp: &Vec<u8>, g: &FrameGeometry, bpp: usize, x: i32, y: i32, c: usize) -> (v: u64)
    requires
        geometry_ok(*g),
        fits(*g, inp@.len() as int),
        bpp == bpp_of(*g),
        c < channels(kind_of(g.format)),
    ensures
        v == sample(inp@, *g, x as int, y as int, c as int),
        v <= max_sample(kind_of(g.format)),
{
    if x < 0 || y < 0 {
        return 0;
    }
    let ux = x as usize;
    let uy = y as usize;
    if ux >= g.width || uy >= g.height {
        return 0;
    }
    let kind = image_kind(g.format);
    // The buffer's length is a usize, so an index below it cannot overflow.
    let in_len = inp.len();
    proof {
        assert((ux as int) * bpp + bpp <= g.width * bpp) by (nonlinear_arith)
            requires
                ux < g.width,
        ;
        lemma_row_bound(uy as int, g.height as int, ux as int * bpp + c, g.stride as int);
        if kind == PixelKind::U16C1 {
            lemma_row_bound(uy as int, g.height as int, ux as int * bpp + 1, g.stride as int);
        }
        assert((uy as int) * g.stride + ux * bpp + c < in_len);
    }
    let base = uy * g.stride + ux * bpp;
    match kind {
        PixelKind::U16C1 => {
            let b0 = inp[base] as u64;
            let b1 = inp[base + 1] as u64;
            if g.format == PixelFormat::Gray16Be {
                b0 * 256 + b1
            } else {
                b0 + b1 * 256
            }
        },
        _ => inp[base + c] as u64,
    }
}

/// Bilinear sample of channel `c` at a fixed-point location.
fn interpolate(inp: &Vec<u8>, g: &FrameGeometry, bpp: usize, p: FixedPoint, c: usize) -> (v: u64)
    requires
        geometry_ok(*g),
        fits(*g, inp@.len() as int),
        bpp == bpp_of(*g),
        c < channels(kind_of(g.format)),
        p.fx < 32,
        p.fy < 32,
    ensures
        v == interp(inp@, *g, p, c as int),
        v <= max_sample(kind_of(g.format)),
{
    let x = p.x as i32;
    let y = p.y as i32;
    let s00 = read_sample(inp, g, bpp, x, y, c);
    let s10 = read_sample(inp, g, bpp, x + 1, y, c);
    let s01 = read_sample(inp, g, bpp, x, y + 1, c);
    let s11 = read_sample(inp, g, bpp, x + 1, y + 1, c);
    let fx = p.fx as u64;
    let fy = p.fy as u64;
    proof {
        lemma_interp_bound(
            s00 as int,
            s10 as int,
            s01 as int,
            s11 as int,
            fx as int,
            fy as int,
            max_sample(kind_of(g.format)),
        );
        assert((32 - fx) * (32 - fy) <= 1024 && fx * (32 - fy) <= 1024 && (32 - fx) * fy <= 1024
            && fx * fy <= 1024) by (nonlinear_arith)
            requires
                fx < 32,
                fy < 32,
        ;
    }
    let w00 = (32 - fx) * (32 - fy);
    let w10 = fx * (32 - fy);
    let w01 = (32 - fx) * fy;
    let w11 = fx * fy;
    proof {
        assert(w00 * s00 <= 1024 * 65535 && w10 * s10 <= 1024 * 65535 && w01 * s01 <= 1024 * 65535
            && w11 * s11 <= 1024 * 65535) by (nonlinear_arith)
            requires
                w00 <= 1024,
                w10 <= 1024,
                w01 <= 1024,
                w11 <= 1024,
                s00 <= 65535,
                s10 <= 65535,
                s01 <= 65535,
                s11 <= 65535,
        ;
    }
    let sum = w00 * s00 + w10 * s10 + w01 * s01 + w11 * s11;
    (sum + 512) / 1024
}

/// Byte `k` of output pixel (x, y), computed from the lookup table.
fn compute_byte(
    inp: &Vec<u8>,
    ig: &FrameGeometry,
    og: &FrameGeometry,
    table: &LookupTable,
    ibpp: usize,
    x: usize,
    y: usize,
    k: usize,
) -> (b: u8)
    requires
        table.wf(),
        negotiated(*ig, *og, *table),
        fits(*ig, inp@.len() as int),
        ibpp == bpp_of(*ig),
        x < og.width,
        y < og.height,
        k < bpp_of(*og),
    ensures
        b == out_byte(inp@, *ig, *og, *table, x as int, y as int, k as int),
{
    proof {
        lemma_row_bound(y as int, og.height as int, x as int, og.width as int);
    }
    // The table's length is a usize, so an index below it cannot overflow.
    let n_entries = table.entries.len();
    proof {
        assert((y as int) * table.width + x < n_entries);
    }
    let idx = y * table.width + x;
    let p = table.entries[idx];
    match image_kind(og.format) {
        PixelKind::U16C1 => {
            let v = interpolate(inp, ig, ibpp, p, 0);
            if (k == 0) == (og.format == PixelFormat::Gray16Be) {
                (v / 256) as u8
            } else {
                (v % 256) as u8
            }
        },
        _ => {
            let v = interpolate(inp, ig, ibpp, p, k);
            v as u8
        },
    }
}

/// Whether a transform would fail, and with which error.
pub open spec fn transform_error(
    ig: FrameGeometry,
    og: FrameGeometry,
    t: LookupTable,
    in_len: int,
    out_len: int,
) -> Option<TransformError> {
    if !negotiated(ig, og, t) {
        Some(TransformError::NotNegotiated)
    } else if !fits(ig, in_len) || !fits(og, out_len) {
        Some(TransformError::BufferMapFailed)
    } else {
        None
    }
}

/// Whether a packed row of the frame fits in its stride, without overflow.
pub(crate) fn checked_geometry(g: &FrameGeometry, bpp: usize) -> (r: bool)
    requires
        bpp == bpp_of(*g),
    ensures
        r == geometry_ok(*g),
{
    match g.width.checked_mul(bpp) {
        Some(n) => n <= g.stride,
        None => false,
    }
}

fn checked_fits(g: &FrameGeometry, len: usize) -> (r: bool)
    ensures
        r == fits(*g, len as int),
{
    match g.stride.checked_mul(g.height) {
        Some(n) => n <= len,
        None => false,
    }
}

/// Resample `input` into `output` through the lookup table: every pixel byte
/// of the output is overwritten, row padding is left as it was.
pub fn remap_frame(
    input: &Vec<u8>,
    in_geom: &FrameGeometry,
    output: &mut Vec<u8>,
    out_geom: &FrameGeometry,
    table: &LookupTable,
) -> (r: Result<(), TransformError>)
    requires
        table.wf(),
    ensures
        final(output)@.len() == old(output)@.len(),
        r matches Err(e) ==> transform_error(
            *in_geom,
            *out_geom,
            *table,
            input@.len() as int,
            old(output)@.len() as int,
        ) == Some(e) && final(output)@ == old(output)@,
        r is Ok ==> transform_error(
            *in_geom,
            *out_geom,
            *table,
            input@.len() as int,
            old(output)@.len() as int,
        ) is None,
        r is Ok ==> forall|i: int|
            0 <= i < final(output)@.len() ==> #[trigger] final(output)@[i] == frame_byte(
                old(output)@,
                input@,
                *in_geom,
                *out_geom,
                *table,
                i,
            ),
{
    let ibpp = pixel_size(image_kind(in_geom.format));
    let obpp = pixel_size(image_kind(out_geom.format));
    if table.is_empty() || table.width != out_geom.width || table.height != out_geom.height
        || image_kind(in_geom.format) != image_kind(out_geom.format) || !checked_geometry(
        in_geom,
        ibpp,
    ) || !checked_geometry(out_geom, obpp) {
        return Err(TransformError::NotNegotiated);
    }
    if !checked_fits(in_geom, input.len()) || !checked_fits(out_geom, output.len()) {
        return Err(TransformError::BufferMapFailed);
    }
    let out_len = output.len();
    let ghost prev = output@;
    let ow = out_geom.width;
    let oh = out_geom.height;
    let os = out_geom.stride;
    let row_len = ow * obpp;
    proof {
        assert(ow > 0 && oh > 0) by {
            if ow == 0 || oh == 0 {
                assert(ow * oh == 0) by (nonlinear_arith)
                    requires
                        ow == 0 || oh == 0,
                ;
            }
        }
        assert(ow * obpp >= 1) by (nonlinear_arith)
            requires
                ow > 0,
                obpp >= 1,
        ;
    }
    let mut y: usize = 0;
    while y < oh
        invariant
            table.wf(),
            negotiated(*in_geom, *out_geom, *table),
            fits(*in_geom, input@.len() as int),
            fits(*out_geom, prev.len() as int),
            ibpp == bpp_of(*in_geom),
            obpp == bpp_of(*out_geom),
            ow == out_geom.width,
            oh == out_geom.height,
            os == out_geom.stride,
            row_len == ow * obpp,
            0 < row_len <= os,
            y <= oh,
            output@.len() == prev.len(),
            prev.len() == out_len,
            forall|i: int|
                0 <= i < output@.len() ==> #[trigger] output@[i] == if i < y * os {
                    frame_byte(prev, input@, *in_geom, *out_geom, *table, i)
                } else {
                    prev[i]
                },
        decreases oh - y,
    {
        proof {
            lemma_row_bound(y as int, oh as int, 0, os as int);
        }
        let row = y * os;
        let mut j: usize = 0;
        while j < row_len
            invariant
                table.wf(),
                negotiated(*in_geom, *out_geom, *table),
                fits(*in_geom, input@.len() as int),
                fits(*out_geom, prev.len() as int),
                ibpp == bpp_of(*in_geom),
                obpp == bpp_of(*out_geom),
                ow == out_geom.width,
                oh == out_geom.height,
                os == out_geom.stride,
                row_len == ow * obpp,
                0 < row_len <= os,
                y < oh,
                row == y * os,
                j <= row_len,
                output@.len() == prev.len(),
                prev.len() == out_len,
                forall|i: int|
                    0 <= i < output@.len() ==> #[trigger] output@[i] == if i < row + j {
                        frame_byte(prev, input@, *in_geom, *out_geom, *table, i)
                    } else {
                        prev[i]
                    },
            decreases row_len - j,
        {
            let x = j / obpp;
            let k = j % obpp;
            proof {
                lemma_row_bound(y as int, oh as int, j as int, os as int);
                lemma_split(y as int, j as int, os as int);
                vstd::arithmetic::div_mod::lemma_fundamental_div_mod(j as int, obpp as int);
                assert(x < ow) by (nonlinear_arith)
                    requires
                        j < ow * obpp,
                        j == obpp * x + k,
                        0 <= k,
                        obpp > 0,
                ;
            }
            let b = compute_byte(input, in_geom, out_geom, table, ibpp, x, y, k);
            output.set(row + j, b);
            j = j + 1;
        }
        proof {
            assert forall|i: int| 0 <= i < output@.len() implies #[trigger] output@[i] == if i < (y
                + 1) * os {
                frame_byte(prev, input@, *in_geom, *out_geom, *table, i)
            } else {
                prev[i]
            } by {
                assert((y + 1) * os == y * os + os) by (nonlinear_arith);
                if row + row_len <= i < (y + 1) * os {
                    lemma_split(y as int, i - row, os as int);
                }
            }
        }
        y = y + 1;
    }
    proof {
        assert forall|i: int| 0 <= i < output@.len() implies #[trigger] output@[i] == frame_byte(
            prev,
            input@,
            *in_geom,
            *out_geom,
            *table,
            i,
        ) by {
            if i >= oh * os {
                lemma_past_rows(i, oh as int, os as int);
            }
        }
    }
    Ok(())
}

/// A location on a pixel with no fraction reproduces that pixel exactly; with
/// no horizontal fraction only the pixel's own column is read, so a location on
/// the last column never reaches past it.
pub proof fn lemma_on_grid(inp: Seq<u8>, g: FrameGeometry, p: FixedPoint, c: int)
    requires
        p.fx == 0,
        p.fy < 32,
    ensures
        interp(inp, g, p, c) == ((32 - p.fy) * sample(inp, g, p.x as int, p.y as int, c) + p.fy
            * sample(inp, g, p.x as int, p.y + 1, c) + 16) / 32,
        p.fy == 0 ==> interp(inp, g, p, c) == sample(inp, g, p.x as int, p.y as int, c),
{
    let fy = p.fy as int;
    let s00 = sample(inp, g, p.x as int, p.y as int, c);
    let s10 = sample(inp, g, p.x + 1, p.y as int, c);
    let s01 = sample(inp, g, p.x as int, p.y + 1, c);
    let s11 = sample(inp, g, p.x + 1, p.y + 1, c);
    let a = (32 - fy) * s00 + fy * s01;
    assert((32 - 0) * (32 - fy) * s00 + 0 * (32 - fy) * s10 + (32 - 0) * fy * s01 + 0 * fy * s11
        + 512 == 32 * (a + 16)) by (nonlinear_arith)
        requires
            a == (32 - fy) * s00 + fy * s01,
    ;
    assert((32 * (a + 16)) / 1024 == (a + 16) / 32) by {
        vstd::arithmetic::div_mod::lemma_div_denominator(32 * (a + 16), 32, 32);
        vstd::arithmetic::mul::lemma_mul_is_commutative(32, a + 16);
        vstd::arithmetic::div_mod::lemma_div_multiples_vanish(a + 16, 32);
    }
    if fy == 0 {
        assert(a == 32 * s00) by (nonlinear_arith)
            requires
                fy == 0,
                a == (32 - fy) * s00 + fy * s01,
        ;
        vstd::arithmetic::div_mod::lemma_fundamental_div_mod_converse(32 * s00 + 16, 32, s00, 16);
    }
}

/// A location one whole pixel beyond any edge of the input yields the border
/// color (zero) in every channel.
pub proof fn lemma_beyond_edge(inp: Seq<u8>, g: FrameGeometry, p: FixedPoint, c: int)
    requires
        p.fx < 32,
        p.fy < 32,
        (p.fx == 0 && (p.x == g.width || p.x == -1)) || (p.fy == 0 && (p.y == g.height || p.y
            == -1)),
    ensures
        interp(inp, g, p, c) == 0,
{
    let fx = p.fx as int;
    let fy = p.fy as int;
    let s00 = sample(inp, g, p.x as int, p.y as int, c);
    let s10 = sample(inp, g, p.x + 1, p.y as int, c);
    let s01 = sample(inp, g, p.x as int, p.y + 1, c);
    let s11 = sample(inp, g, p.x + 1, p.y + 1, c);
    if p.fx == 0 && (p.x == g.width || p.x == -1) {
        assert(s00 == 0 && s01 == 0);
        assert((32 - fx) * (32 - fy) * s00 + fx * (32 - fy) * s10 + (32 - fx) * fy * s01 + fx * fy
            * s11 == 0) by (nonlinear_arith)
            requires
                fx == 0,
                s00 == 0,
                s01 == 0,
        ;
    } else {
        assert(s00 == 0 && s10 == 0);
        assert((32 - fx) * (32 - fy) * s00 + fx * (32 - fy) * s10 + (32 - fx) * fy * s01 + fx * fy
            * s11 == 0) by (nonlinear_arith)
            requires
                fy == 0,
                s00 == 0,
                s10 == 0,
        ;
    }
}

/// Output byte `k` of pixel (x, y) sits at `y * stride + x * bpp + k`, and
/// `frame_byte` reads it back as that pixel's byte.
proof fn lemma_pixel_index(
    prev: Seq<u8>,
    inp: Seq<u8>,
    ig: FrameGeometry,
    og: FrameGeometry,
    t: LookupTable,
    x: int,
    y: int,
    k: int,
)
    requires
        geometry_ok(og),
        0 <= x < og.width,
        0 <= y < og.height,
        0 <= k < bpp_of(og),
    ensures
        frame_byte(prev, inp, ig, og, t, y * og.stride + x * bpp_of(og) + k) == out_byte(
            inp,
            ig,
            og,
            t,
            x,
            y,
            k,
        ),
{
    let b = bpp_of(og) as int;
    let r = x * b + k;
    assert(0 <= r < og.width * b) by (nonlinear_arith)
        requires
            r == x * b + k,
            0 <= x < og.width,
            0 <= k < b,
    ;
    lemma_split(y, r, og.stride as int);
    lemma_fundamental_div_mod_converse(r, b, x, k);
}

/// A table entry on a whole input pixel (no fraction) copies that pixel's
/// bytes, where input and output share a format: a location on the last row
/// or column reads nothing beyond it.
pub proof fn lemma_frame_on_grid(
    prev: Seq<u8>,
    inp: Seq<u8>,
    ig: FrameGeometry,
    og: FrameGeometry,
    t: LookupTable,
    x: int,
    y: int,
    k: int,
)
    requires
        t.wf(),
        negotiated(ig, og, t),
        ig.format == og.format,
        fits(ig, inp.len() as int),
        0 <= x < og.width,
        0 <= y < og.height,
        0 <= k < bpp_of(og),
        t.entries@[y * t.width + x].fx == 0,
        t.entries@[y * t.width + x].fy == 0,
        0 <= t.entries@[y * t.width + x].x < ig.width,
        0 <= t.entries@[y * t.width + x].y < ig.height,
    ensures
        frame_byte(prev, inp, ig, og, t, y * og.stride + x * bpp_of(og) + k) == inp[t.entries@[y
            * t.width + x].y * ig.stride + t.entries@[y * t.width + x].x * bpp_of(ig) + k],
{
    let p = t.entries@[y * t.width + x];
    lemma_pixel_index(prev, inp, ig, og, t, x, y, k);
    let base = p.y * ig.stride + p.x * bpp_of(ig);
    if kind_of(og.format) == PixelKind::U16C1 {
        lemma_on_grid(inp, ig, p, 0);
        let b0 = inp[base] as int;
        let b1 = inp[base + 1] as int;
        if is_big_endian(og.format) {
            lemma_fundamental_div_mod_converse(b0 * 256 + b1, 256, b0, b1);
        } else {
            lemma_fundamental_div_mod_converse(b0 + b1 * 256, 256, b1, b0);
        }
    } else {
        lemma_on_grid(inp, ig, p, k);
    }
}

/// A table entry one whole pixel beyond any edge of the input gives the
/// border color: every byte of that output pixel is zero.
pub proof fn lemma_frame_beyond_edge(
    prev: Seq<u8>,
    inp: Seq<u8>,
    ig: FrameGeometry,
    og: FrameGeometry,
    t: LookupTable,
    x: int,
    y: int,
    k: int,
)
    requires
        t.wf(),
        negotiated(ig, og, t),
        0 <= x < og.width,
        0 <= y < og.height,
        0 <= k < bpp_of(og),
        ({
            let p = t.entries@[y * t.width + x];
            (p.fx == 0 && (p.x == ig.width || p.x == -1)) || (p.fy == 0 && (p.y == ig.height
                || p.y == -1))
        }),
    ensures
        frame_byte(prev, inp, ig, og, t, y * og.stride + x * bpp_of(og) + k) == 0,
{
    let p = t.entries@[y * t.width + x];
    lemma_pixel_index(prev, inp, ig, og, t, x, y, k);
    lemma_row_bound(y, og.height as int, x, og.width as int);
    assert(p.fx < 32 && p.fy < 32);
    lemma_beyond_edge(inp, ig, p, 0);
    lemma_beyond_edge(inp, ig, p, k);
}

} // verus!
