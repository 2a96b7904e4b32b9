//! Pieces of the native terminal renderer that do not touch the GPU: the
//! xterm 256-colour palette, the surface size kept until the renderer is
//! ready, and the PPM image written from a captured frame.

use vstd::prelude::*;

verus! {

/// The 16 basic ANSI colours (VGA palette).
pub open spec fn basic_palette() -> Seq<(u8, u8, u8)> {
    seq![
        (0u8, 0u8, 0u8),
        (170u8, 0u8, 0u8),
        (0u8, 170u8, 0u8),
        (170u8, 170u8, 0u8),
        (0u8, 0u8, 170u8),
        (170u8, 0u8, 170u8),
        (0u8, 170u8, 170u8),
        (170u8, 170u8, 170u8),
        (85u8, 85u8, 85u8),
        (255u8, 85u8, 85u8),
        (85u8, 255u8, 85u8),
        (255u8, 255u8, 85u8),
        (85u8, 85u8, 255u8),
        (255u8, 85u8, 255u8),
        (85u8, 255u8, 255u8),
        (255u8, 255u8, 255u8),
    ]
}

/// The intensity of step `v` (0 to 5) of the colour cube.
pub open spec fn cube_level(v: int) -> u8 {
    if v == 0 {
        0
    } else {
        (55 + v * 40) as u8
    }
}

/// The RGB colour of the xterm palette index `idx`: the 16 basic colours,
/// the 6×6×6 colour cube (16 to 231), then the greyscale ramp (232 on,
/// truncated to 8 bits past 255).
pub open spec fn palette_color(idx: int) -> (u8, u8, u8) {
    if idx < 16 {
        basic_palette()[idx]
    } else if idx < 232 {
        let i = idx - 16;
        (cube_level(i / 36), cube_level((i / 6) % 6), cube_level(i % 6))
    } else {
        let v = (8 + (idx - 232) * 10) as u8;
        (v, v, v)
    }
}

fn cube_level_exec(v: usize) -> (r: u8)
    requires
        v < 6,
    ensures
        r == cube_level(v as int),
{
    if v == 0 {
        0
    } else {
        (55 + v * 40) as u8
    }
}

/// The RGB colour of the xterm palette index `idx`.
pub fn ansi_palette_color(idx: usize) -> (r: (u8, u8, u8))
    requires
        idx < 232 || 8 + (idx - 232) * 10 <= usize::MAX,
    ensures
        r == palette_color(idx as int),
{
    let palette: [(u8, u8, u8); 16] = [
        (0, 0, 0),
        (170, 0, 0),
        (0, 170, 0),
        (170, 170, 0),
        (0, 0, 170),
        (170, 0, 170),
        (0, 170, 170),
        (170, 170, 170),
        (85, 85, 85),
        (255, 85, 85),
        (85, 255, 85),
        (255, 255, 85),
        (85, 85, 255),
        (255, 85, 255),
        (85, 255, 255),
        (255, 255, 255),
    ];
    if idx < 16 {
        assert(palette@ =~= basic_palette());
        return palette[idx];
    }
    if idx < 232 {
        let i = idx - 16;
        return (cube_level_exec(i / 36), cube_level_exec((i / 6) % 6), cube_level_exec(i % 6));
    }
    let v = (8 + (idx - 232) * 10) as u8;
    (v, v, v)
}

/// Keep the surface size until the renderer, still starting up, reads it.
pub fn store_pending_size(pending: &mut Option<(u32, u32)>, width: u32, height: u32)
    ensures
        *final(pending) == Some((width, height)),
{
    *pending = Some((width, height));
}

// ---------------------------------------------------------------------------
// Captured frames as PPM images
// ---------------------------------------------------------------------------

/// The ASCII decimal digits of `n`, without leading zeros.
pub open spec fn decimal_bytes(n: nat) -> Seq<u8>
    decreases n,
{
    if n < 10 {
        seq![(48 + n) as u8]
    } else {
        decimal_bytes(n / 10) + seq![(48 + n % 10) as u8]
    }
}

/// The header `"P6\n{width} {height}\n255\n"` of a binary PPM image.
pub open spec fn ppm_header(width: nat, height: nat) -> Seq<u8> {
    seq![80u8, 54u8, 10u8] + decimal_bytes(width) + seq![32u8] + decimal_bytes(height) + seq![
        10u8,
        50u8,
        53u8,
        53u8,
        10u8,
    ]
}

/// The red, green and blue bytes of the first `n` BGRA pixels of `data` from
/// `start` on.
pub open spec fn row_rgb(data: Seq<u8>, start: int, n: nat) -> Seq<u8>
    decreases n,
{
    if n == 0 {
        Seq::empty()
    } else {
        let i = start + 4 * (n - 1);
        row_rgb(data, start, (n - 1) as nat) + seq![data[i + 2], data[i + 1], data[i]]
    }
}

/// The RGB bytes of the first `rows` rows of `width` BGRA pixels each, the
/// rows `padded_row` bytes apart in `data`.
pub open spec fn rows_rgb(data: Seq<u8>, width: nat, padded_row: nat, rows: nat) -> Seq<u8>
    decreases rows,
{
    if rows == 0 {
        Seq::empty()
    } else {
        rows_rgb(data, width, padded_row, (rows - 1) as nat) + row_rgb(
            data,
            (rows - 1) * padded_row,
            width,
        )
    }
}

fn push_decimal_bytes(out: &mut Vec<u8>, n: u64)
    ensures
        final(out)@ == old(out)@ + decimal_bytes(n as nat),
    decreases n,
{
    if n >= 10 {
        push_decimal_bytes(out, n / 10);
    }
    let d: u64 = n % 10;
    out.push((48 + d) as u8);
    assert(out@ =~= old(out)@ + decimal_bytes(n as nat));
}

/// The bytes per row of a frame `width` pixels wide when copied out of the
/// GPU: four bytes a pixel, rounded up to a multiple of 256.
pub fn padded_row_bytes(width: u32) -> (r: u32)
    requires
        width * 4 + 255 <= u32::MAX,
    ensures
        r == (width * 4 + 255) / 256 * 256,
{
    (width * 4 + 255) / 256 * 256
}

/// A captured BGRA frame as a binary PPM image: the header, then for each of
/// the `height` rows, which stand `padded_row` bytes apart in `data`, the
/// red, green and blue bytes of its `width` pixels; the alpha bytes and the
/// row padding are dropped.
pub fn ppm_from_bgra(data: &[u8], width: u32, height: u32, padded_row: u32) -> (r: Vec<u8>)
    requires
        width * 4 <= u32::MAX,
        height > 0 ==> (height - 1) * padded_row + width * 4 <= data@.len(),
    ensures
        r@ == ppm_header(width as nat, height as nat) + rows_rgb(
            data@,
            width as nat,
            padded_row as nat,
            height as nat,
        ),
{
    let mut out: Vec<u8> = Vec::new();
    out.push(80u8);
    out.push(54u8);
    out.push(10u8);
    push_decimal_bytes(&mut out, width as u64);
    out.push(32u8);
    push_decimal_bytes(&mut out, height as u64);
    out.push(10u8);
    out.push(50u8);
    out.push(53u8);
    out.push(53u8);
    out.push(10u8);
    let ghost hdr = out@;
    assert(hdr =~= ppm_header(width as nat, height as nat));
    assert(out@ =~= hdr + rows_rgb(data@, width as nat, padded_row as nat, 0));
    let w = width as usize;
    let p = padded_row as usize;
    let h = height as usize;
    let n = data.len();
    let mut y: usize = 0;
    let mut start: usize = 0;
    while y < h
        invariant
            w == width,
            p == padded_row,
            h == height,
            n == data@.len(),
            w * 4 <= u32::MAX,
            y <= h,
            y < h ==> start == y * p,
            h > 0 ==> (h - 1) * p + w * 4 <= data@.len(),
            hdr == ppm_header(width as nat, height as nat),
            out@ == hdr + rows_rgb(data@, w as nat, p as nat, y as nat),
        decreases h - y,
    {
        proof {
            assert(y * p <= (h - 1) * p) by (nonlinear_arith)
                requires
                    y <= h - 1,
            ;
        }
        let ghost before = out@;
        let mut x: usize = 0;
        while x < w
            invariant
                x <= w,
                n == data@.len(),
                w * 4 <= u32::MAX,
                start + w * 4 <= data@.len(),
                out@ == before + row_rgb(data@, start as int, x as nat),
            decreases w - x,
        {
            let i = start + 4 * x;
            out.push(data[i + 2]);
            out.push(data[i + 1]);
            out.push(data[i]);
            assert(out@ =~= before + row_rgb(data@, start as int, (x + 1) as nat));
            x = x + 1;
        }
        assert(rows_rgb(data@, w as nat, p as nat, (y + 1) as nat) =~= rows_rgb(
            data@,
            w as nat,
            p as nat,
            y as nat,
        ) + row_rgb(data@, start as int, w as nat));
        y = y + 1;
        if y < h {
            proof {
                assert(y * p == (y - 1) * p + p) by (nonlinear_arith);
                assert(y * p <= (h - 1) * p) by (nonlinear_arith)
                    requires
                        y <= h - 1,
                ;
            }
            start = start + p;
        }
    }
    out
}

} // verus!
