//! Decoder for the one supported bitmap variant: a big-endian two-byte
//! signature, a fixed little-endian header, 32 bits per pixel, and rows
//! stored bottom-up.  Each pixel's first byte (the blue channel) is quantized
//! into one of five palette indices, clamped so a full-intensity byte stays
//! in range.

use vstd::prelude::*;

use crate::grid::lemma_row_major_bounds;

verus! {

/// A decoded bitmap: a row-major (top row first) grid of palette indices.
pub struct Bitmap {
    pub width: i32,
    pub height: i32,
    pub data: Vec<u8>,
}

impl Bitmap {
    pub open spec fn wf(&self) -> bool {
        &&& 0 <= self.width
        &&& 0 <= self.height
        &&& self.data@.len() == self.width * self.height
    }
}

#[derive(Clone, Copy, PartialEq, Eq, Structural, Debug)]
pub enum BMPError {
    WrongSignature,
    UnsupportedBitsPerPixel,
    IOError,
}

/// Number of palette indices a quantized pixel may take.
pub const NUM_COLORS: u8 = 5;

pub open spec fn u16_be_at(d: Seq<u8>, i: int) -> int {
    d[i] * 0x100 + d[i + 1]
}

pub open spec fn u16_le_at(d: Seq<u8>, i: int) -> int {
    d[i] + d[i + 1] * 0x100
}

pub open spec fn u32_le_at(d: Seq<u8>, i: int) -> int {
    d[i] + d[i + 1] * 0x100 + d[i + 2] * 0x10000 + d[i + 3] * 0x1000000
}

pub open spec fn i32_le_at(d: Seq<u8>, i: int) -> int {
    if u32_le_at(d, i) >= 0x8000_0000 {
        u32_le_at(d, i) - 0x1_0000_0000
    } else {
        u32_le_at(d, i)
    }
}

/// Quantization of a channel byte into a palette index: integer division by
/// 51 (that is, 255 / NUM_COLORS), clamped to NUM_COLORS - 1 so that a byte
/// of 255 stays a valid index.
pub open spec fn quantized(b: u8) -> u8 {
    if b / 51 < 5 {
        b / 51
    } else {
        4
    }
}

/// The stream opens with the ASCII pair `B`, `M` read big-endian.
pub open spec fn signature_ok(d: Seq<u8>) -> bool {
    d.len() >= 2 && u16_be_at(d, 0) == 0x424d
}

/// The fixed header (signature, file size, reserved, pixel-data offset,
/// header size, width, height, planes, bits per pixel) spans 30 bytes.
pub open spec fn header_present(d: Seq<u8>) -> bool {
    d.len() >= 30
}

pub open spec fn spec_pixel_offset(d: Seq<u8>) -> int {
    u32_le_at(d, 10)
}

pub open spec fn spec_width(d: Seq<u8>) -> int {
    i32_le_at(d, 18)
}

pub open spec fn spec_height(d: Seq<u8>) -> int {
    i32_le_at(d, 22)
}

pub open spec fn spec_bits_per_pixel(d: Seq<u8>) -> int {
    u16_le_at(d, 28)
}

/// The dimensions are non-negative and all pixel rows lie inside the stream.
pub open spec fn pixel_data_present(d: Seq<u8>) -> bool {
    &&& spec_width(d) >= 0
    &&& spec_height(d) >= 0
    &&& spec_pixel_offset(d) + 4 * (spec_width(d) * spec_height(d)) <= d.len()
}

/// Exactly the streams the decoder accepts.
pub open spec fn decodes(d: Seq<u8>) -> bool {
    &&& signature_ok(d)
    &&& header_present(d)
    &&& spec_bits_per_pixel(d) == 32
    &&& pixel_data_present(d)
}

/// The palette index that ends up at bitmap cell (bx, by): rows are stored
/// bottom-up in the stream, so cell row `by` comes from stored row
/// `height - 1 - by`; only the first byte of each four-byte pixel is read.
pub open spec fn decoded_pixel(d: Seq<u8>, bx: int, by: int) -> u8 {
    quantized(d[spec_pixel_offset(d) + 4 * ((spec_height(d) - 1 - by) * spec_width(d) + bx)])
}

/// The bitmap a valid stream decodes to.
pub open spec fn bitmap_matches(d: Seq<u8>, bm: Bitmap) -> bool {
    &&& bm.wf()
    &&& bm.width == spec_width(d)
    &&& bm.height == spec_height(d)
    &&& forall|bx: int, by: int|
        0 <= bx < bm.width && 0 <= by < bm.height ==> bm.data@[by * bm.width + bx]
            == #[trigger] decoded_pixel(d, bx, by)
}

fn read_u16_be(d: &[u8], i: usize) -> (r: u16)
    requires
        i + 2 <= d@.len(),
    ensures
        r == u16_be_at(d@, i as int),
{
    (d[i] as u16) * 0x100 + (d[i + 1] as u16)
}

fn read_u16_le(d: &[u8], i: usize) -> (r: u16)
    requires
        i + 2 <= d@.len(),
    ensures
        r == u16_le_at(d@, i as int),
{
    (d[i] as u16) + (d[i + 1] as u16) * 0x100
}

fn read_u32_le(d: &[u8], i: usize) -> (r: u32)
    requires
        i + 4 <= d@.len(),
    ensures
        r == u32_le_at(d@, i as int),
{
    (d[i] as u32) + (d[i + 1] as u32) * 0x100 + (d[i + 2] as u32) * 0x10000 + (d[i + 3]
        as u32) * 0x1000000
}

fn read_i32_le(d: &[u8], i: usize) -> (r: i32)
    requires
        i + 4 <= d@.len(),
    ensures
        r == i32_le_at(d@, i as int),
{
    let u = read_u32_le(d, i);
    if u >= 0x8000_0000 {
        let v: i64 = (u as i64) - 0x1_0000_0000i64;
        v as i32
    } else {
        u as i32
    }
}

/// Decodes a byte stream into a bitmap of palette indices.  Succeeds exactly
/// on the streams `decodes` describes; a corrupted signature fails with
/// `WrongSignature`, a depth other than 32 bits per pixel with
/// `UnsupportedBitsPerPixel`, and any truncated or malformed stream with
/// `IOError` — never a panic.
pub fn bmp_load(data: &[u8]) -> (r: Result<Bitmap, BMPError>)
    ensures
        r is Ok <==> decodes(data@),
        r is Ok ==> bitmap_matches(data@, r->Ok_0),
        r is Ok ==> forall|i: int| 0 <= i < r->Ok_0.data@.len() ==> r->Ok_0.data@[i] < NUM_COLORS,
        r == Err::<Bitmap, BMPError>(BMPError::WrongSignature) <==> data@.len() >= 2 && u16_be_at(
            data@,
            0,
        ) != 0x424d,
        r == Err::<Bitmap, BMPError>(BMPError::UnsupportedBitsPerPixel) <==> signature_ok(data@)
            && header_present(data@) && spec_bits_per_pixel(data@) != 32,
        r == Err::<Bitmap, BMPError>(BMPError::IOError) <==> data@.len() < 2 || (signature_ok(data@)
            && !header_present(data@)) || (signature_ok(data@) && header_present(data@)
            && spec_bits_per_pixel(data@) == 32 && !pixel_data_present(data@)),
{
    if data.len() < 2 {
        return Err(BMPError::IOError);
    }
    if read_u16_be(data, 0) != 0x424d {
        return Err(BMPError::WrongSignature);
    }
    if data.len() < 30 {
        return Err(BMPError::IOError);
    }
    let bitmap_offset = read_u32_le(data, 10);
    let width = read_i32_le(data, 18);
    let height = read_i32_le(data, 22);
    let bits_per_pixel = read_u16_le(data, 28);
    if bits_per_pixel != 32 {
        return Err(BMPError::UnsupportedBitsPerPixel);
    }
    if width < 0 || height < 0 {
        return Err(BMPError::IOError);
    }

    let w = width as usize;
    let h = height as usize;
    let len64 = data.len() as u64;
    let off64 = bitmap_offset as u64;
    proof {
        assert(0 <= (w as int) * (h as int) < 0x4000_0000_0000_0000) by (nonlinear_arith)
            requires
                0 <= w < 0x8000_0000,
                0 <= h < 0x8000_0000,
        ;
    }
    if off64 > len64 {
        return Err(BMPError::IOError);
    }
    let need: u64 = 4u64 * ((w as u64) * (h as u64));
    if need > len64 - off64 {
        return Err(BMPError::IOError);
    }
    assert(pixel_data_present(data@));

    let off = bitmap_offset as usize;
    let mut out: Vec<u8> = Vec::new();
    let mut ry: usize = 0;
    while ry < h
        invariant
            0 <= ry <= h,
            w == spec_width(data@),
            h == spec_height(data@),
            off == spec_pixel_offset(data@),
            off + 4 * (w * h) <= data@.len(),
            data@.len() <= usize::MAX,
            out@.len() == ry * w,
            forall|bx: int, by: int|
                0 <= bx < w && 0 <= by < ry ==> out@[by * w + bx] == #[trigger] decoded_pixel(
                    data@,
                    bx,
                    by,
                ),
            forall|i: int| 0 <= i < out@.len() ==> out@[i] < 5,
        decreases h - ry,
    {
        let mut x: usize = 0;
        while x < w
            invariant
                0 <= ry < h,
                0 <= x <= w,
                w == spec_width(data@),
                h == spec_height(data@),
                off == spec_pixel_offset(data@),
                off + 4 * (w * h) <= data@.len(),
                data@.len() <= usize::MAX,
                out@.len() == ry * w + x,
                forall|bx: int, by: int|
                    0 <= bx < w && 0 <= by < ry ==> out@[by * w + bx] == #[trigger] decoded_pixel(
                        data@,
                        bx,
                        by,
                    ),
                forall|bx: int|
                    0 <= bx < x ==> out@[ry * w + bx] == #[trigger] decoded_pixel(data@, bx, ry as int),
                forall|i: int| 0 <= i < out@.len() ==> out@[i] < 5,
            decreases w - x,
        {
            proof {
                let yy: int = h as int - 1 - ry as int;
                lemma_row_major_bounds(w as int, h as int, x as int, yy);
                assert(0 <= yy * (w as int) + (x as int) < (w as int) * (h as int));
                assert((w as int) * (h as int) <= data@.len());
            }
            let cell: usize = (h - 1 - ry) * w + x;
            let idx: usize = off + 4 * cell;
            let b = data[idx];
            let q = b / 51;
            let v: u8 = if q < 5 {
                q
            } else {
                4
            };
            out.push(v);
            proof {
                assert(v == decoded_pixel(data@, x as int, ry as int));
                assert forall|bx: int, by: int| 0 <= bx < w && 0 <= by < ry implies out@[by * w + bx]
                    == #[trigger] decoded_pixel(data@, bx, by) by {
                    lemma_row_major_bounds(w as int, ry as int, bx, by);
                }
            }
            x = x + 1;
        }
        proof {
            assert((ry as int + 1) * (w as int) == ry as int * (w as int) + w as int)
                by (nonlinear_arith);
        }
        ry = ry + 1;
    }

    let bm = Bitmap { width, height, data: out };
    proof {
        assert((h as int) * (w as int) == (w as int) * (h as int)) by (nonlinear_arith);
        assert(bm.wf());
        assert forall|bx: int, by: int| 0 <= bx < bm.width && 0 <= by < bm.height implies bm.data@[by
            * bm.width + bx] == #[trigger] decoded_pixel(data@, bx, by) by {
            lemma_row_major_bounds(w as int, h as int, bx, by);
        }
    }
    Ok(bm)
}

} // verus!
