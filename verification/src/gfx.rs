//! The raster compositor: a back buffer of 4-byte pixels (three color
//! channels stored in reversed order, one unused byte), sprite sheets that
//! index a decoded bitmap as a grid of fixed-size tiles, and the blit
//! operations that copy palette-indexed tiles onto the buffer.  Every lookup
//! is range-checked: an out-of-range rectangle or palette index fails with
//! `CompositeError::IndexOutOfRange` and leaves the buffer untouched.

use vstd::prelude::*;

use crate::bmp::Bitmap;
use crate::grid::lemma_pixel_byte_injective;
use crate::grid::lemma_row_major_bounds;
use crate::palette::Color;
use crate::palette::Palette;

verus! {

#[derive(Clone, Copy, PartialEq, Eq, Structural, Debug)]
pub enum CompositeError {
    IndexOutOfRange,
}

/// Uncompressed pixel format tag of the presentation header.
pub const BI_RGB: u32 = 0;

/// Size in bytes of the fixed presentation header below, as the platform's
/// device-independent bitmap interface defines it.
pub const BITMAP_INFO_HEADER_SIZE: u32 = 40;

/// Presentation metadata describing the buffer to the platform: a
/// device-independent bitmap header with a negative height, so rows are
/// presented top-down.
#[derive(Clone, Copy, PartialEq, Eq, Structural, Debug, Default)]
pub struct BitmapInfoHeader {
    pub size: u32,
    pub width: i32,
    pub height: i32,
    pub planes: u16,
    pub bit_count: u16,
    pub compression: u32,
    pub size_image: u32,
    pub x_pels_per_meter: i32,
    pub y_pels_per_meter: i32,
    pub colors_used: u32,
    pub colors_important: u32,
}

#[derive(Clone, Copy, PartialEq, Eq, Structural, Debug, Default)]
pub struct BitmapInfo {
    pub header: BitmapInfoHeader,
    pub colors: u32,
}

/// The presentation header a buffer of the given dimensions carries.
pub open spec fn dib_info(width: i32, height: i32) -> BitmapInfo {
    BitmapInfo {
        header: BitmapInfoHeader {
            size: BITMAP_INFO_HEADER_SIZE,
            width: width,
            height: (-(height as int)) as i32,
            planes: 1,
            bit_count: 32,
            compression: BI_RGB,
            size_image: 0,
            x_pels_per_meter: 0,
            y_pels_per_meter: 0,
            colors_used: 0,
            colors_important: 0,
        },
        colors: 0,
    }
}

/// The mutable pixel surface: 4 bytes per pixel, row-major, top row first.
pub struct BackBuffer {
    pub width: i32,
    pub height: i32,
    pub info: BitmapInfo,
    pub memory: Vec<u8>,
}

/// A decoded bitmap indexed as a grid of fixed-size sprites, row-major.
pub struct SpriteSheet {
    pub bitmap: Bitmap,
    pub sprite_width: i32,
    pub sprite_height: i32,
    pub sprites_per_row: i32,
}

/// Channel k of the stored pixel order: byte 0 is blue, 1 green, 2 red.
pub open spec fn channel(c: Color, k: int) -> u8 {
    if k == 0 {
        c.b
    } else if k == 1 {
        c.g
    } else {
        c.r
    }
}

/// Byte k of the 4-byte pixel at surface cell (x, y) of a surface that is
/// `width` pixels wide.
pub open spec fn pixel_byte(mem: Seq<u8>, width: int, x: int, y: int, k: int) -> u8 {
    mem[4 * (y * width + x) + k]
}

/// The source rectangle lies inside the bitmap.
pub open spec fn rect_in_bitmap(bm: Bitmap, x_src: int, y_src: int, w: int, h: int) -> bool {
    &&& 0 <= x_src
    &&& 0 <= y_src
    &&& 0 <= w
    &&& 0 <= h
    &&& x_src + w <= bm.width
    &&& y_src + h <= bm.height
}

/// The destination rectangle lies inside a surface of the given dimensions.
pub open spec fn rect_in_surface(sw: int, sh: int, x: int, y: int, w: int, h: int) -> bool {
    &&& 0 <= x
    &&& 0 <= y
    &&& x + w <= sw
    &&& y + h <= sh
}

/// Linear index into the bitmap of the source pixel for rectangle offset
/// (dx, dy).
pub open spec fn source_index(bm: Bitmap, x_src: int, y_src: int, dx: int, dy: int) -> int {
    (y_src + dy) * bm.width + (x_src + dx)
}

/// Every palette index the source rectangle holds is below `plen`.
pub open spec fn sources_in_palette(
    bm: Bitmap,
    plen: int,
    x_src: int,
    y_src: int,
    w: int,
    h: int,
) -> bool {
    forall|dx: int, dy: int|
        0 <= dx < w && 0 <= dy < h ==> bm.data@[#[trigger] source_index(bm, x_src, y_src, dx, dy)]
            < plen
}

/// Exactly the blits the compositor performs: both rectangles in bounds and
/// every source pixel a valid palette index.
pub open spec fn blit_ok(
    surf: BackBuffer,
    pal: Seq<Color>,
    bm: Bitmap,
    x_dest: int,
    y_dest: int,
    x_src: int,
    y_src: int,
    w: int,
    h: int,
) -> bool {
    &&& rect_in_bitmap(bm, x_src, y_src, w, h)
    &&& rect_in_surface(surf.width as int, surf.height as int, x_dest, y_dest, w, h)
    &&& sources_in_palette(bm, pal.len() as int, x_src, y_src, w, h)
}

/// The surface after the first `done_rows` full rows and `done_cols` pixels
/// of the next row of the rectangle have been blitted: those pixels carry
/// the palette color of their source pixel with channels reversed, every
/// other byte (including each fourth byte) is unchanged.
pub open spec fn blit_partial(
    old_mem: Seq<u8>,
    new_mem: Seq<u8>,
    sw: int,
    sh: int,
    pal: Seq<Color>,
    bm: Bitmap,
    x_dest: int,
    y_dest: int,
    x_src: int,
    y_src: int,
    w: int,
    h: int,
    done_rows: int,
    done_cols: int,
) -> bool {
    &&& new_mem.len() == old_mem.len()
    &&& forall|x: int, y: int, k: int|
        0 <= x < sw && 0 <= y < sh && 0 <= k < 4 ==> #[trigger] pixel_byte(new_mem, sw, x, y, k)
            == (if x_dest <= x < x_dest + w && y_dest <= y < y_dest + h && k < 3 && (y - y_dest
            < done_rows || (y - y_dest == done_rows && x - x_dest < done_cols)) {
            channel(pal[bm.data@[source_index(bm, x_src, y_src, x - x_dest, y - y_dest)] as int], k)
        } else {
            pixel_byte(old_mem, sw, x, y, k)
        })
}

/// The surface after the whole rectangle has been blitted.
pub open spec fn blit_applied(
    old_mem: Seq<u8>,
    new_mem: Seq<u8>,
    sw: int,
    sh: int,
    pal: Seq<Color>,
    bm: Bitmap,
    x_dest: int,
    y_dest: int,
    x_src: int,
    y_src: int,
    w: int,
    h: int,
) -> bool {
    blit_partial(old_mem, new_mem, sw, sh, pal, bm, x_dest, y_dest, x_src, y_src, w, h, h, 0)
}

/// Scans the source rectangle for a palette index at or above `plen`.
fn rect_sources_ok(bitmap: &Bitmap, plen: usize, x_src: i32, y_src: i32, width: i32, height: i32) -> (ok:
    bool)
    requires
        bitmap.wf(),
        rect_in_bitmap(*bitmap, x_src as int, y_src as int, width as int, height as int),
    ensures
        ok == sources_in_palette(
            *bitmap,
            plen as int,
            x_src as int,
            y_src as int,
            width as int,
            height as int,
        ),
{
    let bw = bitmap.width;
    let bh = bitmap.height;
    let dlen = bitmap.data.len();
    proof {
        assert(bitmap.data@.len() == dlen);
    }
    let mut dy: i32 = 0;
    while dy < height
        invariant
            0 <= dy <= height,
            bw == bitmap.width,
            bh == bitmap.height,
            bitmap.wf(),
            bitmap.data@.len() <= usize::MAX,
            rect_in_bitmap(*bitmap, x_src as int, y_src as int, width as int, height as int),
            forall|ix: int, iy: int|
                0 <= ix < width && 0 <= iy < dy ==> bitmap.data@[#[trigger] source_index(
                    *bitmap,
                    x_src as int,
                    y_src as int,
                    ix,
                    iy,
                )] < plen,
        decreases height - dy,
    {
        let mut dx: i32 = 0;
        while dx < width
            invariant
                0 <= dy < height,
                0 <= dx <= width,
                bw == bitmap.width,
                bh == bitmap.height,
                bitmap.wf(),
                bitmap.data@.len() <= usize::MAX,
                rect_in_bitmap(*bitmap, x_src as int, y_src as int, width as int, height as int),
                forall|ix: int, iy: int|
                    0 <= ix < width && 0 <= iy < dy ==> bitmap.data@[#[trigger] source_index(
                        *bitmap,
                        x_src as int,
                        y_src as int,
                        ix,
                        iy,
                    )] < plen,
                forall|ix: int|
                    0 <= ix < dx ==> bitmap.data@[#[trigger] source_index(
                        *bitmap,
                        x_src as int,
                        y_src as int,
                        ix,
                        dy as int,
                    )] < plen,
            decreases width - dx,
        {
            proof {
                lemma_row_major_bounds(bw as int, bh as int, x_src + dx, y_src + dy);
            }
            let si: usize = ((y_src + dy) as usize) * (bw as usize) + ((x_src + dx) as usize);
            proof {
                assert(si == source_index(*bitmap, x_src as int, y_src as int, dx as int, dy as int));
            }
            if (bitmap.data[si] as usize) >= plen {
                proof {
                    assert(bitmap.data@[source_index(
                        *bitmap,
                        x_src as int,
                        y_src as int,
                        dx as int,
                        dy as int,
                    )] >= plen);
                }
                return false;
            }
            dx = dx + 1;
        }
        dy = dy + 1;
    }
    true
}

impl SpriteSheet {
    pub open spec fn wf(&self) -> bool {
        &&& self.bitmap.wf()
        &&& self.sprite_width > 0
        &&& self.sprite_height > 0
        &&& self.sprites_per_row == self.bitmap.width as int / self.sprite_width as int
    }

    pub fn new(bitmap: Bitmap, sprite_width: i32, sprite_height: i32) -> (r: SpriteSheet)
        requires
            bitmap.wf(),
            sprite_width > 0,
            sprite_height > 0,
        ensures
            r.wf(),
            r.bitmap == bitmap,
            r.sprite_width == sprite_width,
            r.sprite_height == sprite_height,
    {
        SpriteSheet {
            sprites_per_row: bitmap.width / sprite_width,
            sprite_width: sprite_width,
            sprite_height: sprite_height,
            bitmap: bitmap,
        }
    }
}

impl BackBuffer {
    pub open spec fn wf(&self) -> bool {
        &&& 0 <= self.width
        &&& 0 <= self.height
        &&& self.memory@.len() == 4 * (self.width * self.height)
    }

    /// An all-zero surface of the given dimensions, carrying the
    /// presentation header for them.
    pub fn new(width: i32, height: i32) -> (r: BackBuffer)
        requires
            0 <= width,
            0 <= height,
            4 * (width * height) <= usize::MAX,
        ensures
            r.wf(),
            r.width == width,
            r.height == height,
            r.info == dib_info(width, height),
            forall|i: int| 0 <= i < r.memory@.len() ==> r.memory@[i] == 0,
    {
        proof {
            assert(0 <= (width as int) * (height as int)) by (nonlinear_arith)
                requires
                    0 <= width,
                    0 <= height,
            ;
        }
        let n: usize = 4 * ((width as usize) * (height as usize));
        let mut memory: Vec<u8> = Vec::new();
        while memory.len() < n
            invariant
                memory@.len() <= n,
                forall|i: int| 0 <= i < memory@.len() ==> memory@[i] == 0,
            decreases n - memory@.len(),
        {
            memory.push(0);
        }
        BackBuffer {
            width: width,
            height: height,
            info: BitmapInfo {
                header: BitmapInfoHeader {
                    size: BITMAP_INFO_HEADER_SIZE,
                    width: width,
                    height: -height,
                    planes: 1,
                    bit_count: 32,
                    compression: BI_RGB,
                    size_image: 0,
                    x_pels_per_meter: 0,
                    y_pels_per_meter: 0,
                    colors_used: 0,
                    colors_important: 0,
                },
                colors: 0,
            },
            memory: memory,
        }
    }

    /// Fills every pixel with `color`, writing the channels in reversed
    /// order (blue, green, red) into the first three bytes of each pixel
    /// slot; the fourth byte of every slot is left untouched.
    pub fn clear(&mut self, color: Color)
        requires
            old(self).wf(),
        ensures
            final(self).wf(),
            final(self).width == old(self).width,
            final(self).height == old(self).height,
            final(self).info == old(self).info,
            final(self).memory@.len() == old(self).memory@.len(),
            forall|x: int, y: int, k: int|
                0 <= x < old(self).width && 0 <= y < old(self).height && 0 <= k < 4
                    ==> #[trigger] pixel_byte(final(self).memory@, old(self).width as int, x, y, k)
                    == (if k < 3 {
                    channel(color, k)
                } else {
                    pixel_byte(old(self).memory@, old(self).width as int, x, y, k)
                }),
    {
        let n: usize = self.memory.len() / 4;
        let ghost m0 = self.memory@;
        let mut i: usize = 0;
        while i < n
            invariant
                0 <= i <= n,
                4 * n == m0.len(),
                m0.len() <= usize::MAX,
                self.memory@.len() == m0.len(),
                self.width == old(self).width,
                self.height == old(self).height,
                self.info == old(self).info,
                m0 == old(self).memory@,
                forall|t: int|
                    0 <= t < self.memory@.len() ==> #[trigger] self.memory@[t] == (if t < 4 * i {
                        if t % 4 == 0 {
                            color.b
                        } else if t % 4 == 1 {
                            color.g
                        } else if t % 4 == 2 {
                            color.r
                        } else {
                            m0[t]
                        }
                    } else {
                        m0[t]
                    }),
            decreases n - i,
        {
            let base: usize = 4 * i;
            self.memory.set(base, color.b);
            self.memory.set(base + 1, color.g);
            self.memory.set(base + 2, color.r);
            i = i + 1;
        }
        proof {
            let w = old(self).width as int;
            let h = old(self).height as int;
            assert forall|x: int, y: int, k: int|
                0 <= x < w && 0 <= y < h && 0 <= k < 4 implies #[trigger] pixel_byte(
                self.memory@,
                w,
                x,
                y,
                k,
            ) == (if k < 3 {
                channel(color, k)
            } else {
                pixel_byte(old(self).memory@, w, x, y, k)
            }) by {
                lemma_row_major_bounds(w, h, x, y);
                assert(0 <= 4 * (y * w + x) + k < 4 * (w * h));
            }
        }
    }

    /// Copies the validated source rectangle of `bitmap` onto the surface,
    /// one pixel at a time, writing the palette color's channels in reversed
    /// order and leaving each fourth byte alone.
    fn blit_rect(
        &mut self,
        palette: &Palette,
        bitmap: &Bitmap,
        x_dest: i32,
        y_dest: i32,
        x_src: i32,
        y_src: i32,
        width: i32,
        height: i32,
    )
        requires
            old(self).wf(),
            bitmap.wf(),
            blit_ok(
                *old(self),
                palette@,
                *bitmap,
                x_dest as int,
                y_dest as int,
                x_src as int,
                y_src as int,
                width as int,
                height as int,
            ),
        ensures
            final(self).wf(),
            final(self).width == old(self).width,
            final(self).height == old(self).height,
            final(self).info == old(self).info,
            blit_applied(
                old(self).memory@,
                final(self).memory@,
                old(self).width as int,
                old(self).height as int,
                palette@,
                *bitmap,
                x_dest as int,
                y_dest as int,
                x_src as int,
                y_src as int,
                width as int,
                height as int,
            ),
    {
        let sw = self.width;
        let sh = self.height;
        let bw = bitmap.width;
        let bh = bitmap.height;
        let mlen = self.memory.len();
        let dlen = bitmap.data.len();
        let ghost m_in = self.memory@;
        let mut dy: i32 = 0;
        while dy < height
            invariant
                0 <= dy <= height,
                sw == old(self).width,
                sh == old(self).height,
                bw == bitmap.width,
                bh == bitmap.height,
                self.width == old(self).width,
                self.height == old(self).height,
                self.info == old(self).info,
                old(self).wf(),
                bitmap.wf(),
                m_in == old(self).memory@,
                m_in.len() <= usize::MAX,
                bitmap.data@.len() <= usize::MAX,
                self.memory@.len() == m_in.len(),
                blit_ok(
                    *old(self),
                    palette@,
                    *bitmap,
                    x_dest as int,
                    y_dest as int,
                    x_src as int,
                    y_src as int,
                    width as int,
                    height as int,
                ),
                blit_partial(
                    m_in,
                    self.memory@,
                    sw as int,
                    sh as int,
                    palette@,
                    *bitmap,
                    x_dest as int,
                    y_dest as int,
                    x_src as int,
                    y_src as int,
                    width as int,
                    height as int,
                    dy as int,
                    0,
                ),
            decreases height - dy,
        {
            let mut dx: i32 = 0;
            while dx < width
                invariant
                    0 <= dy < height,
                    0 <= dx <= width,
                    sw == old(self).width,
                    sh == old(self).height,
                    bw == bitmap.width,
                    bh == bitmap.height,
                    self.width == old(self).width,
                    self.height == old(self).height,
                    self.info == old(self).info,
                    old(self).wf(),
                    bitmap.wf(),
                    m_in == old(self).memory@,
                    m_in.len() <= usize::MAX,
                    bitmap.data@.len() <= usize::MAX,
                    self.memory@.len() == m_in.len(),
                    blit_ok(
                        *old(self),
                        palette@,
                        *bitmap,
                        x_dest as int,
                        y_dest as int,
                        x_src as int,
                        y_src as int,
                        width as int,
                        height as int,
                    ),
                    blit_partial(
                        m_in,
                        self.memory@,
                        sw as int,
                        sh as int,
                        palette@,
                        *bitmap,
                        x_dest as int,
                        y_dest as int,
                        x_src as int,
                        y_src as int,
                        width as int,
                        height as int,
                        dy as int,
                        dx as int,
                    ),
                decreases width - dx,
            {
                proof {
                    lemma_row_major_bounds(bw as int, bh as int, x_src + dx, y_src + dy);
                    lemma_row_major_bounds(sw as int, sh as int, x_dest + dx, y_dest + dy);
                }
                let si: usize = ((y_src + dy) as usize) * (bw as usize) + ((x_src + dx) as usize);
                proof {
                    assert(si == source_index(
                        *bitmap,
                        x_src as int,
                        y_src as int,
                        dx as int,
                        dy as int,
                    ));
                }
                let pi = bitmap.data[si] as usize;
                let col = palette[pi];
                let base: usize = 4 * (((y_dest + dy) as usize) * (sw as usize) + ((x_dest + dx)
                    as usize));
                let ghost m0 = self.memory@;
                self.memory.set(base, col.b);
                self.memory.set(base + 1, col.g);
                self.memory.set(base + 2, col.r);
                proof {
                    let swi = sw as int;
                    let shi = sh as int;
                    let tx = x_dest as int + dx as int;
                    let ty = y_dest as int + dy as int;
                    assert(base == 4 * (ty * swi + tx));
                    assert forall|x: int, y: int, k: int|
                        0 <= x < swi && 0 <= y < shi && 0 <= k < 4 implies #[trigger] pixel_byte(
                        self.memory@,
                        swi,
                        x,
                        y,
                        k,
                    ) == (if x_dest <= x < x_dest + width && y_dest <= y < y_dest + height && k < 3
                        && (y - y_dest < dy || (y - y_dest == dy && x - x_dest < dx + 1)) {
                        channel(
                            palette@[bitmap.data@[source_index(
                                *bitmap,
                                x_src as int,
                                y_src as int,
                                x - x_dest,
                                y - y_dest,
                            )] as int],
                            k,
                        )
                    } else {
                        pixel_byte(m0, swi, x, y, k)
                    }) by {
                        lemma_row_major_bounds(swi, shi, x, y);
                        let t = 4 * (y * swi + x) + k;
                        if x == tx && y == ty && k < 3 {
                            assert(pi < palette@.len());
                            assert(col == palette@[pi as int]);
                            assert(pi == bitmap.data@[source_index(
                                *bitmap,
                                x_src as int,
                                y_src as int,
                                dx as int,
                                dy as int,
                            )] as int);
                            assert(x - x_dest == dx && y - y_dest == dy);
                            assert(self.memory@[base as int] == col.b);
                            assert(self.memory@[base as int + 1] == col.g);
                            assert(self.memory@[base as int + 2] == col.r);
                            assert(t == base + k);
                            assert(pixel_byte(self.memory@, swi, x, y, k) == channel(col, k));
                        } else {
                            lemma_pixel_byte_injective(swi, x, y, k, tx, ty, 0);
                            lemma_pixel_byte_injective(swi, x, y, k, tx, ty, 1);
                            lemma_pixel_byte_injective(swi, x, y, k, tx, ty, 2);
                            assert(t != base && t != base + 1 && t != base + 2);
                            assert(pixel_byte(self.memory@, swi, x, y, k) == pixel_byte(
                                m0,
                                swi,
                                x,
                                y,
                                k,
                            ));
                        }
                    }
                    assert forall|x: int, y: int, k: int|
                        0 <= x < swi && 0 <= y < shi && 0 <= k < 4 implies #[trigger] pixel_byte(
                        self.memory@,
                        swi,
                        x,
                        y,
                        k,
                    ) == (if x_dest <= x < x_dest + width && y_dest <= y < y_dest + height && k < 3
                        && (y - y_dest < dy || (y - y_dest == dy && x - x_dest < dx + 1)) {
                        channel(
                            palette@[bitmap.data@[source_index(
                                *bitmap,
                                x_src as int,
                                y_src as int,
                                x - x_dest,
                                y - y_dest,
                            )] as int],
                            k,
                        )
                    } else {
                        pixel_byte(m_in, swi, x, y, k)
                    }) by {
                        let prior = pixel_byte(m0, swi, x, y, k);
                    }
                }
                dx = dx + 1;
            }
            dy = dy + 1;
        }
    }

    /// Blits a `width` by `height` rectangle of `bitmap` starting at
    /// (x_src, y_src) onto the surface at (x_dest, y_dest).  Fails with
    /// `IndexOutOfRange`, leaving the surface untouched, exactly when either
    /// rectangle is out of bounds or a source pixel is not a valid index
    /// into `palette`.
    pub fn draw_subbitmap(
        &mut self,
        palette: &Palette,
        bitmap: &Bitmap,
        x_dest: i32,
        y_dest: i32,
        x_src: i32,
        y_src: i32,
        width: i32,
        height: i32,
    ) -> (r: Result<(), CompositeError>)
        requires
            old(self).wf(),
            bitmap.wf(),
        ensures
            final(self).wf(),
            final(self).width == old(self).width,
            final(self).height == old(self).height,
            final(self).info == old(self).info,
            r is Ok <==> blit_ok(
                *old(self),
                palette@,
                *bitmap,
                x_dest as int,
                y_dest as int,
                x_src as int,
                y_src as int,
                width as int,
                height as int,
            ),
            r is Err ==> *final(self) == *old(self),
            r is Ok ==> blit_applied(
                old(self).memory@,
                final(self).memory@,
                old(self).width as int,
                old(self).height as int,
                palette@,
                *bitmap,
                x_dest as int,
                y_dest as int,
                x_src as int,
                y_src as int,
                width as int,
                height as int,
            ),
    {
        if width < 0 || height < 0 || x_src < 0 || y_src < 0 || x_dest < 0 || y_dest < 0 {
            return Err(CompositeError::IndexOutOfRange);
        }
        if (x_src as i64) + (width as i64) > (bitmap.width as i64) || (y_src as i64) + (height
            as i64) > (bitmap.height as i64) {
            return Err(CompositeError::IndexOutOfRange);
        }
        if (x_dest as i64) + (width as i64) > (self.width as i64) || (y_dest as i64) + (height
            as i64) > (self.height as i64) {
            return Err(CompositeError::IndexOutOfRange);
        }
        if !rect_sources_ok(bitmap, palette.len(), x_src, y_src, width, height) {
            return Err(CompositeError::IndexOutOfRange);
        }
        self.blit_rect(palette, bitmap, x_dest, y_dest, x_src, y_src, width, height);
        Ok(())
    }

    /// Blits a `width` by `height` rectangle taken at offset (x_src_offs,
    /// y_src_offs) inside sprite `index` of the sheet.  The sprite's origin
    /// in the sheet bitmap is `(index mod sprites_per_row) * sprite_width`,
    /// `(index div sprites_per_row) * sprite_height`.  Fails with
    /// `IndexOutOfRange`, leaving the surface untouched, exactly when the
    /// index is negative, the sheet has no full sprite column, or the
    /// resulting blit would go out of range.
    pub fn draw_subsprite(
        &mut self,
        palette: &Palette,
        spritesheet: &SpriteSheet,
        x_dest: i32,
        y_dest: i32,
        index: i32,
        x_src_offs: i32,
        y_src_offs: i32,
        width: i32,
        height: i32,
    ) -> (r: Result<(), CompositeError>)
        requires
            old(self).wf(),
            spritesheet.wf(),
        ensures
            final(self).wf(),
            final(self).width == old(self).width,
            final(self).height == old(self).height,
            final(self).info == old(self).info,
            r is Ok <==> (index >= 0 && spritesheet.sprites_per_row > 0 && blit_ok(
                *old(self),
                palette@,
                spritesheet.bitmap,
                x_dest as int,
                y_dest as int,
                sprite_src_x(*spritesheet, index as int, x_src_offs as int),
                sprite_src_y(*spritesheet, index as int, y_src_offs as int),
                width as int,
                height as int,
            )),
            r is Err ==> *final(self) == *old(self),
            r is Ok ==> blit_applied(
                old(self).memory@,
                final(self).memory@,
                old(self).width as int,
                old(self).height as int,
                palette@,
                spritesheet.bitmap,
                x_dest as int,
                y_dest as int,
                sprite_src_x(*spritesheet, index as int, x_src_offs as int),
                sprite_src_y(*spritesheet, index as int, y_src_offs as int),
                width as int,
                height as int,
            ),
    {
        if index < 0 || spritesheet.sprites_per_row <= 0 {
            return Err(CompositeError::IndexOutOfRange);
        }
        if width < 0 || height < 0 {
            return Err(CompositeError::IndexOutOfRange);
        }
        let col = index % spritesheet.sprites_per_row;
        let row = index / spritesheet.sprites_per_row;
        proof {
            assert(0 <= (col as int) * (spritesheet.sprite_width as int) < 0x4000_0000_0000_0000)
                by (nonlinear_arith)
                requires
                    0 <= col < 0x8000_0000,
                    0 < spritesheet.sprite_width < 0x8000_0000,
            ;
            assert(0 <= (row as int) * (spritesheet.sprite_height as int) < 0x4000_0000_0000_0000)
                by (nonlinear_arith)
                requires
                    0 <= row < 0x8000_0000,
                    0 < spritesheet.sprite_height < 0x8000_0000,
            ;
        }
        let sx64: i64 = (col as i64) * (spritesheet.sprite_width as i64) + (x_src_offs as i64);
        let sy64: i64 = (row as i64) * (spritesheet.sprite_height as i64) + (y_src_offs as i64);
        if sx64 < 0 || sy64 < 0 {
            return Err(CompositeError::IndexOutOfRange);
        }
        if sx64 + (width as i64) > (spritesheet.bitmap.width as i64) || sy64 + (height as i64) > (
        spritesheet.bitmap.height as i64) {
            return Err(CompositeError::IndexOutOfRange);
        }
        self.draw_subbitmap(
            palette,
            &spritesheet.bitmap,
            x_dest,
            y_dest,
            sx64 as i32,
            sy64 as i32,
            width,
            height,
        )
    }

    /// Blits the whole sprite `index` of the sheet at (x_dest, y_dest);
    /// the same as `draw_subsprite` with the full sprite rectangle.
    pub fn draw_sprite(
        &mut self,
        palette: &Palette,
        spritesheet: &SpriteSheet,
        x_dest: i32,
        y_dest: i32,
        index: i32,
    ) -> (r: Result<(), CompositeError>)
        requires
            old(self).wf(),
            spritesheet.wf(),
        ensures
            final(self).wf(),
            final(self).width == old(self).width,
            final(self).height == old(self).height,
            final(self).info == old(self).info,
            r is Ok <==> (index >= 0 && spritesheet.sprites_per_row > 0 && blit_ok(
                *old(self),
                palette@,
                spritesheet.bitmap,
                x_dest as int,
                y_dest as int,
                sprite_src_x(*spritesheet, index as int, 0),
                sprite_src_y(*spritesheet, index as int, 0),
                spritesheet.sprite_width as int,
                spritesheet.sprite_height as int,
            )),
            r is Err ==> *final(self) == *old(self),
            r is Ok ==> blit_applied(
                old(self).memory@,
                final(self).memory@,
                old(self).width as int,
                old(self).height as int,
                palette@,
                spritesheet.bitmap,
                x_dest as int,
                y_dest as int,
                sprite_src_x(*spritesheet, index as int, 0),
                sprite_src_y(*spritesheet, index as int, 0),
                spritesheet.sprite_width as int,
                spritesheet.sprite_height as int,
            ),
    {
        self.draw_subsprite(
            palette,
            spritesheet,
            x_dest,
            y_dest,
            index,
            0,
            0,
            spritesheet.sprite_width,
            spritesheet.sprite_height,
        )
    }

    /// Renders `text` left to right starting at (x_dest, y_dest), advancing
    /// the cursor by one sprite width per character whether or not anything
    /// is drawn.  A space advances without drawing; any other character is
    /// mapped to glyph `code point - 'A'`; a character whose glyph cannot be
    /// blitted in range leaves its slot blank instead of reading out of
    /// bounds.
    pub fn draw_text(
        &mut self,
        palette: &Palette,
        font: &SpriteSheet,
        text: &str,
        x_dest: i32,
        y_dest: i32,
    )
        requires
            old(self).wf(),
            font.wf(),
            x_dest + text@.len() * font.sprite_width <= i32::MAX,
        ensures
            final(self).wf(),
            final(self).width == old(self).width,
            final(self).height == old(self).height,
            final(self).info == old(self).info,
            text_progress(
                old(self).memory@,
                final(self).memory@,
                *old(self),
                palette@,
                *font,
                text@,
                x_dest as int,
                y_dest as int,
                text@.len() as int,
            ),
    {
        let n = text.unicode_len();
        let sw_f = font.sprite_width;
        let mut x = x_dest;
        let ghost m_in = self.memory@;
        let mut j: usize = 0;
        while j < n
            invariant
                0 <= j <= n,
                n == text@.len(),
                sw_f == font.sprite_width,
                x as int == x_dest + j * (sw_f as int),
                x_dest + n * (sw_f as int) <= i32::MAX,
                font.wf(),
                old(self).wf(),
                self.width == old(self).width,
                self.height == old(self).height,
                self.info == old(self).info,
                m_in == old(self).memory@,
                self.memory@.len() == m_in.len(),
                text_progress(
                    m_in,
                    self.memory@,
                    *old(self),
                    palette@,
                    *font,
                    text@,
                    x_dest as int,
                    y_dest as int,
                    j as int,
                ),
            decreases n - j,
        {
            let c = text.get_char(j);
            if c != ' ' {
                let cu: u32 = c as u32;
                let ci: i32 = cu as i32;
                let idx = ci - 65;
                proof {
                    assert(idx == glyph_index(text@[j as int]));
                }
                let ghost sb = *self;
                let r = self.draw_sprite(palette, font, x, y_dest, idx);
                proof {
                    lemma_blit_ok_same_dims(
                        sb,
                        *old(self),
                        palette@,
                        font.bitmap,
                        x as int,
                        y_dest as int,
                        sprite_src_x(*font, idx as int, 0),
                        sprite_src_y(*font, idx as int, 0),
                        font.sprite_width as int,
                        font.sprite_height as int,
                    );
                    if r is Ok {
                        assert(glyph_drawable(
                            *old(self),
                            palette@,
                            *font,
                            text@[j as int],
                            x_dest + (j as int) * (sw_f as int),
                            y_dest as int,
                        ));
                        lemma_text_step_drawn(
                            m_in,
                            sb.memory@,
                            self.memory@,
                            *old(self),
                            palette@,
                            *font,
                            text@,
                            x_dest as int,
                            y_dest as int,
                            j as int,
                        );
                    } else {
                        assert(!glyph_drawable(
                            *old(self),
                            palette@,
                            *font,
                            text@[j as int],
                            x_dest + (j as int) * (sw_f as int),
                            y_dest as int,
                        ));
                        lemma_text_step_skipped(
                            m_in,
                            self.memory@,
                            *old(self),
                            palette@,
                            *font,
                            text@,
                            x_dest as int,
                            y_dest as int,
                            j as int,
                        );
                    }
                }
            } else {
                proof {
                    lemma_text_step_skipped(
                        m_in,
                        self.memory@,
                        *old(self),
                        palette@,
                        *font,
                        text@,
                        x_dest as int,
                        y_dest as int,
                        j as int,
                    );
                }
            }
            proof {
                assert((j as int + 1) * (sw_f as int) == (j as int) * (sw_f as int) + (sw_f as int)
                    && (j as int + 1) * (sw_f as int) <= (n as int) * (sw_f as int))
                    by (nonlinear_arith)
                    requires
                        0 <= j as int,
                        j as int + 1 <= n as int,
                        0 < sw_f as int,
                ;
            }
            x = x + sw_f;
            j = j + 1;
        }
    }
}

/// Blitting a single one-by-one tile whose pixel holds palette index `k`
/// writes exactly the reversed-channel color `pal[k]` into the three leading
/// bytes of the destination pixel and leaves its fourth byte unchanged; no
/// other byte of the surface moves.
pub proof fn lemma_single_pixel_blit(
    old_mem: Seq<u8>,
    new_mem: Seq<u8>,
    sw: int,
    sh: int,
    pal: Seq<Color>,
    bm: Bitmap,
    x_dest: int,
    y_dest: int,
    x_src: int,
    y_src: int,
)
    requires
        0 <= x_dest < sw,
        0 <= y_dest < sh,
        blit_applied(old_mem, new_mem, sw, sh, pal, bm, x_dest, y_dest, x_src, y_src, 1, 1),
    ensures
        pixel_byte(new_mem, sw, x_dest, y_dest, 0) == pal[bm.data@[y_src * bm.width + x_src] as int].b,
        pixel_byte(new_mem, sw, x_dest, y_dest, 1) == pal[bm.data@[y_src * bm.width + x_src] as int].g,
        pixel_byte(new_mem, sw, x_dest, y_dest, 2) == pal[bm.data@[y_src * bm.width + x_src] as int].r,
        pixel_byte(new_mem, sw, x_dest, y_dest, 3) == pixel_byte(old_mem, sw, x_dest, y_dest, 3),
        forall|x: int, y: int, k: int|
            0 <= x < sw && 0 <= y < sh && 0 <= k < 4 && !(x == x_dest && y == y_dest && k < 3)
                ==> #[trigger] pixel_byte(new_mem, sw, x, y, k) == pixel_byte(old_mem, sw, x, y, k),
{
    assert(source_index(bm, x_src, y_src, 0, 0) == y_src * bm.width + x_src);
}

/// The surface after the frame clear: the first three bytes of every pixel
/// hold the clear color's channels reversed, the fourth byte of every pixel
/// is kept — exactly what `clear` does.
pub open spec fn cleared(m0: Seq<u8>, m1: Seq<u8>, sw: int, sh: int, c: Color) -> bool {
    &&& m1.len() == m0.len()
    &&& forall|x: int, y: int, k: int|
        0 <= x < sw && 0 <= y < sh && 0 <= k < 4 ==> #[trigger] pixel_byte(m1, sw, x, y, k) == (if k
            < 3 {
            channel(c, k)
        } else {
            pixel_byte(m0, sw, x, y, k)
        })
}

/// The surface after one sub-sprite draw: where the blit is performable its
/// rectangle is applied, otherwise the draw is skipped and the surface is
/// unchanged — exactly `draw_subsprite`'s two outcomes.
pub open spec fn subsprite_drawn(
    m0: Seq<u8>,
    m1: Seq<u8>,
    surf: BackBuffer,
    pal: Seq<Color>,
    sheet: SpriteSheet,
    x: int,
    y: int,
    idx: int,
    x_offs: int,
    y_offs: int,
    w: int,
    h: int,
) -> bool {
    if idx >= 0 && sheet.sprites_per_row > 0 && blit_ok(
        surf,
        pal,
        sheet.bitmap,
        x,
        y,
        sprite_src_x(sheet, idx, x_offs),
        sprite_src_y(sheet, idx, y_offs),
        w,
        h,
    ) {
        blit_applied(
            m0,
            m1,
            surf.width as int,
            surf.height as int,
            pal,
            sheet.bitmap,
            x,
            y,
            sprite_src_x(sheet, idx, x_offs),
            sprite_src_y(sheet, idx, y_offs),
            w,
            h,
        )
    } else {
        m1 == m0
    }
}

/// The surface after one whole-sprite draw — exactly `draw_sprite`'s two
/// outcomes.
pub open spec fn sprite_drawn(
    m0: Seq<u8>,
    m1: Seq<u8>,
    surf: BackBuffer,
    pal: Seq<Color>,
    sheet: SpriteSheet,
    x: int,
    y: int,
    idx: int,
) -> bool {
    subsprite_drawn(
        m0,
        m1,
        surf,
        pal,
        sheet,
        x,
        y,
        idx,
        0,
        0,
        sheet.sprite_width as int,
        sheet.sprite_height as int,
    )
}

/// A blit never touches the fourth byte of any pixel.
pub proof fn lemma_blit_preserves_fourth_byte(
    old_mem: Seq<u8>,
    new_mem: Seq<u8>,
    sw: int,
    sh: int,
    pal: Seq<Color>,
    bm: Bitmap,
    x_dest: int,
    y_dest: int,
    x_src: int,
    y_src: int,
    w: int,
    h: int,
)
    requires
        blit_applied(old_mem, new_mem, sw, sh, pal, bm, x_dest, y_dest, x_src, y_src, w, h),
    ensures
        forall|x: int, y: int|
            0 <= x < sw && 0 <= y < sh ==> #[trigger] pixel_byte(new_mem, sw, x, y, 3)
                == pixel_byte(old_mem, sw, x, y, 3),
{
    assert forall|x: int, y: int| 0 <= x < sw && 0 <= y < sh implies #[trigger] pixel_byte(
        new_mem,
        sw,
        x,
        y,
        3,
    ) == pixel_byte(old_mem, sw, x, y, 3) by {
        let v = pixel_byte(new_mem, sw, x, y, 3);
    }
}

/// The glyph a character maps to: its distance above `A` in code points.
pub open spec fn glyph_index(c: char) -> int {
    c as int - 65
}

/// Whether drawing character `c` at (x, y) succeeds: it is not a space, its
/// glyph index is not negative, and the whole-sprite blit of its glyph from
/// the font sheet is in range.
pub open spec fn glyph_drawable(
    surf: BackBuffer,
    pal: Seq<Color>,
    font: SpriteSheet,
    c: char,
    x: int,
    y: int,
) -> bool {
    &&& c != ' '
    &&& glyph_index(c) >= 0
    &&& font.sprites_per_row > 0
    &&& blit_ok(
        surf,
        pal,
        font.bitmap,
        x,
        y,
        sprite_src_x(font, glyph_index(c), 0),
        sprite_src_y(font, glyph_index(c), 0),
        font.sprite_width as int,
        font.sprite_height as int,
    )
}

/// Whether a blit is in range depends only on the surface's dimensions, not
/// on its pixels.
pub proof fn lemma_blit_ok_same_dims(
    a: BackBuffer,
    b: BackBuffer,
    pal: Seq<Color>,
    bm: Bitmap,
    x_dest: int,
    y_dest: int,
    x_src: int,
    y_src: int,
    w: int,
    h: int,
)
    requires
        a.width == b.width,
        a.height == b.height,
    ensures
        blit_ok(a, pal, bm, x_dest, y_dest, x_src, y_src, w, h) == blit_ok(
            b,
            pal,
            bm,
            x_dest,
            y_dest,
            x_src,
            y_src,
            w,
            h,
        ),
{
}

/// Byte k of the pixel at offset (dx, dy) inside character slot `i` of a
/// text drawn at (x_dest, y_dest): slot `i` starts one sprite width to the
/// right of slot `i - 1`.
pub open spec fn slot_byte(
    mem: Seq<u8>,
    sw: int,
    font: SpriteSheet,
    x_dest: int,
    y_dest: int,
    i: int,
    dx: int,
    dy: int,
    k: int,
) -> u8 {
    pixel_byte(mem, sw, x_dest + i * font.sprite_width + dx, y_dest + dy, k)
}

/// The color byte glyph `c` paints at offset (dx, dy), channel k.
pub open spec fn glyph_pixel(
    pal: Seq<Color>,
    font: SpriteSheet,
    c: char,
    dx: int,
    dy: int,
    k: int,
) -> u8 {
    channel(
        pal[font.bitmap.data@[source_index(
            font.bitmap,
            sprite_src_x(font, glyph_index(c), 0),
            sprite_src_y(font, glyph_index(c), 0),
            dx,
            dy,
        )] as int],
        k,
    )
}

/// The surface after the first `done` characters of a text have been drawn
/// at (x_dest, y_dest): everything outside the band those characters span is
/// unchanged, each drawable character's slot carries its glyph with the
/// fourth byte of every pixel untouched, and the slot of a space or
/// undrawable character is unchanged.
pub open spec fn text_progress(
    old_mem: Seq<u8>,
    new_mem: Seq<u8>,
    surf: BackBuffer,
    pal: Seq<Color>,
    font: SpriteSheet,
    text: Seq<char>,
    x_dest: int,
    y_dest: int,
    done: int,
) -> bool {
    &&& new_mem.len() == old_mem.len()
    &&& forall|x: int, y: int, k: int|
        0 <= x < surf.width && 0 <= y < surf.height && 0 <= k < 4 && !(x_dest <= x < x_dest + done
            * font.sprite_width && y_dest <= y < y_dest + font.sprite_height) ==> #[trigger] pixel_byte(
            new_mem,
            surf.width as int,
            x,
            y,
            k,
        ) == pixel_byte(old_mem, surf.width as int, x, y, k)
    &&& forall|i: int, dx: int, dy: int, k: int|
        0 <= i < done && 0 <= dx < font.sprite_width && 0 <= dy < font.sprite_height && 0 <= k < 3
            && glyph_drawable(surf, pal, font, text[i], x_dest + i * font.sprite_width, y_dest)
            ==> #[trigger] slot_byte(new_mem, surf.width as int, font, x_dest, y_dest, i, dx, dy, k)
            == glyph_pixel(pal, font, text[i], dx, dy, k)
    &&& forall|i: int, dx: int, dy: int|
        0 <= i < done && 0 <= dx < font.sprite_width && 0 <= dy < font.sprite_height
            && glyph_drawable(surf, pal, font, text[i], x_dest + i * font.sprite_width, y_dest)
            ==> #[trigger] slot_byte(new_mem, surf.width as int, font, x_dest, y_dest, i, dx, dy, 3)
            == slot_byte(old_mem, surf.width as int, font, x_dest, y_dest, i, dx, dy, 3)
    &&& forall|i: int, dx: int, dy: int, k: int|
        0 <= i < done && 0 <= dx < font.sprite_width && 0 <= dy < font.sprite_height && 0 <= k < 4
            && !glyph_drawable(surf, pal, font, text[i], x_dest + i * font.sprite_width, y_dest)
            && 0 <= x_dest + i * font.sprite_width + dx < surf.width && 0 <= y_dest + dy
            < surf.height ==> #[trigger] slot_byte(
            new_mem,
            surf.width as int,
            font,
            x_dest,
            y_dest,
            i,
            dx,
            dy,
            k,
        ) == slot_byte(old_mem, surf.width as int, font, x_dest, y_dest, i, dx, dy, k)
}

/// Two surfaces of the same dimensions that agree on every pixel byte are
/// the same byte sequence.
pub proof fn lemma_mem_eq_from_pixels(a: Seq<u8>, b: Seq<u8>, sw: int, sh: int)
    requires
        0 <= sw,
        0 <= sh,
        a.len() == 4 * (sw * sh),
        b.len() == a.len(),
        forall|x: int, y: int, k: int|
            0 <= x < sw && 0 <= y < sh && 0 <= k < 4 ==> #[trigger] pixel_byte(a, sw, x, y, k)
                == pixel_byte(b, sw, x, y, k),
    ensures
        a == b,
{
    assert forall|t: int| 0 <= t < a.len() implies a[t] == b[t] by {
        crate::grid::lemma_byte_decompose(t, sw, sh);
        let k = t % 4;
        let p = t / 4;
        let x = p % sw;
        let y = p / sw;
        assert(pixel_byte(a, sw, x, y, k) == pixel_byte(b, sw, x, y, k));
        assert(4 * (y * sw + x) + k == t);
    }
    assert(a =~= b);
}

/// A sub-sprite draw has exactly one outcome for a given starting surface:
/// either outcome of `subsprite_drawn` pins every byte.
pub proof fn lemma_subsprite_drawn_deterministic(
    m0: Seq<u8>,
    n1: Seq<u8>,
    n2: Seq<u8>,
    surf: BackBuffer,
    pal: Seq<Color>,
    sheet: SpriteSheet,
    x: int,
    y: int,
    idx: int,
    x_offs: int,
    y_offs: int,
    w: int,
    h: int,
)
    requires
        0 <= surf.width,
        0 <= surf.height,
        m0.len() == 4 * (surf.width as int * surf.height as int),
        subsprite_drawn(m0, n1, surf, pal, sheet, x, y, idx, x_offs, y_offs, w, h),
        subsprite_drawn(m0, n2, surf, pal, sheet, x, y, idx, x_offs, y_offs, w, h),
    ensures
        n1 == n2,
        n1.len() == m0.len(),
{
    let sw = surf.width as int;
    let sh = surf.height as int;
    if idx >= 0 && sheet.sprites_per_row > 0 && blit_ok(
        surf,
        pal,
        sheet.bitmap,
        x,
        y,
        sprite_src_x(sheet, idx, x_offs),
        sprite_src_y(sheet, idx, y_offs),
        w,
        h,
    ) {
        assert forall|px: int, py: int, k: int|
            0 <= px < sw && 0 <= py < sh && 0 <= k < 4 implies #[trigger] pixel_byte(
            n1,
            sw,
            px,
            py,
            k,
        ) == pixel_byte(n2, sw, px, py, k) by {
            let v1 = pixel_byte(n1, sw, px, py, k);
            let v2 = pixel_byte(n2, sw, px, py, k);
        }
        lemma_mem_eq_from_pixels(n1, n2, sw, sh);
    }
}

/// A text draw has exactly one outcome for a given starting surface: every
/// byte of the result is pinned by `text_progress` once the whole text is
/// processed.
pub proof fn lemma_text_progress_deterministic(
    m0: Seq<u8>,
    n1: Seq<u8>,
    n2: Seq<u8>,
    surf: BackBuffer,
    pal: Seq<Color>,
    font: SpriteSheet,
    text: Seq<char>,
    x_dest: int,
    y_dest: int,
)
    requires
        font.wf(),
        0 <= surf.width,
        0 <= surf.height,
        m0.len() == 4 * (surf.width as int * surf.height as int),
        text_progress(m0, n1, surf, pal, font, text, x_dest, y_dest, text.len() as int),
        text_progress(m0, n2, surf, pal, font, text, x_dest, y_dest, text.len() as int),
    ensures
        n1 == n2,
        n1.len() == m0.len(),
{
    let sw = surf.width as int;
    let sh = surf.height as int;
    let swf = font.sprite_width as int;
    let n = text.len() as int;
    assert forall|x: int, y: int, k: int|
        0 <= x < sw && 0 <= y < sh && 0 <= k < 4 implies #[trigger] pixel_byte(n1, sw, x, y, k)
        == pixel_byte(n2, sw, x, y, k) by {
        if x_dest <= x < x_dest + n * swf && y_dest <= y < y_dest + font.sprite_height {
            let a = x - x_dest;
            vstd::arithmetic::div_mod::lemma_fundamental_div_mod(a, swf);
            vstd::arithmetic::div_mod::lemma_remainder(a, swf);
            let i = a / swf;
            let dx = a - i * swf;
            assert(swf * i == i * swf) by (nonlinear_arith);
            assert(a == i * swf + dx);
            assert(0 <= dx < swf);
            assert(x == x_dest + i * swf + dx);
            assert(0 <= i < n) by (nonlinear_arith)
                requires
                    0 <= a,
                    a < n * swf,
                    a == i * swf + dx,
                    0 <= dx < swf,
                    0 < swf,
            ;
            let dy = y - y_dest;
            if glyph_drawable(surf, pal, font, text[i], x_dest + i * swf, y_dest) {
                if k < 3 {
                    assert(slot_byte(n1, sw, font, x_dest, y_dest, i, dx, dy, k) == glyph_pixel(
                        pal,
                        font,
                        text[i],
                        dx,
                        dy,
                        k,
                    ));
                    assert(slot_byte(n2, sw, font, x_dest, y_dest, i, dx, dy, k) == glyph_pixel(
                        pal,
                        font,
                        text[i],
                        dx,
                        dy,
                        k,
                    ));
                } else {
                    assert(slot_byte(n1, sw, font, x_dest, y_dest, i, dx, dy, 3) == slot_byte(
                        m0,
                        sw,
                        font,
                        x_dest,
                        y_dest,
                        i,
                        dx,
                        dy,
                        3,
                    ));
                    assert(slot_byte(n2, sw, font, x_dest, y_dest, i, dx, dy, 3) == slot_byte(
                        m0,
                        sw,
                        font,
                        x_dest,
                        y_dest,
                        i,
                        dx,
                        dy,
                        3,
                    ));
                }
            } else {
                assert(slot_byte(n1, sw, font, x_dest, y_dest, i, dx, dy, k) == slot_byte(
                    m0,
                    sw,
                    font,
                    x_dest,
                    y_dest,
                    i,
                    dx,
                    dy,
                    k,
                ));
                assert(slot_byte(n2, sw, font, x_dest, y_dest, i, dx, dy, k) == slot_byte(
                    m0,
                    sw,
                    font,
                    x_dest,
                    y_dest,
                    i,
                    dx,
                    dy,
                    k,
                ));
            }
        } else {
            let v1 = pixel_byte(n1, sw, x, y, k);
            let v2 = pixel_byte(n2, sw, x, y, k);
        }
    }
    lemma_mem_eq_from_pixels(n1, n2, sw, sh);
}

/// Whether a character's glyph can be drawn depends only on the surface's
/// dimensions, not on its pixels.
pub proof fn lemma_glyph_drawable_same_dims(
    a: BackBuffer,
    b: BackBuffer,
    pal: Seq<Color>,
    font: SpriteSheet,
    c: char,
    x: int,
    y: int,
)
    requires
        a.width == b.width,
        a.height == b.height,
    ensures
        glyph_drawable(a, pal, font, c, x, y) == glyph_drawable(b, pal, font, c, x, y),
{
    lemma_blit_ok_same_dims(
        a,
        b,
        pal,
        font.bitmap,
        x,
        y,
        sprite_src_x(font, glyph_index(c), 0),
        sprite_src_y(font, glyph_index(c), 0),
        font.sprite_width as int,
        font.sprite_height as int,
    );
}

/// What a finished text draw says of the surface depends only on the
/// surface's dimensions, not on its pixels.
pub proof fn lemma_text_progress_same_dims(
    old_mem: Seq<u8>,
    new_mem: Seq<u8>,
    a: BackBuffer,
    b: BackBuffer,
    pal: Seq<Color>,
    font: SpriteSheet,
    text: Seq<char>,
    x_dest: int,
    y_dest: int,
    done: int,
)
    requires
        a.width == b.width,
        a.height == b.height,
        text_progress(old_mem, new_mem, a, pal, font, text, x_dest, y_dest, done),
    ensures
        text_progress(old_mem, new_mem, b, pal, font, text, x_dest, y_dest, done),
{
    let sw = a.width as int;
    assert forall|x: int, y: int, k: int|
        0 <= x < b.width && 0 <= y < b.height && 0 <= k < 4 && !(x_dest <= x < x_dest + done
            * font.sprite_width && y_dest <= y < y_dest + font.sprite_height) implies #[trigger] pixel_byte(
        new_mem,
        b.width as int,
        x,
        y,
        k,
    ) == pixel_byte(old_mem, b.width as int, x, y, k) by {
        let t = pixel_byte(new_mem, sw, x, y, k);
    }
    assert forall|i: int, dx: int, dy: int, k: int|
        0 <= i < done && 0 <= dx < font.sprite_width && 0 <= dy < font.sprite_height && 0 <= k < 3
            && glyph_drawable(b, pal, font, text[i], x_dest + i * font.sprite_width, y_dest)
            implies #[trigger] slot_byte(new_mem, b.width as int, font, x_dest, y_dest, i, dx, dy, k)
        == glyph_pixel(pal, font, text[i], dx, dy, k) by {
        lemma_glyph_drawable_same_dims(
            a,
            b,
            pal,
            font,
            text[i],
            x_dest + i * font.sprite_width,
            y_dest,
        );
        let t = slot_byte(new_mem, sw, font, x_dest, y_dest, i, dx, dy, k);
    }
    assert forall|i: int, dx: int, dy: int|
        0 <= i < done && 0 <= dx < font.sprite_width && 0 <= dy < font.sprite_height
            && glyph_drawable(b, pal, font, text[i], x_dest + i * font.sprite_width, y_dest)
            implies #[trigger] slot_byte(new_mem, b.width as int, font, x_dest, y_dest, i, dx, dy, 3)
        == slot_byte(old_mem, b.width as int, font, x_dest, y_dest, i, dx, dy, 3) by {
        lemma_glyph_drawable_same_dims(
            a,
            b,
            pal,
            font,
            text[i],
            x_dest + i * font.sprite_width,
            y_dest,
        );
        let t = slot_byte(new_mem, sw, font, x_dest, y_dest, i, dx, dy, 3);
    }
    assert forall|i: int, dx: int, dy: int, k: int|
        0 <= i < done && 0 <= dx < font.sprite_width && 0 <= dy < font.sprite_height && 0 <= k < 4
            && !glyph_drawable(b, pal, font, text[i], x_dest + i * font.sprite_width, y_dest) && 0
            <= x_dest + i * font.sprite_width + dx < b.width && 0 <= y_dest + dy
            < b.height implies #[trigger] slot_byte(
        new_mem,
        b.width as int,
        font,
        x_dest,
        y_dest,
        i,
        dx,
        dy,
        k,
    ) == slot_byte(old_mem, b.width as int, font, x_dest, y_dest, i, dx, dy, k) by {
        lemma_glyph_drawable_same_dims(
            a,
            b,
            pal,
            font,
            text[i],
            x_dest + i * font.sprite_width,
            y_dest,
        );
        let t = slot_byte(new_mem, sw, font, x_dest, y_dest, i, dx, dy, k);
    }
}

/// Drawing a text never touches the fourth byte of any pixel: the drawable
/// slots keep those bytes, the skipped slots and everything outside the band
/// keep all bytes.
pub proof fn lemma_text_preserves_fourth_byte(
    old_mem: Seq<u8>,
    new_mem: Seq<u8>,
    surf: BackBuffer,
    pal: Seq<Color>,
    font: SpriteSheet,
    text: Seq<char>,
    x_dest: int,
    y_dest: int,
)
    requires
        font.wf(),
        text_progress(old_mem, new_mem, surf, pal, font, text, x_dest, y_dest, text.len() as int),
    ensures
        forall|x: int, y: int|
            0 <= x < surf.width && 0 <= y < surf.height ==> #[trigger] pixel_byte(
                new_mem,
                surf.width as int,
                x,
                y,
                3,
            ) == pixel_byte(old_mem, surf.width as int, x, y, 3),
{
    let sw = surf.width as int;
    let swf = font.sprite_width as int;
    let n = text.len() as int;
    assert forall|x: int, y: int| 0 <= x < surf.width && 0 <= y < surf.height implies #[trigger] pixel_byte(
        new_mem,
        sw,
        x,
        y,
        3,
    ) == pixel_byte(old_mem, sw, x, y, 3) by {
        if x_dest <= x < x_dest + n * swf && y_dest <= y < y_dest + font.sprite_height {
            let a = x - x_dest;
            vstd::arithmetic::div_mod::lemma_fundamental_div_mod(a, swf);
            vstd::arithmetic::div_mod::lemma_remainder(a, swf);
            let i = a / swf;
            let dx = a - i * swf;
            assert(swf * i == i * swf) by (nonlinear_arith);
            assert(a == i * swf + dx);
            assert(0 <= dx < swf);
            assert(x == x_dest + i * swf + dx);
            assert(0 <= i < n) by (nonlinear_arith)
                requires
                    0 <= a,
                    a < n * swf,
                    a == i * swf + dx,
                    0 <= dx < swf,
                    0 < swf,
            ;
            let dy = y - y_dest;
            if glyph_drawable(surf, pal, font, text[i], x_dest + i * swf, y_dest) {
                assert(slot_byte(new_mem, sw, font, x_dest, y_dest, i, dx, dy, 3) == slot_byte(
                    old_mem,
                    sw,
                    font,
                    x_dest,
                    y_dest,
                    i,
                    dx,
                    dy,
                    3,
                ));
            } else {
                assert(slot_byte(new_mem, sw, font, x_dest, y_dest, i, dx, dy, 3) == slot_byte(
                    old_mem,
                    sw,
                    font,
                    x_dest,
                    y_dest,
                    i,
                    dx,
                    dy,
                    3,
                ));
            }
        }
    }
}

/// A character whose glyph is not drawn (a space, or a draw that would go
/// out of range) leaves the surface as it was, so text progress extends over
/// its slot.
proof fn lemma_text_step_skipped(
    old_mem: Seq<u8>,
    mem: Seq<u8>,
    surf: BackBuffer,
    pal: Seq<Color>,
    font: SpriteSheet,
    text: Seq<char>,
    x_dest: int,
    y_dest: int,
    j: int,
)
    requires
        font.wf(),
        0 <= j < text.len(),
        text_progress(old_mem, mem, surf, pal, font, text, x_dest, y_dest, j),
        !glyph_drawable(surf, pal, font, text[j], x_dest + j * font.sprite_width, y_dest),
    ensures
        text_progress(old_mem, mem, surf, pal, font, text, x_dest, y_dest, j + 1),
{
    let sw = surf.width as int;
    let swf = font.sprite_width as int;
    assert((j + 1) * swf == j * swf + swf) by (nonlinear_arith);
    assert forall|x: int, y: int, k: int|
        0 <= x < surf.width && 0 <= y < surf.height && 0 <= k < 4 && !(x_dest <= x < x_dest + (j
            + 1) * swf && y_dest <= y < y_dest + font.sprite_height) implies #[trigger] pixel_byte(
        mem,
        sw,
        x,
        y,
        k,
    ) == pixel_byte(old_mem, sw, x, y, k) by {
        assert(!(x_dest <= x < x_dest + j * swf && y_dest <= y < y_dest + font.sprite_height));
    }
    assert forall|i: int, dx: int, dy: int, k: int|
        0 <= i < j + 1 && 0 <= dx < font.sprite_width && 0 <= dy < font.sprite_height && 0 <= k < 4
            && !glyph_drawable(surf, pal, font, text[i], x_dest + i * swf, y_dest) && 0 <= x_dest + i
            * swf + dx < surf.width && 0 <= y_dest + dy < surf.height implies #[trigger] slot_byte(
        mem,
        sw,
        font,
        x_dest,
        y_dest,
        i,
        dx,
        dy,
        k,
    ) == slot_byte(old_mem, sw, font, x_dest, y_dest, i, dx, dy, k) by {
        if i == j {
            assert((i + 1) * swf == i * swf + swf) by (nonlinear_arith);
            assert(x_dest + i * swf + dx >= x_dest + j * swf);
            assert(pixel_byte(mem, sw, x_dest + i * swf + dx, y_dest + dy, k) == pixel_byte(
                old_mem,
                sw,
                x_dest + i * swf + dx,
                y_dest + dy,
                k,
            ));
        }
    }
}

/// Drawing character `j`'s glyph extends text progress over its slot: the
/// blit covers exactly that slot, so every earlier slot and everything
/// outside the band keeps its value.
proof fn lemma_text_step_drawn(
    old_mem: Seq<u8>,
    prev_mem: Seq<u8>,
    mem: Seq<u8>,
    surf: BackBuffer,
    pal: Seq<Color>,
    font: SpriteSheet,
    text: Seq<char>,
    x_dest: int,
    y_dest: int,
    j: int,
)
    requires
        font.wf(),
        0 <= j < text.len(),
        text_progress(old_mem, prev_mem, surf, pal, font, text, x_dest, y_dest, j),
        glyph_drawable(surf, pal, font, text[j], x_dest + j * font.sprite_width, y_dest),
        blit_applied(
            prev_mem,
            mem,
            surf.width as int,
            surf.height as int,
            pal,
            font.bitmap,
            x_dest + j * font.sprite_width,
            y_dest,
            sprite_src_x(font, glyph_index(text[j]), 0),
            sprite_src_y(font, glyph_index(text[j]), 0),
            font.sprite_width as int,
            font.sprite_height as int,
        ),
    ensures
        text_progress(old_mem, mem, surf, pal, font, text, x_dest, y_dest, j + 1),
{
    let sw = surf.width as int;
    let sh = surf.height as int;
    let swf = font.sprite_width as int;
    let shf = font.sprite_height as int;
    let xj = x_dest + j * swf;
    assert((j + 1) * swf == j * swf + swf) by (nonlinear_arith);
    assert forall|x: int, y: int, k: int|
        0 <= x < surf.width && 0 <= y < surf.height && 0 <= k < 4 && !(x_dest <= x < x_dest + (j
            + 1) * swf && y_dest <= y < y_dest + shf) implies #[trigger] pixel_byte(mem, sw, x, y, k)
        == pixel_byte(old_mem, sw, x, y, k) by {
        assert(!(xj <= x < xj + swf && y_dest <= y < y_dest + shf));
        assert(pixel_byte(mem, sw, x, y, k) == pixel_byte(prev_mem, sw, x, y, k));
        assert(!(x_dest <= x < x_dest + j * swf && y_dest <= y < y_dest + shf));
    }
    assert forall|i: int, dx: int, dy: int, k: int|
        0 <= i < j + 1 && 0 <= dx < swf && 0 <= dy < shf && 0 <= k < 3 && glyph_drawable(
            surf,
            pal,
            font,
            text[i],
            x_dest + i * swf,
            y_dest,
        ) implies #[trigger] slot_byte(mem, sw, font, x_dest, y_dest, i, dx, dy, k) == glyph_pixel(
        pal,
        font,
        text[i],
        dx,
        dy,
        k,
    ) by {
        let xx = x_dest + i * swf + dx;
        let yy = y_dest + dy;
        if i == j {
            assert(pixel_byte(mem, sw, xx, yy, k) == channel(
                pal[font.bitmap.data@[source_index(
                    font.bitmap,
                    sprite_src_x(font, glyph_index(text[j]), 0),
                    sprite_src_y(font, glyph_index(text[j]), 0),
                    xx - xj,
                    yy - y_dest,
                )] as int],
                k,
            ));
        } else {
            vstd::arithmetic::mul::lemma_mul_inequality(i + 1, j, swf);
            assert((i + 1) * swf == i * swf + swf) by (nonlinear_arith);
            assert(xx < xj);
            let prev = slot_byte(prev_mem, sw, font, x_dest, y_dest, i, dx, dy, k);
            assert(pixel_byte(mem, sw, xx, yy, k) == pixel_byte(prev_mem, sw, xx, yy, k));
        }
    }
    assert forall|i: int, dx: int, dy: int|
        0 <= i < j + 1 && 0 <= dx < swf && 0 <= dy < shf && glyph_drawable(
            surf,
            pal,
            font,
            text[i],
            x_dest + i * swf,
            y_dest,
        ) implies #[trigger] slot_byte(mem, sw, font, x_dest, y_dest, i, dx, dy, 3) == slot_byte(
        old_mem,
        sw,
        font,
        x_dest,
        y_dest,
        i,
        dx,
        dy,
        3,
    ) by {
        let xx = x_dest + i * swf + dx;
        let yy = y_dest + dy;
        assert((i + 1) * swf == i * swf + swf) by (nonlinear_arith);
        if i == j {
            assert(pixel_byte(mem, sw, xx, yy, 3) == pixel_byte(prev_mem, sw, xx, yy, 3));
            assert(!(x_dest <= xx < x_dest + j * swf && y_dest <= yy < y_dest + shf));
            assert(pixel_byte(prev_mem, sw, xx, yy, 3) == pixel_byte(old_mem, sw, xx, yy, 3));
        } else {
            vstd::arithmetic::mul::lemma_mul_inequality(i + 1, j, swf);
            assert(xx < xj);
            let prev = slot_byte(prev_mem, sw, font, x_dest, y_dest, i, dx, dy, 3);
            assert(pixel_byte(mem, sw, xx, yy, 3) == pixel_byte(prev_mem, sw, xx, yy, 3));
        }
    }
    assert forall|i: int, dx: int, dy: int, k: int|
        0 <= i < j + 1 && 0 <= dx < swf && 0 <= dy < shf && 0 <= k < 4 && !glyph_drawable(
            surf,
            pal,
            font,
            text[i],
            x_dest + i * swf,
            y_dest,
        ) && 0 <= x_dest + i * swf + dx < surf.width && 0 <= y_dest + dy
            < surf.height implies #[trigger] slot_byte(mem, sw, font, x_dest, y_dest, i, dx, dy, k)
        == slot_byte(old_mem, sw, font, x_dest, y_dest, i, dx, dy, k) by {
        let xx = x_dest + i * swf + dx;
        let yy = y_dest + dy;
        if i < j {
            vstd::arithmetic::mul::lemma_mul_inequality(i + 1, j, swf);
            assert((i + 1) * swf == i * swf + swf) by (nonlinear_arith);
            assert(xx < xj);
            let prev = slot_byte(prev_mem, sw, font, x_dest, y_dest, i, dx, dy, k);
            assert(pixel_byte(mem, sw, xx, yy, k) == pixel_byte(prev_mem, sw, xx, yy, k));
        }
    }
}

/// The x coordinate in the sheet bitmap of column offset `x_offs` inside
/// sprite `index`.
pub open spec fn sprite_src_x(sheet: SpriteSheet, index: int, x_offs: int) -> int
    recommends
        sheet.sprites_per_row > 0,
{
    (index % (sheet.sprites_per_row as int)) * sheet.sprite_width + x_offs
}

/// The y coordinate in the sheet bitmap of row offset `y_offs` inside
/// sprite `index`.
pub open spec fn sprite_src_y(sheet: SpriteSheet, index: int, y_offs: int) -> int
    recommends
        sheet.sprites_per_row > 0,
{
    (index / (sheet.sprites_per_row as int)) * sheet.sprite_height + y_offs
}

} // verus!
