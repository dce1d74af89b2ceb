//! The text console on the boot framebuffer: where the next character goes,
//! and which bytes of the framebuffer a character changes. Glyphs come from
//! the `noto_sans_mono_bitmap` font (regular weight, 16-pixel rows).
use vstd::prelude::*;
use noto_sans_mono_bitmap::{get_raster, get_raster_width, FontWeight, RasterHeight};

verus! {

/// Pixel rows between two lines of text.
pub const LINE_SPACING: usize = 2;

/// Pixel columns between two characters.
pub const LETTER_SPACING: usize = 0;

/// The empty margin around the text, in pixels.
pub const BORDER_PADDING: usize = 4;

/// The height of a glyph, in pixels.
pub const CHAR_RASTER_HEIGHT: usize = 16;

/// The width of a glyph, in pixels.
pub const CHAR_RASTER_WIDTH: usize = 7;

/// The number of intensities in a glyph.
pub const GLYPH_LEN: usize = 112;

/// The bitmap the font has for `c`: `GLYPH_LEN` intensities, row by row.
pub uninterp spec fn glyph_pixels(c: char) -> Seq<u8>;

/// `noto_sans_mono_bitmap::get_raster(c, FontWeight::Regular,
/// RasterHeight::Size16)`, its pixels copied out. Claims what the crate's
/// source shows with its default features (the basic Latin range only): a
/// glyph exists exactly for the printable ASCII characters, and it is 7 by
/// 16 pixels. The intensities themselves are the font's data, named
/// `glyph_pixels`.
#[verifier::external_body]
fn raster(c: char) -> (r: Option<Vec<u8>>)
    ensures
        r is Some <==> (' ' <= c && c <= '~'),
        r matches Some(p) ==> p@ == glyph_pixels(c) && p@.len() == GLYPH_LEN,
{
    match get_raster(c, FontWeight::Regular, RasterHeight::Size16) {
        Some(glyph) => Some(glyph.pixels().to_vec()),
        None => None,
    }
}

/// `noto_sans_mono_bitmap::get_raster_width(FontWeight::Regular,
/// RasterHeight::Size16)`: claims the width the crate's source gives that
/// font, 7 pixels.
#[verifier::external_body]
fn char_raster_width() -> (r: usize)
    ensures
        r == CHAR_RASTER_WIDTH,
{
    get_raster_width(FontWeight::Regular, RasterHeight::Size16)
}

/// The glyph drawn for `c`: its own, or the question mark's for a
/// character the font lacks.
pub open spec fn glyph_for(c: char) -> Seq<u8> {
    if ' ' <= c && c <= '~' {
        glyph_pixels(c)
    } else {
        glyph_pixels('?')
    }
}

/// The glyph drawn for `c`.
pub fn get_char_raster(c: char) -> (r: Vec<u8>)
    ensures
        r@ == glyph_for(c),
        r@.len() == GLYPH_LEN,
{
    match raster(c) {
        Some(p) => p,
        None => match raster('?') {
            Some(p) => p,
            None => match raster(' ') {
                Some(p) => p,
                None => {
                    assert(false);
                    Vec::new()
                },
            },
        },
    }
}

/// How the framebuffer stores a pixel.
#[derive(Debug, Clone, Copy, PartialEq, Eq, Structural)]
pub enum PixelFormat {
    Rgb,
    Bgr,
    U8,
    Unknown,
}

/// The framebuffer's geometry: visible size in pixels, pixels per row in
/// memory, bytes per pixel, and pixel format.
#[derive(Debug, Clone, Copy, PartialEq, Eq, Structural)]
pub struct FrameBufferInfo {
    pub width: usize,
    pub height: usize,
    pub stride: usize,
    pub bytes_per_pixel: usize,
    pub pixel_format: PixelFormat,
}

/// A pixel of the format fits in the bytes a pixel has.
pub open spec fn info_wf(info: FrameBufferInfo) -> bool {
    &&& (info.pixel_format == PixelFormat::Rgb || info.pixel_format == PixelFormat::Bgr)
        ==> info.bytes_per_pixel >= 3
    &&& info.pixel_format == PixelFormat::U8 ==> info.bytes_per_pixel >= 1
}

/// The first byte of pixel `(x, y)`.
pub open spec fn pixel_offset(info: FrameBufferInfo, x: int, y: int) -> int {
    (y * info.stride + x) * info.bytes_per_pixel
}

/// `buf` with pixel `(x, y)` set to the grey level `v`; a pixel whose bytes
/// lie outside the buffer (or past the machine's address range) is left out.
pub open spec fn put_pixel(buf: Seq<u8>, info: FrameBufferInfo, x: int, y: int, v: u8) -> Seq<u8> {
    let off = pixel_offset(info, x, y);
    if off + info.bytes_per_pixel > buf.len() || off + info.bytes_per_pixel > usize::MAX {
        buf
    } else {
        match info.pixel_format {
            PixelFormat::Rgb | PixelFormat::Bgr => buf.update(off, v).update(off + 1, v).update(
                off + 2,
                v,
            ),
            PixelFormat::U8 => buf.update(off, v),
            PixelFormat::Unknown => buf,
        }
    }
}

/// `buf` with the first `k` pixels of the glyph `px` drawn with its top
/// left corner at `(x0, y0)`, row by row.
pub open spec fn draw_upto(
    buf: Seq<u8>,
    info: FrameBufferInfo,
    x0: int,
    y0: int,
    px: Seq<u8>,
    k: int,
) -> Seq<u8>
    decreases k,
{
    if k <= 0 {
        buf
    } else {
        put_pixel(
            draw_upto(buf, info, x0, y0, px, k - 1),
            info,
            x0 + (k - 1) % 7,
            y0 + (k - 1) / 7,
            px[k - 1],
        )
    }
}

/// Sets pixel `(x, y)` to the grey level `v`.
pub fn write_pixel(buf: &mut [u8], info: &FrameBufferInfo, x: usize, y: usize, v: u8)
    requires
        info_wf(*info),
    ensures
        final(buf)@ == put_pixel(old(buf)@, *info, x as int, y as int, v),
{
    let bpp = info.bytes_per_pixel;
    let row = match y.checked_mul(info.stride) {
        Some(r) => r,
        None => {
            proof {
                if bpp >= 1 {
                    assert((y * info.stride + x) * bpp >= y * info.stride) by (nonlinear_arith)
                        requires
                            bpp >= 1,
                            y * info.stride >= 0,
                            x >= 0,
                    ;
                }
            }
            return;
        },
    };
    let pixel = match row.checked_add(x) {
        Some(p) => p,
        None => {
            proof {
                if bpp >= 1 {
                    assert((row + x) * bpp >= row + x) by (nonlinear_arith)
                        requires
                            bpp >= 1,
                            row + x >= 0,
                    ;
                }
            }
            return;
        },
    };
    let off = match pixel.checked_mul(bpp) {
        Some(o) => o,
        None => return,
    };
    if off > buf.len() || bpp > buf.len() - off {
        return;
    }
    match info.pixel_format {
        PixelFormat::Rgb | PixelFormat::Bgr => {
            buf[off] = v;
            buf[off + 1] = v;
            buf[off + 2] = v;
        },
        PixelFormat::U8 => {
            buf[off] = v;
        },
        PixelFormat::Unknown => {},
    }
}

/// The console's cursor on a framebuffer.
pub struct Writer {
    pub info: FrameBufferInfo,
    pub x_pos: usize,
    pub y_pos: usize,
}

/// Where a character is drawn and whether the screen is cleared first: a
/// character that would run past the right edge goes to the next line, and
/// one that would run past the bottom clears the screen and starts at the
/// top left.
pub open spec fn char_origin(info: FrameBufferInfo, x: int, y: int) -> (int, int, bool) {
    let (x1, y1) = if x + CHAR_RASTER_WIDTH >= info.width {
        (BORDER_PADDING as int, y + CHAR_RASTER_HEIGHT + LINE_SPACING)
    } else {
        (x, y)
    };
    if y1 + CHAR_RASTER_HEIGHT + BORDER_PADDING >= info.height {
        (BORDER_PADDING as int, BORDER_PADDING as int, true)
    } else {
        (x1, y1, false)
    }
}

impl Writer {
    /// The console on a framebuffer, cleared.
    pub fn new(buf: &mut [u8], info: FrameBufferInfo) -> (r: Self)
        ensures
            r.info == info,
            r.x_pos == BORDER_PADDING,
            r.y_pos == BORDER_PADDING,
            final(buf)@ == Seq::new(old(buf)@.len(), |i: int| 0u8),
    {
        let mut w = Writer { info, x_pos: 0, y_pos: 0 };
        w.clear(buf);
        w
    }

    /// Blanks the screen and moves to the top left.
    pub fn clear(&mut self, buf: &mut [u8])
        ensures
            final(self).info == old(self).info,
            final(self).x_pos == BORDER_PADDING,
            final(self).y_pos == BORDER_PADDING,
            final(buf)@ == Seq::new(old(buf)@.len(), |i: int| 0u8),
    {
        self.x_pos = BORDER_PADDING;
        self.y_pos = BORDER_PADDING;
        let mut i: usize = 0;
        while i < buf.len()
            invariant
                i <= buf@.len(),
                buf@.len() == old(buf)@.len(),
                forall|j: int| 0 <= j < i ==> buf@[j] == 0u8,
            decreases buf@.len() - i,
        {
            buf[i] = 0;
            i = i + 1;
        }
        assert(buf@ =~= Seq::new(old(buf)@.len(), |i: int| 0u8));
    }

    /// Moves to the start of the next line.
    pub fn newline(&mut self)
        requires
            old(self).y_pos + CHAR_RASTER_HEIGHT + LINE_SPACING <= usize::MAX,
        ensures
            final(self).info == old(self).info,
            final(self).y_pos == old(self).y_pos + CHAR_RASTER_HEIGHT + LINE_SPACING,
            final(self).x_pos == BORDER_PADDING,
    {
        self.y_pos = self.y_pos + CHAR_RASTER_HEIGHT + LINE_SPACING;
        self.carriage_return();
    }

    /// Moves to the start of the line.
    pub fn carriage_return(&mut self)
        ensures
            final(self).info == old(self).info,
            final(self).y_pos == old(self).y_pos,
            final(self).x_pos == BORDER_PADDING,
    {
        self.x_pos = BORDER_PADDING;
    }

    /// Draws the glyph `px` at the cursor and moves past it.
    fn write_rendered_char(&mut self, buf: &mut [u8], px: &Vec<u8>)
        requires
            info_wf(old(self).info),
            px@.len() == GLYPH_LEN,
            old(self).x_pos + CHAR_RASTER_WIDTH + LETTER_SPACING <= usize::MAX,
            old(self).y_pos + CHAR_RASTER_HEIGHT <= usize::MAX,
        ensures
            final(self).info == old(self).info,
            final(self).y_pos == old(self).y_pos,
            final(self).x_pos == old(self).x_pos + CHAR_RASTER_WIDTH + LETTER_SPACING,
            final(buf)@ == draw_upto(
                old(buf)@,
                old(self).info,
                old(self).x_pos as int,
                old(self).y_pos as int,
                px@,
                GLYPH_LEN as int,
            ),
    {
        let info = self.info;
        let x0 = self.x_pos;
        let y0 = self.y_pos;
        let mut y: usize = 0;
        while y < CHAR_RASTER_HEIGHT
            invariant
                y <= CHAR_RASTER_HEIGHT,
                info_wf(info),
                px@.len() == GLYPH_LEN,
                x0 + CHAR_RASTER_WIDTH <= usize::MAX,
                y0 + CHAR_RASTER_HEIGHT <= usize::MAX,
                buf@ == draw_upto(old(buf)@, info, x0 as int, y0 as int, px@, (y * 7) as int),
            decreases CHAR_RASTER_HEIGHT - y,
        {
            let mut x: usize = 0;
            while x < CHAR_RASTER_WIDTH
                invariant
                    y < CHAR_RASTER_HEIGHT,
                    x <= CHAR_RASTER_WIDTH,
                    info_wf(info),
                    px@.len() == GLYPH_LEN,
                    x0 + CHAR_RASTER_WIDTH <= usize::MAX,
                    y0 + CHAR_RASTER_HEIGHT <= usize::MAX,
                    buf@ == draw_upto(old(buf)@, info, x0 as int, y0 as int, px@, (y * 7 + x) as int),
                decreases CHAR_RASTER_WIDTH - x,
            {
                let k = y * 7 + x;
                assert(k % 7 == x && k / 7 == y) by (nonlinear_arith)
                    requires
                        k == y * 7 + x,
                        x < 7,
                ;
                write_pixel(buf, &info, x0 + x, y0 + y, px[k]);
                x = x + 1;
            }
            y = y + 1;
        }
        self.x_pos = self.x_pos + char_raster_width() + LETTER_SPACING;
    }

    /// Prints `c`: a newline or carriage return moves the cursor; any other
    /// character is drawn (see `char_origin`) and the cursor moves past it.
    pub fn write_char(&mut self, buf: &mut [u8], c: char)
        requires
            info_wf(old(self).info),
            old(self).x_pos + CHAR_RASTER_WIDTH <= usize::MAX,
            old(self).y_pos + CHAR_RASTER_HEIGHT + LINE_SPACING + CHAR_RASTER_HEIGHT
                + BORDER_PADDING <= usize::MAX,
        ensures
            final(self).info == old(self).info,
            c == '\n' ==> final(self).x_pos == BORDER_PADDING && final(self).y_pos == old(
                self,
            ).y_pos + CHAR_RASTER_HEIGHT + LINE_SPACING && final(buf)@ == old(buf)@,
            c == '\r' ==> final(self).x_pos == BORDER_PADDING && final(self).y_pos == old(
                self,
            ).y_pos && final(buf)@ == old(buf)@,
            c != '\n' && c != '\r' ==> ({
                let (x1, y1, cleared) = char_origin(
                    old(self).info,
                    old(self).x_pos as int,
                    old(self).y_pos as int,
                );
                let before = if cleared {
                    Seq::new(old(buf)@.len(), |i: int| 0u8)
                } else {
                    old(buf)@
                };
                &&& final(self).x_pos == x1 + CHAR_RASTER_WIDTH + LETTER_SPACING
                &&& final(self).y_pos == y1
                &&& final(buf)@ == draw_upto(
                    before,
                    old(self).info,
                    x1,
                    y1,
                    glyph_for(c),
                    GLYPH_LEN as int,
                )
            }),
    {
        if c == '\n' {
            self.newline();
        } else if c == '\r' {
            self.carriage_return();
        } else {
            if self.x_pos + char_raster_width() >= self.info.width {
                self.newline();
            }
            if self.y_pos + CHAR_RASTER_HEIGHT + BORDER_PADDING >= self.info.height {
                self.clear(buf);
            }
            let px = get_char_raster(c);
            self.write_rendered_char(buf, &px);
        }
    }
}

} // verus!
