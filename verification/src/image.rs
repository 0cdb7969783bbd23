//! Colors, pixels and the raster they are written to.
use vstd::prelude::*;
use crate::scalar::{Scalar, ONE_BITS};

verus! {

/// One finished pixel: eight bits per channel.
#[derive(Clone, Copy, Debug, PartialEq, Eq, Structural)]
pub struct Pixel {
    pub r: u8,
    pub g: u8,
    pub b: u8,
}

/// Light in linear space, one scalar per channel.
#[derive(Clone, Copy, Debug, PartialEq, Eq, Structural)]
pub struct Color {
    pub r: Scalar,
    pub g: Scalar,
    pub b: Scalar,
}

impl Color {
    /// No light at all: every channel is `+0.0`.
    pub open spec fn is_black(self) -> bool {
        self.r.bits == 0 && self.g.bits == 0 && self.b.bits == 0
    }

    pub fn black() -> (c: Color)
        ensures
            c.is_black(),
    {
        Color { r: Scalar::zero(), g: Scalar::zero(), b: Scalar::zero() }
    }

    /// Every channel is `1.0`: a surface that takes nothing from the light.
    pub fn white() -> (c: Color)
        ensures
            c.r.bits == ONE_BITS,
            c.g.bits == ONE_BITS,
            c.b.bits == ONE_BITS,
    {
        Color { r: Scalar::one(), g: Scalar::one(), b: Scalar::one() }
    }

    pub fn new(r: Scalar, g: Scalar, b: Scalar) -> (c: Color)
        ensures
            c == (Color { r, g, b }),
    {
        Color { r, g, b }
    }
}

impl Pixel {
    /// The pixel of a color whose channels have been scaled to `0..=255`.
    pub open spec fn quantized(scaled: Color) -> Pixel {
        Pixel { r: scaled.r.byte() as u8, g: scaled.g.byte() as u8, b: scaled.b.byte() as u8 }
    }

    /// The three bytes of the pixel in the order blue, green, red.
    pub open spec fn bgr(self) -> Seq<u8> {
        seq![self.b, self.g, self.r]
    }

    /// Cuts each channel of a color scaled to `0..=255` down to a byte. A
    /// channel below zero gives 0, one above 255 gives 255, a NaN gives 0.
    pub fn quantize(scaled: Color) -> (p: Pixel)
        ensures
            p == Pixel::quantized(scaled),
            p.r == scaled.r.byte(),
            p.g == scaled.g.byte(),
            p.b == scaled.b.byte(),
    {
        Pixel { r: scaled.r.to_u8(), g: scaled.g.to_u8(), b: scaled.b.to_u8() }
    }

    /// Appends the pixel to `buf` as blue, green, red.
    pub fn write_to_buf_bgr(&self, buf: &mut Vec<u8>)
        ensures
            final(buf)@ == old(buf)@ + self.bgr(),
    {
        buf.push(self.b);
        buf.push(self.g);
        buf.push(self.r);
        assert(buf@ =~= old(buf)@ + self.bgr());
    }
}

/// The two bytes of `v`, high byte first.
pub open spec fn be_bytes_u16(v: u16) -> Seq<u8> {
    seq![(v / 256) as u8, (v % 256) as u8]
}

/// The two bytes of `v`, low byte first.
pub open spec fn le_bytes_u16(v: u16) -> Seq<u8> {
    seq![(v % 256) as u8, (v / 256) as u8]
}

/// The four bytes of `v`, low byte first.
pub open spec fn le_bytes_u32(v: u32) -> Seq<u8> {
    seq![
        (v % 256) as u8,
        (v / 256 % 256) as u8,
        (v / 65536 % 256) as u8,
        (v / 16777216) as u8,
    ]
}

/// The unsigned number with the same 32 bits as `v` in two's complement.
pub open spec fn twos_complement(v: i32) -> u32 {
    if v < 0 {
        (v + 0x1_0000_0000) as u32
    } else {
        v as u32
    }
}

/// The four bytes of `v` in two's complement, low byte first.
pub open spec fn le_bytes_i32(v: i32) -> Seq<u8> {
    le_bytes_u32(twos_complement(v))
}

fn push_u16_be(buf: &mut Vec<u8>, v: u16)
    ensures
        final(buf)@ == old(buf)@ + be_bytes_u16(v),
{
    buf.push((v / 256) as u8);
    buf.push((v % 256) as u8);
    assert(buf@ =~= old(buf)@ + be_bytes_u16(v));
}

fn push_u16_le(buf: &mut Vec<u8>, v: u16)
    ensures
        final(buf)@ == old(buf)@ + le_bytes_u16(v),
{
    buf.push((v % 256) as u8);
    buf.push((v / 256) as u8);
    assert(buf@ =~= old(buf)@ + le_bytes_u16(v));
}

fn push_u32_le(buf: &mut Vec<u8>, v: u32)
    ensures
        final(buf)@ == old(buf)@ + le_bytes_u32(v),
{
    buf.push((v % 256) as u8);
    buf.push((v / 256 % 256) as u8);
    buf.push((v / 65536 % 256) as u8);
    buf.push((v / 16777216) as u8);
    assert(buf@ =~= old(buf)@ + le_bytes_u32(v));
}

fn push_i32_le(buf: &mut Vec<u8>, v: i32)
    ensures
        final(buf)@ == old(buf)@ + le_bytes_i32(v),
{
    let unsigned: u32 = if v < 0 {
        let low: u32 = (v + i32::MAX + 1) as u32;
        low + 0x8000_0000
    } else {
        v as u32
    };
    push_u32_le(buf, unsigned);
}

/// The file header of a bitmap file.
pub struct BmpHeader {
    pub magic: u16,
    pub size: u32,
    pub offset: u32,
}

impl BmpHeader {
    /// The fourteen bytes of the header: the magic number with its high byte
    /// first, the file size, four reserved bytes and the offset of the pixel
    /// data, the numbers with their low byte first.
    pub open spec fn bytes(&self) -> Seq<u8> {
        be_bytes_u16(self.magic) + le_bytes_u32(self.size) + seq![0u8, 0u8, 0u8, 0u8]
            + le_bytes_u32(self.offset)
    }

    /// Appends the header to `buf`.
    pub fn write_to_buf(&self, buf: &mut Vec<u8>)
        ensures
            final(buf)@ == old(buf)@ + self.bytes(),
            self.bytes().len() == 14,
    {
        push_u16_be(buf, self.magic);
        push_u32_le(buf, self.size);
        buf.push(0);
        buf.push(0);
        buf.push(0);
        buf.push(0);
        push_u32_le(buf, self.offset);
        assert(buf@ =~= old(buf)@ + self.bytes());
    }
}

/// The information header of a bitmap file.
pub struct BmpInfo {
    pub size: u32,
    pub width: i32,
    pub height: i32,
    pub planes: u16,
    pub bit_count: u16,
    pub compression: u32,
    pub size_image: u32,
    pub x_dpmeter: i32,
    pub y_dpmeter: i32,
    pub clr_used: u32,
    pub clr_important: u32,
}

impl BmpInfo {
    /// The forty bytes of the header, every field with its low byte first.
    pub open spec fn bytes(&self) -> Seq<u8> {
        le_bytes_u32(self.size) + le_bytes_i32(self.width) + le_bytes_i32(self.height)
            + le_bytes_u16(self.planes) + le_bytes_u16(self.bit_count) + le_bytes_u32(
            self.compression,
        ) + le_bytes_u32(self.size_image) + le_bytes_i32(self.x_dpmeter) + le_bytes_i32(
            self.y_dpmeter,
        ) + le_bytes_u32(self.clr_used) + le_bytes_u32(self.clr_important)
    }

    /// The header of an uncompressed image with three bytes per pixel, rows
    /// stored from the top (a negative height says so).
    pub open spec fn bgr(width: int, height: int, num_pixels: int) -> BmpInfo {
        BmpInfo {
            size: 40,
            width: width as i32,
            height: (-height) as i32,
            planes: 1,
            bit_count: 24,
            compression: 0,
            size_image: (3 * num_pixels) as u32,
            x_dpmeter: 0,
            y_dpmeter: 0,
            clr_used: 0,
            clr_important: 0,
        }
    }

    pub fn new_bgr(width: usize, height: usize, num_pixels: usize) -> (info: BmpInfo)
        requires
            width <= i32::MAX,
            height <= i32::MAX,
            3 * num_pixels <= u32::MAX,
        ensures
            info == BmpInfo::bgr(width as int, height as int, num_pixels as int),
            info.width == width,
            info.height == -height,
            info.size_image == 3 * num_pixels,
    {
        BmpInfo {
            size: 40,
            width: width as i32,
            height: -(height as i32),
            planes: 1,
            bit_count: 24,
            compression: 0,
            size_image: (num_pixels as u32) * 3,
            x_dpmeter: 0,
            y_dpmeter: 0,
            clr_used: 0,
            clr_important: 0,
        }
    }

    /// Appends the header to `buf`.
    pub fn write_to_buf(&self, buf: &mut Vec<u8>)
        ensures
            final(buf)@ == old(buf)@ + self.bytes(),
            self.bytes().len() == 40,
    {
        push_u32_le(buf, self.size);
        push_i32_le(buf, self.width);
        push_i32_le(buf, self.height);
        push_u16_le(buf, self.planes);
        push_u16_le(buf, self.bit_count);
        push_u32_le(buf, self.compression);
        push_u32_le(buf, self.size_image);
        push_i32_le(buf, self.x_dpmeter);
        push_i32_le(buf, self.y_dpmeter);
        push_u32_le(buf, self.clr_used);
        push_u32_le(buf, self.clr_important);
        assert(buf@ =~= old(buf)@ + self.bytes());
    }
}

/// The magic number of a bitmap file: the letters `BM`.
pub const BMP_MAGIC: u16 = 0x424D;

/// Where the pixel data starts in an encoded image.
pub const BMP_DATA_OFFSET: u32 = 64;

/// The byte that fills the gap between the headers and the pixel data.
pub const BMP_FILLER: u8 = 0xCC;

/// The length of the two headers together.
pub const BMP_HEADERS_LEN: u32 = 54;

/// How many zero bytes follow a row of `width` pixels, so that every row
/// takes a multiple of four bytes.
pub open spec fn row_padding(width: int) -> int {
    (4 - (3 * width) % 4) % 4
}

/// `n` copies of `byte`.
pub open spec fn repeated(byte: u8, n: int) -> Seq<u8> {
    Seq::new(n as nat, |i: int| byte)
}

/// The pixels one after the other, each as blue, green, red.
pub open spec fn bgr_bytes(pixels: Seq<Pixel>) -> Seq<u8>
    decreases pixels.len(),
{
    if pixels.len() == 0 {
        Seq::empty()
    } else {
        bgr_bytes(pixels.drop_last()) + pixels.last().bgr()
    }
}

/// A raster of pixels, stored row by row from the top.
#[derive(Debug)]
pub struct Image {
    width: usize,
    height: usize,
    pixels: Vec<Pixel>,
}

impl Image {
    #[verifier::type_invariant]
    spec fn well_formed(&self) -> bool {
        self.pixels@.len() == self.width * self.height
    }

    /// The number of columns.
    pub closed spec fn width(&self) -> nat {
        self.width as nat
    }

    /// The number of rows.
    pub closed spec fn height(&self) -> nat {
        self.height as nat
    }

    /// The number of columns and the number of rows.
    pub fn size(&self) -> (wh: (usize, usize))
        ensures
            wh.0 == self.width(),
            wh.1 == self.height(),
    {
        (self.width, self.height)
    }

    /// The pixels row by row: the pixel in column `x` of row `y` stands at
    /// `y * width + x`.
    pub closed spec fn view(&self) -> Seq<Pixel> {
        self.pixels@
    }

    /// `(x, y)` names a pixel of the raster.
    pub open spec fn contains(&self, x: usize, y: usize) -> bool {
        x < self.width() && y < self.height()
    }

    /// Where the pixel `(x, y)` stands in the view.
    pub open spec fn offset(&self, x: usize, y: usize) -> int {
        y * self.width() + x
    }

    /// An image of the given size, all black.
    pub fn new(width: usize, height: usize) -> (img: Image)
        requires
            width * height <= usize::MAX,
        ensures
            img.width() == width,
            img.height() == height,
            img@.len() == width * height,
            forall|i: int| 0 <= i < img@.len() ==> img@[i] == (Pixel { r: 0, g: 0, b: 0 }),
    {
        let black = Pixel { r: 0, g: 0, b: 0 };
        let pixels = vec![black; width * height];
        Image { width, height, pixels }
    }

    /// Row `y` of the raster, left to right.
    pub open spec fn row(&self, y: int) -> Seq<Pixel> {
        self@.subrange(y * self.width(), (y + 1) * self.width())
    }

    /// Row `y` as it stands in a bitmap file: its pixels, then the padding.
    pub open spec fn row_bytes(&self, y: int) -> Seq<u8> {
        bgr_bytes(self.row(y)) + repeated(0, row_padding(self.width() as int))
    }

    /// The first `n` rows as they stand in a bitmap file, top row first.
    pub open spec fn rows_bytes(&self, n: int) -> Seq<u8>
        decreases n,
    {
        if n <= 0 {
            Seq::empty()
        } else {
            self.rows_bytes(n - 1) + self.row_bytes(n - 1)
        }
    }

    /// The headers that the encoder writes for this image.
    pub open spec fn bmp_header(&self) -> BmpHeader {
        BmpHeader { magic: BMP_MAGIC, size: 0, offset: BMP_DATA_OFFSET }
    }

    pub open spec fn bmp_info(&self) -> BmpInfo {
        BmpInfo::bgr(self.width() as int, self.height() as int, self@.len() as int)
    }

    /// The image as a bitmap file: file header, information header, filler
    /// up to the data offset, then the rows from the top.
    pub open spec fn bmp_bytes(&self) -> Seq<u8> {
        self.bmp_header().bytes() + self.bmp_info().bytes() + repeated(
            BMP_FILLER,
            BMP_DATA_OFFSET - BMP_HEADERS_LEN,
        ) + self.rows_bytes(self.height() as int)
    }

    /// The sizes of the image fit the fields of a bitmap header.
    pub open spec fn fits_bmp(&self) -> bool {
        &&& self.width() <= i32::MAX
        &&& self.height() <= i32::MAX
        &&& 3 * self@.len() <= u32::MAX
    }

    /// Whether the image can be encoded as a bitmap file.
    #[verifier::when_used_as_spec(fits_bmp)]
    pub fn can_encode(&self) -> (b: bool)
        ensures
            b == self.fits_bmp(),
    {
        self.width <= 0x7fff_ffff && self.height <= 0x7fff_ffff && self.pixels.len()
            <= 0x5555_5555
    }

    /// Encodes the image as an uncompressed bitmap file with 24 bits per
    /// pixel.
    pub fn to_bmp(&self) -> (out: Vec<u8>)
        requires
            self.fits_bmp(),
        ensures
            out@ == self.bmp_bytes(),
            out@.len() == BMP_DATA_OFFSET + self.height() * (3 * self.width() + row_padding(
                self.width() as int,
            )),
    {
        proof {
            use_type_invariant(self);
            self.lemma_rows_bytes_len(self.height as int);
        }
        assert(self.pixels@.len() == self.pixels.len());
        let mut out: Vec<u8> = Vec::with_capacity(self.pixels.len() * 3);
        let header = BmpHeader { magic: BMP_MAGIC, size: 0, offset: BMP_DATA_OFFSET };
        header.write_to_buf(&mut out);
        let info = BmpInfo::new_bgr(self.width, self.height, self.pixels.len());
        info.write_to_buf(&mut out);
        let mut at: usize = out.len();
        assert(repeated(BMP_FILLER, 0) =~= Seq::<u8>::empty());
        while at < 64
            invariant
                BMP_HEADERS_LEN <= at <= BMP_DATA_OFFSET,
                out@ == self.bmp_header().bytes() + self.bmp_info().bytes() + repeated(
                    BMP_FILLER,
                    at - BMP_HEADERS_LEN,
                ),
            decreases 64 - at,
        {
            out.push(BMP_FILLER);
            at += 1;
            assert(repeated(BMP_FILLER, at - BMP_HEADERS_LEN) =~= repeated(
                BMP_FILLER,
                at - 1 - BMP_HEADERS_LEN,
            ).push(BMP_FILLER));
        }
        let ghost head = out@;
        let padding: usize = (4 - (3 * (self.width % 4)) % 4) % 4;
        assert(padding == row_padding(self.width as int));
        let mut y: usize = 0;
        while y < self.height
            invariant
                y <= self.height,
                self.pixels@.len() == self.width * self.height,
                self.pixels@.len() <= usize::MAX,
                padding == row_padding(self.width as int),
                out@ == head + self.rows_bytes(y as int),
            decreases self.height - y,
        {
            let ghost before = out@;
            proof {
                lemma_row_in_range(y as int, self.width as int, self.height as int);
            }
            let start: usize = y * self.width;
            let mut x: usize = 0;
            while x < self.width
                invariant
                    x <= self.width,
                    y < self.height,
                    start == y * self.width,
                    start + self.width <= self.pixels@.len(),
                    self.pixels@.len() <= usize::MAX,
                    out@ == before + bgr_bytes(self@.subrange(start as int, start + x)),
                decreases self.width - x,
            {
                let pixel = &self.pixels[start + x];
                pixel.write_to_buf_bgr(&mut out);
                proof {
                    let wider = self@.subrange(start as int, start + x + 1);
                    assert(wider.drop_last() =~= self@.subrange(start as int, start + x));
                    assert(wider.last() == self@[start + x]);
                }
                x += 1;
            }
            let mut k: usize = 0;
            while k < padding
                invariant
                    k <= padding,
                    start + self.width <= self.pixels@.len(),
                    out@ == before + bgr_bytes(self@.subrange(start as int, start + self.width))
                        + repeated(0, k as int),
                decreases padding - k,
            {
                out.push(0);
                k += 1;
                assert(repeated(0, k as int) =~= repeated(0, k - 1).push(0));
            }
            proof {
                assert((y + 1) * self.width == start + self.width) by (nonlinear_arith)
                    requires
                        start == y * self.width,
                ;
                assert(self.row(y as int) == self@.subrange(start as int, start + self.width));
                assert(out@ =~= head + (self.rows_bytes(y as int) + self.row_bytes(y as int)));
            }
            y += 1;
        }
        out
    }

    /// The first `n` rows take `n` times the bytes of a row: three for each
    /// pixel, and the padding.
    pub proof fn lemma_rows_bytes_len(&self, n: int)
        requires
            0 <= n <= self.height(),
            self@.len() == self.width() * self.height(),
        ensures
            self.rows_bytes(n).len() == n * (3 * self.width() + row_padding(self.width() as int)),
        decreases n,
    {
        let stride = 3 * self.width() + row_padding(self.width() as int);
        if n > 0 {
            self.lemma_rows_bytes_len(n - 1);
            lemma_row_in_range(n - 1, self.width() as int, self.height() as int);
            assert((n - 1) * self.width() + self.width() == n * self.width()) by (nonlinear_arith);
            lemma_bgr_bytes_len(self.row(n - 1));
            assert(self.row_bytes(n - 1).len() == stride);
            assert(n * stride == (n - 1) * stride + stride) by (nonlinear_arith);
        } else {
            assert(n * stride == 0) by (nonlinear_arith)
                requires
                    n == 0,
            ;
        }
    }

    /// An image of the given size whose pixel in column `x` of row `y` is
    /// what `pixel` gives for `(x, y)`. The pixels are asked for row by row
    /// from the top, each row from the left, every one once.
    pub fn from_fn<F: Fn(usize, usize) -> Pixel>(width: usize, height: usize, pixel: F) -> (img:
        Image)
        requires
            width * height <= usize::MAX,
            forall|x: usize, y: usize| x < width && y < height ==> call_requires(pixel, (x, y)),
        ensures
            img.width() == width,
            img.height() == height,
            img@.len() == width * height,
            forall|x: usize, y: usize|
                x < width && y < height ==> call_ensures(
                    pixel,
                    (x, y),
                    #[trigger] img@[img.offset(x, y)],
                ),
    {
        let mut pixels: Vec<Pixel> = Vec::new();
        let mut y: usize = 0;
        while y < height
            invariant
                y <= height,
                width * height <= usize::MAX,
                pixels@.len() == y * width,
                forall|x: usize, y: usize| x < width && y < height ==> call_requires(pixel, (x, y)),
                forall|i: usize, j: usize|
                    i < width && j < y ==> call_ensures(
                        pixel,
                        (i, j),
                        #[trigger] pixels@[j * width + i],
                    ),
            decreases height - y,
        {
            let mut x: usize = 0;
            while x < width
                invariant
                    x <= width,
                    y < height,
                    pixels@.len() == y * width + x,
                    forall|x: usize, y: usize|
                        x < width && y < height ==> call_requires(pixel, (x, y)),
                    forall|i: usize, j: usize|
                        i < width && j < y ==> call_ensures(
                            pixel,
                            (i, j),
                            #[trigger] pixels@[j * width + i],
                        ),
                    forall|i: usize|
                        i < x ==> call_ensures(pixel, (i, y), #[trigger] pixels@[y * width + i]),
                decreases width - x,
            {
                let ghost before = pixels@;
                let p = pixel(x, y);
                pixels.push(p);
                proof {
                    assert forall|i: usize, j: usize| i < width && j < y implies call_ensures(
                        pixel,
                        (i, j),
                        #[trigger] pixels@[j * width + i],
                    ) by {
                        lemma_offset_in_range(i as int, j as int, width as int, y as int);
                        assert(width * y == y * width) by (nonlinear_arith);
                        assert(pixels@[j * width + i] == before[j * width + i]);
                    }
                    assert forall|i: usize| i < x + 1 implies call_ensures(
                        pixel,
                        (i, y),
                        #[trigger] pixels@[y * width + i],
                    ) by {
                        if i < x {
                            assert(pixels@[y * width + i] == before[y * width + i]);
                        }
                    }
                }
                x += 1;
            }
            proof {
                assert((y + 1) * width == y * width + width) by (nonlinear_arith);
                assert forall|i: usize, j: usize| i < width && j < y + 1 implies call_ensures(
                    pixel,
                    (i, j),
                    #[trigger] pixels@[j * width + i],
                ) by {
                    if j == y {
                        assert(call_ensures(pixel, (i, y), pixels@[y * width + i]));
                    }
                }
            }
            y += 1;
        }
        assert(height * width == width * height) by (nonlinear_arith);
        Image { width, height, pixels }
    }

    /// `Some(())` when `(x, y)` names a pixel of the raster, else `None`.
    pub fn enforce(&self, x: usize, y: usize) -> (r: Option<()>)
        ensures
            r.is_some() == self.contains(x, y),
    {
        if x < self.width && y < self.height {
            Some(())
        } else {
            None
        }
    }

    /// The pixel in column `x` of row `y`; `None` outside the raster.
    pub fn px(&self, x: usize, y: usize) -> (r: Option<&Pixel>)
        ensures
            self.contains(x, y) ==> r == Some(&self@[self.offset(x, y)]),
            !self.contains(x, y) ==> r.is_none(),
            self.contains(x, y) ==> 0 <= self.offset(x, y) < self@.len(),
    {
        proof {
            use_type_invariant(self);
        }
        if self.enforce(x, y).is_none() {
            return None;
        }
        proof {
            lemma_offset_in_range(x as int, y as int, self.width as int, self.height as int);
            assert(self.pixels@.len() == self.pixels.len());
        }
        Some(&self.pixels[y * self.width + x])
    }

    /// The pixel in column `x` of row `y`, to be overwritten; `None` outside
    /// the raster. Writing through the reference changes that pixel and
    /// nothing else.
    pub fn px_mut(&mut self, x: usize, y: usize) -> (r: Option<&mut Pixel>)
        ensures
            final(self).width() == old(self).width(),
            final(self).height() == old(self).height(),
            old(self).contains(x, y) ==> 0 <= old(self).offset(x, y) < old(self)@.len(),
            match r {
                Some(p) => {
                    &&& old(self).contains(x, y)
                    &&& *p == old(self)@[old(self).offset(x, y)]
                    &&& final(self)@ == old(self)@.update(old(self).offset(x, y), *final(p))
                },
                None => !old(self).contains(x, y) && final(self)@ == old(self)@,
            },
    {
        proof {
            use_type_invariant(&*self);
        }
        if self.enforce(x, y).is_none() {
            return None;
        }
        proof {
            lemma_offset_in_range(x as int, y as int, self.width as int, self.height as int);
            assert(self.pixels@.len() == self.pixels.len());
        }
        let at: usize = y * self.width + x;
        Some(&mut self.pixels[at])
    }
}

/// A column and a row inside a raster give an offset inside its row-major
/// storage.
pub proof fn lemma_offset_in_range(x: int, y: int, width: int, height: int)
    requires
        0 <= x < width,
        0 <= y < height,
    ensures
        0 <= y * width + x < width * height,
{
    assert(y * width + x < width * height) by (nonlinear_arith)
        requires
            0 <= x < width,
            0 <= y < height,
    ;
    assert(0 <= y * width) by (nonlinear_arith)
        requires
            0 <= y,
            0 <= width,
    ;
}

/// Every pixel takes three bytes.
pub proof fn lemma_bgr_bytes_len(pixels: Seq<Pixel>)
    ensures
        bgr_bytes(pixels).len() == 3 * pixels.len(),
    decreases pixels.len(),
{
    if pixels.len() > 0 {
        lemma_bgr_bytes_len(pixels.drop_last());
    }
}

/// A row inside a raster starts and ends inside its row-major storage.
pub proof fn lemma_row_in_range(y: int, width: int, height: int)
    requires
        0 <= y < height,
        0 <= width,
    ensures
        0 <= y * width,
        y * width + width <= width * height,
{
    assert(0 <= y * width && y * width + width <= width * height) by (nonlinear_arith)
        requires
            0 <= y < height,
            0 <= width,
    ;
}

} // verus!
