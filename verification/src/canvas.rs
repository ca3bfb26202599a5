//! An in-memory bitmap surface for glyph rasterization.

use vstd::prelude::*;
use vstd::arithmetic::mul::lemma_mul_inequality;

verus! {

/// The image format for the canvas.
#[derive(Clone, Copy, Debug, PartialEq, Eq, Structural)]
pub enum Format {
    /// Premultiplied R8G8B8A8, little-endian.
    Rgba32,
    /// R8G8B8, little-endian.
    Rgb24,
    /// A8.
    A8,
}

impl Format {
    /// Bits per pixel of the format, as a mathematical value.
    pub open spec fn spec_bits_per_pixel(self) -> nat {
        match self {
            Format::Rgba32 => 32,
            Format::Rgb24 => 24,
            Format::A8 => 8,
        }
    }

    /// Color channels per pixel of the format.
    pub open spec fn spec_components_per_pixel(self) -> nat {
        match self {
            Format::Rgba32 => 4,
            Format::Rgb24 => 3,
            Format::A8 => 1,
        }
    }

    /// Bytes per pixel of the format.
    pub open spec fn spec_bytes_per_pixel(self) -> nat {
        self.spec_bits_per_pixel() / 8
    }

    /// Returns the number of bits per pixel that this image format corresponds to.
    pub fn bits_per_pixel(self) -> (r: u8)
        ensures
            r == self.spec_bits_per_pixel(),
    {
        match self {
            Format::Rgba32 => 32,
            Format::Rgb24 => 24,
            Format::A8 => 8,
        }
    }

    /// Returns the number of color channels per pixel that this image format corresponds to.
    pub fn components_per_pixel(self) -> (r: u8)
        ensures
            r == self.spec_components_per_pixel(),
    {
        match self {
            Format::Rgba32 => 4,
            Format::Rgb24 => 3,
            Format::A8 => 1,
        }
    }

    /// Returns the number of bits per color channel that this image format contains.
    pub fn bits_per_component(self) -> (r: u8)
        ensures
            r == self.spec_bits_per_pixel() / self.spec_components_per_pixel(),
            r == 8,
    {
        self.bits_per_pixel() / self.components_per_pixel()
    }

    /// Returns the number of bytes per pixel that this image format corresponds to.
    pub fn bytes_per_pixel(self) -> (r: u8)
        ensures
            r == self.spec_bytes_per_pixel(),
            r == self.spec_components_per_pixel(),
    {
        self.bits_per_pixel() / 8
    }
}

/// A width and a height, in pixels.
#[derive(Clone, Copy, Debug, PartialEq, Eq, Structural)]
pub struct Size2D {
    /// The width.
    pub width: u32,
    /// The height.
    pub height: u32,
}

impl Size2D {
    /// A size of the given width and height.
    pub fn new(width: u32, height: u32) -> (r: Size2D)
        ensures
            r.width == width,
            r.height == height,
    {
        Size2D { width, height }
    }
}

/// The antialiasing strategy that should be used when rasterizing glyphs.
#[derive(Clone, Copy, Debug, PartialEq, Eq, Structural)]
pub enum RasterizationOptions {
    /// "Black-and-white" rendering. Each pixel is either entirely on or off.
    Bilevel,
    /// Grayscale antialiasing. Only one channel is used.
    GrayscaleAa,
    /// Subpixel RGB antialiasing, for LCD screens.
    SubpixelAa,
}

/// An in-memory bitmap surface for glyph rasterization.
pub struct Canvas {
    /// The raw pixel data.
    pub pixels: Vec<u8>,
    /// The size of the buffer, in pixels.
    pub size: Size2D,
    /// The number of *bytes* between successive rows.
    pub stride: usize,
    /// The image format of the canvas.
    pub format: Format,
}

/// The smaller of two numbers.
pub open spec fn min_nat(a: nat, b: nat) -> nat {
    if a <= b {
        a
    } else {
        b
    }
}

/// Rows `0..height` of `width * bpp` bytes each, `stride` bytes apart, all lie within a buffer
/// of `len` bytes.
pub open spec fn rows_fit(len: int, stride: int, width: int, height: int, bpp: int) -> bool {
    height == 0 || (height - 1) * stride + width * bpp <= len
}

/// The pairs of formats between which pixels can be copied: any format to itself, RGB to
/// alpha, alpha to RGB, and RGBA to RGB.
pub open spec fn blit_supported(dest: Format, src: Format) -> bool {
    dest == src || (dest == Format::A8 && src == Format::Rgb24) || (dest == Format::Rgb24 && src
        == Format::A8) || (dest == Format::Rgb24 && src == Format::Rgba32)
}

/// Where byte `k` of a destination row takes its value from, relative to the start of the
/// source row: the same byte for equal formats, the green channel when going from RGB to
/// alpha, the alpha value for each of the three channels when going from alpha to RGB, and
/// the matching color channel when dropping the alpha channel of RGBA.
pub open spec fn source_offset(dest: Format, src: Format, k: int) -> int {
    if dest == src {
        k
    } else if dest == Format::A8 {
        3 * k + 1
    } else if src == Format::A8 {
        k / 3
    } else {
        4 * (k / 3) + k % 3
    }
}

/// `dest` with the bytes from `start` on replaced by `row`.
pub open spec fn write_row(dest: Seq<u8>, start: int, row: Seq<u8>) -> Seq<u8> {
    Seq::new(
        dest.len(),
        |i: int|
            if start <= i < start + row.len() {
                row[i - start]
            } else {
                dest[i]
            },
    )
}

/// Row `y` of the source, converted to the destination format.
pub open spec fn converted_row(
    src: Seq<u8>,
    src_stride: int,
    src_format: Format,
    dest_format: Format,
    width: int,
    y: int,
) -> Seq<u8> {
    Seq::new(
        (width * dest_format.spec_bytes_per_pixel()) as nat,
        |k: int| src[y * src_stride + source_offset(dest_format, src_format, k)],
    )
}

/// The destination after rows `0..height` of the source have been copied into it, one after
/// the other, each converted to the destination format.
pub open spec fn blitted(
    dest: Seq<u8>,
    dest_stride: int,
    dest_format: Format,
    src: Seq<u8>,
    src_stride: int,
    src_format: Format,
    width: int,
    height: nat,
) -> Seq<u8>
    decreases height,
{
    if height == 0 {
        dest
    } else {
        let y = height - 1;
        write_row(
            blitted(dest, dest_stride, dest_format, src, src_stride, src_format, width, (height - 1) as nat),
            y * dest_stride,
            converted_row(src, src_stride, src_format, dest_format, width, y),
        )
    }
}

/// The pixel value that bit `bit` (counted from the most significant end) of a 1-bit-per-pixel
/// byte stands for: fully on or fully off.
pub open spec fn bit_pixel(byte: u8, bit: u32) -> u8 {
    if byte & (0x80u8 >> bit) != 0 {
        0xff
    } else {
        0
    }
}

/// The number of bytes that `n` bits take up.
pub open spec fn bytes_for_bits(n: int) -> int {
    (n + 7) / 8
}

/// Row `y` of a 1-bit-per-pixel source, expanded to one byte per pixel.
pub open spec fn expanded_row(src: Seq<u8>, src_stride: int, width: int, y: int) -> Seq<u8> {
    Seq::new(width as nat, |k: int| bit_pixel(src[y * src_stride + k / 8], (k % 8) as u32))
}

/// The destination after rows `0..height` of a 1-bit-per-pixel source have been expanded into
/// it.
pub open spec fn expanded(
    dest: Seq<u8>,
    dest_stride: int,
    src: Seq<u8>,
    src_stride: int,
    width: int,
    height: nat,
) -> Seq<u8>
    decreases height,
{
    if height == 0 {
        dest
    } else {
        let y = height - 1;
        write_row(
            expanded(dest, dest_stride, src, src_stride, width, (height - 1) as nat),
            y * dest_stride,
            expanded_row(src, src_stride, width, y),
        )
    }
}

proof fn lemma_row_start(y: int, h: int, stride: int, row_len: int, len: int)
    requires
        0 <= y < h,
        stride >= 0,
        row_len >= 0,
        (h - 1) * stride + row_len <= len,
    ensures
        0 <= y * stride,
        y * stride + row_len <= len,
{
    lemma_mul_inequality(y, h - 1, stride);
    lemma_mul_inequality(0, y, stride);
}

/// Byte `i` lies in one of rows `0..height`, each `row_len` bytes long and `stride` bytes
/// apart.
pub open spec fn in_rows(i: int, stride: int, row_len: int, height: int) -> bool {
    exists|y: int| 0 <= y < height && #[trigger] (y * stride) <= i < y * stride + row_len
}

/// Copying rows keeps the length of the destination.
pub proof fn lemma_blitted_len(
    dest: Seq<u8>,
    dest_stride: int,
    dest_format: Format,
    src: Seq<u8>,
    src_stride: int,
    src_format: Format,
    width: int,
    height: nat,
)
    ensures
        blitted(dest, dest_stride, dest_format, src, src_stride, src_format, width, height).len()
            == dest.len(),
    decreases height,
{
    if height > 0 {
        lemma_blitted_len(dest, dest_stride, dest_format, src, src_stride, src_format, width, (height - 1) as nat);
    }
}

/// When the rows of the destination do not overlap, byte `k` of row `y` of the destination
/// holds, after the copy, the source byte that it is converted from.
pub proof fn lemma_blitted_row(
    dest: Seq<u8>,
    dest_stride: int,
    dest_format: Format,
    src: Seq<u8>,
    src_stride: int,
    src_format: Format,
    width: int,
    height: nat,
    y: int,
    k: int,
)
    requires
        width >= 0,
        dest_stride >= width * dest_format.spec_bytes_per_pixel(),
        0 <= y < height,
        0 <= k < width * dest_format.spec_bytes_per_pixel(),
        rows_fit(dest.len() as int, dest_stride, width, height as int, dest_format.spec_bytes_per_pixel() as int),
    ensures
        blitted(dest, dest_stride, dest_format, src, src_stride, src_format, width, height)[y * dest_stride + k]
            == src[y * src_stride + source_offset(dest_format, src_format, k)],
    decreases height,
{
    let db = dest_format.spec_bytes_per_pixel() as int;
    let h = height as int;
    let prev = blitted(dest, dest_stride, dest_format, src, src_stride, src_format, width, (height - 1) as nat);
    lemma_blitted_len(dest, dest_stride, dest_format, src, src_stride, src_format, width, (height - 1) as nat);
    lemma_row_start(h - 1, h, dest_stride, width * db, dest.len() as int);
    lemma_row_start(y, h, dest_stride, width * db, dest.len() as int);
    if y < h - 1 {
        lemma_mul_inequality(y + 1, h - 1, dest_stride);
        assert((y + 1) * dest_stride == y * dest_stride + dest_stride) by (nonlinear_arith);
        assert(rows_fit(dest.len() as int, dest_stride, width, h - 1, db)) by {
            lemma_mul_inequality(h - 2, h - 1, dest_stride);
            assert((h - 1) * dest_stride == (h - 2) * dest_stride + dest_stride) by (nonlinear_arith);
        }
        lemma_blitted_row(dest, dest_stride, dest_format, src, src_stride, src_format, width, (height - 1) as nat, y, k);
    }
}

/// Bytes of the destination outside the copied rows keep their value.
pub proof fn lemma_blitted_outside(
    dest: Seq<u8>,
    dest_stride: int,
    dest_format: Format,
    src: Seq<u8>,
    src_stride: int,
    src_format: Format,
    width: int,
    height: nat,
    i: int,
)
    requires
        width >= 0,
        0 <= i < dest.len(),
        !in_rows(i, dest_stride, width * dest_format.spec_bytes_per_pixel(), height as int),
    ensures
        blitted(dest, dest_stride, dest_format, src, src_stride, src_format, width, height)[i] == dest[i],
    decreases height,
{
    if height > 0 {
        let h = height as int;
        let row_len = width * dest_format.spec_bytes_per_pixel();
        assert(!(((h - 1) * dest_stride) <= i < (h - 1) * dest_stride + row_len));
        assert(!in_rows(i, dest_stride, row_len, h - 1));
        assert(converted_row(src, src_stride, src_format, dest_format, width, h - 1).len() == row_len);
        lemma_blitted_len(dest, dest_stride, dest_format, src, src_stride, src_format, width, (height - 1) as nat);
        lemma_blitted_outside(dest, dest_stride, dest_format, src, src_stride, src_format, width, (height - 1) as nat, i);
    }
}

/// Copying a tightly packed image onto a canvas of the same format, size and stride reproduces
/// the image byte for byte.
pub proof fn lemma_blit_same_format_copies(dest: Seq<u8>, src: Seq<u8>, format: Format, width: nat, height: nat)
    requires
        dest.len() == width * format.spec_bytes_per_pixel() * height,
        src.len() == dest.len(),
    ensures
        blitted(
            dest,
            (width * format.spec_bytes_per_pixel()) as int,
            format,
            src,
            (width * format.spec_bytes_per_pixel()) as int,
            format,
            width as int,
            height,
        ) == src,
{
    let stride = (width * format.spec_bytes_per_pixel()) as int;
    let b = blitted(dest, stride, format, src, stride, format, width as int, height);
    lemma_blitted_len(dest, stride, format, src, stride, format, width as int, height);
    assert forall|i: int| 0 <= i < src.len() implies b[i] == src[i] by {
        let y = i / stride;
        let k = i % stride;
        assert(stride > 0) by (nonlinear_arith)
            requires
                0 <= i < stride * height,
        ;
        assert(y * stride + k == i) by (nonlinear_arith)
            requires
                stride > 0,
                y == i / stride,
                k == i % stride,
        ;
        assert(0 <= y < height) by (nonlinear_arith)
            requires
                stride > 0,
                0 <= i < stride * height,
                y == i / stride,
        ;
        assert(rows_fit(dest.len() as int, stride, width as int, height as int, format.spec_bytes_per_pixel() as int)) by {
            assert((height - 1) * stride + stride == stride * height) by (nonlinear_arith)
                requires
                    height > 0,
            ;
        }
        lemma_blitted_row(dest, stride, format, src, stride, format, width as int, height, y, k);
    }
    assert(b =~= src);
}

/// Expanding rows keeps the length of the destination.
pub proof fn lemma_expanded_len(dest: Seq<u8>, dest_stride: int, src: Seq<u8>, src_stride: int, width: int, height: nat)
    ensures
        expanded(dest, dest_stride, src, src_stride, width, height).len() == dest.len(),
    decreases height,
{
    if height > 0 {
        lemma_expanded_len(dest, dest_stride, src, src_stride, width, (height - 1) as nat);
    }
}

/// When the rows of the destination do not overlap, pixel `x` of row `y` of the destination
/// is, after the expansion, fully on or off as bit `x % 8` of byte `x / 8` of the source row.
pub proof fn lemma_expanded_pixel(
    dest: Seq<u8>,
    dest_stride: int,
    src: Seq<u8>,
    src_stride: int,
    width: int,
    height: nat,
    y: int,
    x: int,
)
    requires
        0 <= width <= dest_stride,
        0 <= y < height,
        0 <= x < width,
        rows_fit(dest.len() as int, dest_stride, width, height as int, 1),
    ensures
        expanded(dest, dest_stride, src, src_stride, width, height)[y * dest_stride + x]
            == bit_pixel(src[y * src_stride + x / 8], (x % 8) as u32),
    decreases height,
{
    let h = height as int;
    lemma_expanded_len(dest, dest_stride, src, src_stride, width, (height - 1) as nat);
    lemma_row_start(h - 1, h, dest_stride, width, dest.len() as int);
    lemma_row_start(y, h, dest_stride, width, dest.len() as int);
    if y < h - 1 {
        lemma_mul_inequality(y + 1, h - 1, dest_stride);
        assert((y + 1) * dest_stride == y * dest_stride + dest_stride) by (nonlinear_arith);
        assert(rows_fit(dest.len() as int, dest_stride, width, h - 1, 1)) by {
            lemma_mul_inequality(h - 2, h - 1, dest_stride);
            assert((h - 1) * dest_stride == (h - 2) * dest_stride + dest_stride) by (nonlinear_arith);
        }
        lemma_expanded_pixel(dest, dest_stride, src, src_stride, width, (height - 1) as nat, y, x);
    }
}

/// Bytes of the destination outside the expanded rows keep their value.
pub proof fn lemma_expanded_outside(
    dest: Seq<u8>,
    dest_stride: int,
    src: Seq<u8>,
    src_stride: int,
    width: int,
    height: nat,
    i: int,
)
    requires
        width >= 0,
        0 <= i < dest.len(),
        !in_rows(i, dest_stride, width, height as int),
    ensures
        expanded(dest, dest_stride, src, src_stride, width, height)[i] == dest[i],
    decreases height,
{
    if height > 0 {
        let h = height as int;
        assert(!(((h - 1) * dest_stride) <= i < (h - 1) * dest_stride + width));
        assert(!in_rows(i, dest_stride, width, h - 1));
        lemma_expanded_len(dest, dest_stride, src, src_stride, width, (height - 1) as nat);
        lemma_expanded_outside(dest, dest_stride, src, src_stride, width, (height - 1) as nat, i);
    }
}

fn source_index(dest: Format, src: Format, start: usize, k: usize, width: usize) -> (r: usize)
    requires
        blit_supported(dest, src),
        k < width * dest.spec_bytes_per_pixel(),
        start + width * src.spec_bytes_per_pixel() <= usize::MAX,
    ensures
        r == start + source_offset(dest, src, k as int),
        r < start + width * src.spec_bytes_per_pixel(),
{
    let ghost db = dest.spec_bytes_per_pixel() as int;
    let ghost sb = src.spec_bytes_per_pixel() as int;
    if dest == src {
        start + k
    } else if dest == Format::A8 {
        assert(3 * k + 1 < width * sb) by (nonlinear_arith)
            requires
                k < width * db,
                db == 1,
                sb == 3,
        ;
        start + 3 * k + 1
    } else if src == Format::A8 {
        assert(k / 3 < width * sb) by (nonlinear_arith)
            requires
                k < width * db,
                db == 3,
                sb == 1,
        ;
        start + k / 3
    } else {
        assert(4 * (k / 3) + k % 3 < width * sb) by (nonlinear_arith)
            requires
                k < width * db,
                db == 3,
                sb == 4,
        ;
        start + 4 * (k / 3) + k % 3
    }
}

impl Canvas {
    /// Creates a new blank canvas with the given pixel size and format.
    ///
    /// Stride is automatically calculated from width.
    ///
    /// The canvas is initialized with transparent black (all values 0).
    pub fn new(size: &Size2D, format: Format) -> (r: Canvas)
        requires
            size.width * format.spec_bytes_per_pixel() <= usize::MAX,
            size.width * format.spec_bytes_per_pixel() * size.height <= isize::MAX,
        ensures
            r.size == *size,
            r.format == format,
            r.stride == size.width * format.spec_bytes_per_pixel(),
            r.pixels@ == Seq::new((r.stride * size.height) as nat, |i: int| 0u8),
    {
        let stride = (size.width as usize) * (format.bytes_per_pixel() as usize);
        Canvas::with_stride(size, stride, format)
    }

    /// Creates a new blank canvas with the given pixel size, stride (number of bytes between
    /// successive rows), and format.
    ///
    /// The canvas is initialized with transparent black (all values 0).
    pub fn with_stride(size: &Size2D, stride: usize, format: Format) -> (r: Canvas)
        requires
            stride * size.height <= isize::MAX,
        ensures
            r.size == *size,
            r.format == format,
            r.stride == stride,
            r.pixels@ == Seq::new((stride * size.height) as nat, |i: int| 0u8),
    {
        let pixels = vec![0u8; stride * size.height as usize];
        assert(pixels@ =~= Seq::new((stride * size.height) as nat, |i: int| 0u8)) by {
            assert forall|i: int| 0 <= i < pixels@.len() implies pixels@[i] == 0u8 by {
                assert(cloned(0u8, pixels@[i]));
            }
        }
        Canvas { pixels, size: *size, stride, format }
    }

    /// Copies the pixels of `src` into this canvas, converting formats.
    pub fn blit_from_canvas(&mut self, src: &Canvas)
        requires
            blit_supported(old(self).format, src.format),
            rows_fit(
                old(self).pixels@.len() as int,
                old(self).stride as int,
                min_nat(src.size.width as nat, old(self).size.width as nat) as int,
                min_nat(src.size.height as nat, old(self).size.height as nat) as int,
                old(self).format.spec_bytes_per_pixel() as int,
            ),
            rows_fit(
                src.pixels@.len() as int,
                src.stride as int,
                min_nat(src.size.width as nat, old(self).size.width as nat) as int,
                min_nat(src.size.height as nat, old(self).size.height as nat) as int,
                src.format.spec_bytes_per_pixel() as int,
            ),
        ensures
            final(self).size == old(self).size,
            final(self).stride == old(self).stride,
            final(self).format == old(self).format,
            final(self).pixels@ == blitted(
                old(self).pixels@,
                old(self).stride as int,
                old(self).format,
                src.pixels@,
                src.stride as int,
                src.format,
                min_nat(src.size.width as nat, old(self).size.width as nat) as int,
                min_nat(src.size.height as nat, old(self).size.height as nat),
            ),
    {
        self.blit_from(src.pixels.as_slice(), &src.size, src.stride, src.format)
    }

    /// Copies the overlapping top-left part of a `src_size` image whose rows are `src_stride`
    /// bytes apart into this canvas, converting from `src_format` to the canvas format.
    pub fn blit_from(
        &mut self,
        src_bytes: &[u8],
        src_size: &Size2D,
        src_stride: usize,
        src_format: Format,
    )
        requires
            blit_supported(old(self).format, src_format),
            rows_fit(
                old(self).pixels@.len() as int,
                old(self).stride as int,
                min_nat(src_size.width as nat, old(self).size.width as nat) as int,
                min_nat(src_size.height as nat, old(self).size.height as nat) as int,
                old(self).format.spec_bytes_per_pixel() as int,
            ),
            rows_fit(
                src_bytes@.len() as int,
                src_stride as int,
                min_nat(src_size.width as nat, old(self).size.width as nat) as int,
                min_nat(src_size.height as nat, old(self).size.height as nat) as int,
                src_format.spec_bytes_per_pixel() as int,
            ),
        ensures
            final(self).size == old(self).size,
            final(self).stride == old(self).stride,
            final(self).format == old(self).format,
            final(self).pixels@ == blitted(
                old(self).pixels@,
                old(self).stride as int,
                old(self).format,
                src_bytes@,
                src_stride as int,
                src_format,
                min_nat(src_size.width as nat, old(self).size.width as nat) as int,
                min_nat(src_size.height as nat, old(self).size.height as nat),
            ),
    {
        let width = if src_size.width <= self.size.width {
            src_size.width as usize
        } else {
            self.size.width as usize
        };
        let height = if src_size.height <= self.size.height {
            src_size.height as usize
        } else {
            self.size.height as usize
        };
        self.blit_from_with(src_bytes, width, height, src_stride, src_format)
    }

    /// Copies `height` rows of `width` pixels from `src_bytes`, converting each row.
    fn blit_from_with(
        &mut self,
        src_bytes: &[u8],
        width: usize,
        height: usize,
        src_stride: usize,
        src_format: Format,
    )
        requires
            blit_supported(old(self).format, src_format),
            rows_fit(
                old(self).pixels@.len() as int,
                old(self).stride as int,
                width as int,
                height as int,
                old(self).format.spec_bytes_per_pixel() as int,
            ),
            rows_fit(
                src_bytes@.len() as int,
                src_stride as int,
                width as int,
                height as int,
                src_format.spec_bytes_per_pixel() as int,
            ),
        ensures
            final(self).size == old(self).size,
            final(self).stride == old(self).stride,
            final(self).format == old(self).format,
            final(self).pixels@ == blitted(
                old(self).pixels@,
                old(self).stride as int,
                old(self).format,
                src_bytes@,
                src_stride as int,
                src_format,
                width as int,
                height as nat,
            ),
    {
        let src_bytes_per_pixel = src_format.bytes_per_pixel() as usize;
        let dest_bytes_per_pixel = self.format.bytes_per_pixel() as usize;
        let dest_format = self.format;
        let dest_len = self.pixels.len();
        let src_len = src_bytes.len();
        let ghost dest0 = self.pixels@;
        let mut y: usize = 0;
        while y < height
            invariant
                0 <= y <= height,
                self.size == old(self).size,
                self.stride == old(self).stride,
                self.format == dest_format,
                dest_format == old(self).format,
                blit_supported(dest_format, src_format),
                dest_bytes_per_pixel == dest_format.spec_bytes_per_pixel(),
                src_bytes_per_pixel == src_format.spec_bytes_per_pixel(),
                dest0 == old(self).pixels@,
                dest0.len() == dest_len,
                src_bytes@.len() == src_len,
                self.pixels@.len() == dest0.len(),
                rows_fit(
                    dest0.len() as int,
                    self.stride as int,
                    width as int,
                    height as int,
                    dest_bytes_per_pixel as int,
                ),
                rows_fit(
                    src_bytes@.len() as int,
                    src_stride as int,
                    width as int,
                    height as int,
                    src_bytes_per_pixel as int,
                ),
                self.pixels@ == blitted(
                    dest0,
                    self.stride as int,
                    dest_format,
                    src_bytes@,
                    src_stride as int,
                    src_format,
                    width as int,
                    y as nat,
                ),
            decreases height - y,
        {
            proof {
                lemma_row_start(
                    y as int,
                    height as int,
                    self.stride as int,
                    (width * dest_bytes_per_pixel) as int,
                    dest0.len() as int,
                );
                lemma_row_start(
                    y as int,
                    height as int,
                    src_stride as int,
                    (width * src_bytes_per_pixel) as int,
                    src_bytes@.len() as int,
                );
            }
            let dest_row_start = y * self.stride;
            let src_row_start = y * src_stride;
            let row_len = width * dest_bytes_per_pixel;
            let ghost before = self.pixels@;
            let ghost row = converted_row(
                src_bytes@,
                src_stride as int,
                src_format,
                dest_format,
                width as int,
                y as int,
            );
            let mut k: usize = 0;
            while k < row_len
                invariant
                    0 <= k <= row_len,
                    self.size == old(self).size,
                    self.stride == old(self).stride,
                    self.format == old(self).format,
                    before.len() == dest_len,
                    src_bytes@.len() == src_len,
                    row_len == width * dest_format.spec_bytes_per_pixel(),
                    blit_supported(dest_format, src_format),
                    src_bytes_per_pixel == src_format.spec_bytes_per_pixel(),
                    dest_row_start + row_len <= before.len(),
                    src_row_start + width * src_bytes_per_pixel <= src_bytes@.len(),
                    src_row_start == y * src_stride,
                    row.len() == row_len,
                    row == converted_row(
                        src_bytes@,
                        src_stride as int,
                        src_format,
                        dest_format,
                        width as int,
                        y as int,
                    ),
                    self.pixels@.len() == before.len(),
                    forall|i: int|
                        0 <= i < before.len() && !(dest_row_start <= i < dest_row_start + k)
                            ==> #[trigger] self.pixels@[i] == before[i],
                    forall|i: int|
                        dest_row_start <= i < dest_row_start + k ==> #[trigger] self.pixels@[i]
                            == row[i - dest_row_start],
                decreases row_len - k,
            {
                let s = source_index(dest_format, src_format, src_row_start, k, width);
                let value = src_bytes[s];
                self.pixels.set(dest_row_start + k, value);
                k = k + 1;
            }
            assert(self.pixels@ =~= write_row(before, dest_row_start as int, row));
            y = y + 1;
        }
    }

    /// Expands the overlapping top-left part of a 1-bit-per-pixel `src_size` image, whose rows
    /// are `src_stride` bytes apart, into this alpha-only canvas.
    pub fn blit_from_bitmap_1bpp(&mut self, src_bytes: &[u8], src_size: &Size2D, src_stride: usize)
        requires
            old(self).format == Format::A8,
            rows_fit(
                old(self).pixels@.len() as int,
                old(self).stride as int,
                min_nat(src_size.width as nat, old(self).size.width as nat) as int,
                min_nat(src_size.height as nat, old(self).size.height as nat) as int,
                1,
            ),
            rows_fit(
                src_bytes@.len() as int,
                src_stride as int,
                bytes_for_bits(min_nat(src_size.width as nat, old(self).size.width as nat) as int),
                min_nat(src_size.height as nat, old(self).size.height as nat) as int,
                1,
            ),
        ensures
            final(self).size == old(self).size,
            final(self).stride == old(self).stride,
            final(self).format == old(self).format,
            final(self).pixels@ == expanded(
                old(self).pixels@,
                old(self).stride as int,
                src_bytes@,
                src_stride as int,
                min_nat(src_size.width as nat, old(self).size.width as nat) as int,
                min_nat(src_size.height as nat, old(self).size.height as nat),
            ),
    {
        let width = if src_size.width <= self.size.width {
            src_size.width as usize
        } else {
            self.size.width as usize
        };
        let height = if src_size.height <= self.size.height {
            src_size.height as usize
        } else {
            self.size.height as usize
        };
        let src_row_stride = width / 8 + if width % 8 == 0 { 0 } else { 1 };
        assert(src_row_stride == bytes_for_bits(width as int));
        let dest_len = self.pixels.len();
        let src_len = src_bytes.len();
        let ghost dest0 = self.pixels@;
        let mut y: usize = 0;
        while y < height
            invariant
                0 <= y <= height,
                self.size == old(self).size,
                self.stride == old(self).stride,
                self.format == old(self).format,
                dest0 == old(self).pixels@,
                dest0.len() == dest_len,
                src_bytes@.len() == src_len,
                self.pixels@.len() == dest0.len(),
                src_row_stride == bytes_for_bits(width as int),
                rows_fit(dest0.len() as int, self.stride as int, width as int, height as int, 1),
                rows_fit(
                    src_bytes@.len() as int,
                    src_stride as int,
                    src_row_stride as int,
                    height as int,
                    1,
                ),
                self.pixels@ == expanded(
                    dest0,
                    self.stride as int,
                    src_bytes@,
                    src_stride as int,
                    width as int,
                    y as nat,
                ),
            decreases height - y,
        {
            proof {
                lemma_row_start(y as int, height as int, self.stride as int, width as int, dest0.len() as int);
                lemma_row_start(
                    y as int,
                    height as int,
                    src_stride as int,
                    src_row_stride as int,
                    src_bytes@.len() as int,
                );
            }
            let dest_row_start = y * self.stride;
            let src_row_start = y * src_stride;
            let ghost before = self.pixels@;
            let ghost row = expanded_row(src_bytes@, src_stride as int, width as int, y as int);
            let mut k: usize = 0;
            while k < width
                invariant
                    0 <= k <= width,
                    self.size == old(self).size,
                    self.stride == old(self).stride,
                    self.format == old(self).format,
                    before.len() == dest_len,
                    src_bytes@.len() == src_len,
                    dest_row_start + width <= before.len(),
                    src_row_start + src_row_stride <= src_bytes@.len(),
                    src_row_stride == bytes_for_bits(width as int),
                    src_row_start == y * src_stride,
                    row.len() == width,
                    row == expanded_row(src_bytes@, src_stride as int, width as int, y as int),
                    self.pixels@.len() == before.len(),
                    forall|i: int|
                        0 <= i < before.len() && !(dest_row_start <= i < dest_row_start + k)
                            ==> #[trigger] self.pixels@[i] == before[i],
                    forall|i: int|
                        dest_row_start <= i < dest_row_start + k ==> #[trigger] self.pixels@[i]
                            == row[i - dest_row_start],
                decreases width - k,
            {
                assert(k / 8 < src_row_stride) by (nonlinear_arith)
                    requires
                        k < width,
                        src_row_stride == (width + 7) / 8,
                ;
                let byte = src_bytes[src_row_start + k / 8];
                let bit = (k % 8) as u32;
                let value: u8 = if byte & (0x80u8 >> bit) != 0 {
                    0xff
                } else {
                    0
                };
                self.pixels.set(dest_row_start + k, value);
                k = k + 1;
            }
            assert(self.pixels@ =~= write_row(before, dest_row_start as int, row));
            y = y + 1;
        }
    }
}

} // verus!
