//! The choices that a FreeType-based loader makes when it loads and renders a glyph: the load
//! flags for a hinting mode, the render mode for a rasterization strategy, and how the rendered
//! bitmap is copied into a canvas.

use vstd::prelude::*;
use crate::canvas::{
    blit_supported, blitted, bytes_for_bits, expanded, min_nat, rows_fit, Canvas, Format, RasterizationOptions,
    Size2D,
};

verus! {

/// How glyphs are grid-fitted, without the point size that the fitting is done at.
#[derive(Clone, Copy, Debug, PartialEq, Eq, Structural)]
pub enum HintingMode {
    /// No hinting is performed unless absolutely necessary to assemble the glyph.
    Unhinted,
    /// Hinting is performed only in the vertical direction.
    Vertical,
    /// Hinting is performed only in the vertical direction, with tweaks for subpixel
    /// antialiasing.
    VerticalSubpixel,
    /// Hinting is performed in both horizontal and vertical directions.
    Full,
}

/// The default way of loading a glyph.
pub const LOAD_DEFAULT: u32 = 0;
/// Load the glyph without hinting it.
pub const LOAD_NO_HINTING: u32 = 0x2;
/// Hint for the normal render mode.
pub const LOAD_TARGET_NORMAL: u32 = 0;
/// Hint lightly, in the vertical direction only.
pub const LOAD_TARGET_LIGHT: u32 = 0x1_0000;
/// Hint for horizontal LCD subpixel rendering.
pub const LOAD_TARGET_LCD: u32 = 0x3_0000;

/// Render with 8-bit antialiasing.
pub const RENDER_MODE_NORMAL: u32 = 0;
/// Render to a 1-bit bitmap.
pub const RENDER_MODE_MONO: u32 = 2;
/// Render for horizontal LCD subpixels.
pub const RENDER_MODE_LCD: u32 = 3;

/// A 1-bit-per-pixel bitmap.
pub const PIXEL_MODE_MONO: u8 = 1;
/// An 8-bit gray bitmap.
pub const PIXEL_MODE_GRAY: u8 = 2;
/// A bitmap of RGB triples for horizontal LCD subpixels.
pub const PIXEL_MODE_LCD: u8 = 5;
/// A bitmap of RGB triples for vertical LCD subpixels.
pub const PIXEL_MODE_LCD_V: u8 = 6;

/// The flags with which a glyph is loaded for a hinting mode.
pub open spec fn load_flags_for(mode: HintingMode) -> u32 {
    match mode {
        HintingMode::Unhinted => LOAD_DEFAULT | LOAD_NO_HINTING,
        HintingMode::Vertical => LOAD_DEFAULT | LOAD_TARGET_LIGHT,
        HintingMode::VerticalSubpixel => LOAD_DEFAULT | LOAD_TARGET_LCD,
        HintingMode::Full => LOAD_DEFAULT | LOAD_TARGET_NORMAL,
    }
}

/// Returns the flags with which a glyph is loaded for a hinting mode.
pub fn load_flags(mode: HintingMode) -> (r: u32)
    ensures
        r == load_flags_for(mode),
{
    match mode {
        HintingMode::Unhinted => LOAD_DEFAULT | LOAD_NO_HINTING,
        HintingMode::Vertical => LOAD_DEFAULT | LOAD_TARGET_LIGHT,
        HintingMode::VerticalSubpixel => LOAD_DEFAULT | LOAD_TARGET_LCD,
        HintingMode::Full => LOAD_DEFAULT | LOAD_TARGET_NORMAL,
    }
}

/// Returns true if and only if the loader can hint in the requested way: no hinting always;
/// any other mode only when rasterizing, since hinted outlines cannot be retrieved.
pub fn supports_hinting_options(mode: HintingMode, for_rasterization: bool) -> (r: bool)
    ensures
        r == (mode == HintingMode::Unhinted || for_rasterization),
{
    match mode {
        HintingMode::Unhinted => true,
        _ => for_rasterization,
    }
}

/// Returns the render mode for a rasterization strategy: 1-bit for bilevel rendering, 8-bit
/// antialiasing for grayscale, LCD subpixels for subpixel antialiasing.
pub fn render_mode(options: RasterizationOptions) -> (r: u32)
    ensures
        r == match options {
            RasterizationOptions::Bilevel => RENDER_MODE_MONO,
            RasterizationOptions::GrayscaleAa => RENDER_MODE_NORMAL,
            RasterizationOptions::SubpixelAa => RENDER_MODE_LCD,
        },
{
    match options {
        RasterizationOptions::Bilevel => RENDER_MODE_MONO,
        RasterizationOptions::GrayscaleAa => RENDER_MODE_NORMAL,
        RasterizationOptions::SubpixelAa => RENDER_MODE_LCD,
    }
}

/// The format of the pixels of a rendered bitmap in an 8-bit-per-channel pixel mode.
pub open spec fn pixel_mode_format(pixel_mode: u8) -> Format {
    if pixel_mode == PIXEL_MODE_GRAY {
        Format::A8
    } else {
        Format::Rgb24
    }
}

/// A rendered bitmap of pixel mode `pixel_mode` can be copied into `canvas`: the mode is one
/// that the loader knows, the canvas format can take its pixels, and the rows that are copied
/// lie within both buffers.
pub open spec fn bitmap_fits(canvas: Canvas, buffer: Seq<u8>, size: Size2D, stride: usize, pixel_mode: u8) -> bool {
    let width = min_nat(size.width as nat, canvas.size.width as nat) as int;
    let height = min_nat(size.height as nat, canvas.size.height as nat) as int;
    if pixel_mode == PIXEL_MODE_MONO {
        &&& canvas.format == Format::A8
        &&& rows_fit(canvas.pixels@.len() as int, canvas.stride as int, width, height, 1)
        &&& rows_fit(buffer.len() as int, stride as int, bytes_for_bits(width), height, 1)
    } else {
        let format = pixel_mode_format(pixel_mode);
        &&& pixel_mode == PIXEL_MODE_GRAY || pixel_mode == PIXEL_MODE_LCD || pixel_mode == PIXEL_MODE_LCD_V
        &&& blit_supported(canvas.format, format)
        &&& rows_fit(
            canvas.pixels@.len() as int,
            canvas.stride as int,
            width,
            height,
            canvas.format.spec_bytes_per_pixel() as int,
        )
        &&& rows_fit(buffer.len() as int, stride as int, width, height, format.spec_bytes_per_pixel() as int)
    }
}

/// The pixels of `canvas` after a rendered bitmap has been copied into it.
pub open spec fn with_bitmap(canvas: Canvas, buffer: Seq<u8>, size: Size2D, stride: usize, pixel_mode: u8) -> Seq<u8> {
    let width = min_nat(size.width as nat, canvas.size.width as nat) as int;
    let height = min_nat(size.height as nat, canvas.size.height as nat);
    if pixel_mode == PIXEL_MODE_MONO {
        expanded(canvas.pixels@, canvas.stride as int, buffer, stride as int, width, height)
    } else {
        blitted(
            canvas.pixels@,
            canvas.stride as int,
            canvas.format,
            buffer,
            stride as int,
            pixel_mode_format(pixel_mode),
            width,
            height,
        )
    }
}

/// Copies a rendered glyph bitmap into a canvas: a gray bitmap as alpha values, an LCD bitmap
/// as RGB triples, and a 1-bit bitmap expanded to alpha values.
pub fn blit_rendered_bitmap(canvas: &mut Canvas, buffer: &[u8], size: &Size2D, stride: usize, pixel_mode: u8)
    requires
        bitmap_fits(*old(canvas), buffer@, *size, stride, pixel_mode),
    ensures
        final(canvas).size == old(canvas).size,
        final(canvas).stride == old(canvas).stride,
        final(canvas).format == old(canvas).format,
        final(canvas).pixels@ == with_bitmap(*old(canvas), buffer@, *size, stride, pixel_mode),
{
    if pixel_mode == PIXEL_MODE_GRAY {
        canvas.blit_from(buffer, size, stride, Format::A8);
    } else if pixel_mode == PIXEL_MODE_LCD || pixel_mode == PIXEL_MODE_LCD_V {
        canvas.blit_from(buffer, size, stride, Format::Rgb24);
    } else {
        canvas.blit_from_bitmap_1bpp(buffer, size, stride);
    }
}

} // verus!
