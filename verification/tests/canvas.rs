use font_kit::canvas::{Canvas, Format, Size2D};

#[test]
fn format_sizes() {
    assert_eq!(Format::Rgba32.bits_per_pixel(), 32);
    assert_eq!(Format::Rgb24.bits_per_pixel(), 24);
    assert_eq!(Format::A8.bits_per_pixel(), 8);
    assert_eq!(Format::Rgba32.components_per_pixel(), 4);
    assert_eq!(Format::Rgb24.components_per_pixel(), 3);
    assert_eq!(Format::A8.components_per_pixel(), 1);
    assert_eq!(Format::Rgba32.bits_per_component(), 8);
    assert_eq!(Format::Rgb24.bits_per_component(), 8);
    assert_eq!(Format::A8.bits_per_component(), 8);
    assert_eq!(Format::Rgba32.bytes_per_pixel(), 4);
    assert_eq!(Format::Rgb24.bytes_per_pixel(), 3);
    assert_eq!(Format::A8.bytes_per_pixel(), 1);
}

#[test]
fn new_canvas_is_blank_and_tightly_packed() {
    let canvas = Canvas::new(&Size2D::new(5, 3), Format::Rgb24);
    assert_eq!(canvas.stride, 15);
    assert_eq!(canvas.pixels.len(), 45);
    assert!(canvas.pixels.iter().all(|&b| b == 0));
    assert_eq!(canvas.size, Size2D::new(5, 3));
    assert_eq!(canvas.format, Format::Rgb24);
}

#[test]
fn canvas_with_stride_pads_rows() {
    let canvas = Canvas::with_stride(&Size2D::new(3, 2), 8, Format::A8);
    assert_eq!(canvas.stride, 8);
    assert_eq!(canvas.pixels.len(), 16);
    assert!(canvas.pixels.iter().all(|&b| b == 0));
}

#[test]
fn blit_same_format_copies_overlap() {
    let mut src = Canvas::new(&Size2D::new(3, 3), Format::A8);
    src.pixels = (1..=9).collect();
    let mut dest = Canvas::new(&Size2D::new(2, 2), Format::A8);
    dest.blit_from_canvas(&src);
    assert_eq!(dest.pixels, vec![1, 2, 4, 5]);
}

#[test]
fn blit_same_size_reproduces_source() {
    let mut src = Canvas::new(&Size2D::new(2, 2), Format::Rgba32);
    src.pixels = (0..16).collect();
    let mut dest = Canvas::new(&Size2D::new(2, 2), Format::Rgba32);
    dest.blit_from_canvas(&src);
    assert_eq!(dest.pixels, src.pixels);
}

#[test]
fn blit_rgb_to_alpha_takes_green() {
    let src = vec![10u8, 20, 30, 40, 50, 60];
    let mut dest = Canvas::new(&Size2D::new(2, 1), Format::A8);
    dest.blit_from(&src, &Size2D::new(2, 1), 6, Format::Rgb24);
    assert_eq!(dest.pixels, vec![20, 50]);
}

#[test]
fn blit_alpha_to_rgb_spreads_alpha() {
    let src = vec![7u8, 9];
    let mut dest = Canvas::new(&Size2D::new(2, 1), Format::Rgb24);
    dest.blit_from(&src, &Size2D::new(2, 1), 2, Format::A8);
    assert_eq!(dest.pixels, vec![7, 7, 7, 9, 9, 9]);
}

#[test]
fn blit_rgba_to_rgb_drops_alpha() {
    let src = vec![1u8, 2, 3, 4, 5, 6, 7, 8];
    let mut dest = Canvas::new(&Size2D::new(2, 1), Format::Rgb24);
    dest.blit_from(&src, &Size2D::new(2, 1), 8, Format::Rgba32);
    assert_eq!(dest.pixels, vec![1, 2, 3, 5, 6, 7]);
}

#[test]
fn blit_leaves_padding_untouched() {
    let mut dest = Canvas::with_stride(&Size2D::new(2, 2), 3, Format::A8);
    dest.pixels = vec![100, 100, 100, 100, 100, 100];
    let src = vec![1u8, 2, 3, 4];
    dest.blit_from(&src, &Size2D::new(2, 2), 2, Format::A8);
    assert_eq!(dest.pixels, vec![1, 2, 100, 3, 4, 100]);
}

#[test]
fn blit_from_source_with_stride() {
    let src = vec![1u8, 2, 0, 0, 3, 4, 0, 0];
    let mut dest = Canvas::new(&Size2D::new(2, 2), Format::A8);
    dest.blit_from(&src, &Size2D::new(2, 2), 4, Format::A8);
    assert_eq!(dest.pixels, vec![1, 2, 3, 4]);
}

#[test]
fn blit_bitmap_1bpp_expands_bits() {
    let mut dest = Canvas::new(&Size2D::new(10, 2), Format::A8);
    let src = vec![0b1010_0000u8, 0b1100_0000, 0b0000_0001, 0b0100_0000];
    dest.blit_from_bitmap_1bpp(&src, &Size2D::new(10, 2), 2);
    assert_eq!(
        dest.pixels,
        vec![
            0xff, 0, 0xff, 0, 0, 0, 0, 0, 0xff, 0xff, //
            0, 0, 0, 0, 0, 0, 0, 0xff, 0, 0xff,
        ]
    );
}

#[test]
fn blit_bitmap_1bpp_clips_to_canvas() {
    let mut dest = Canvas::new(&Size2D::new(3, 1), Format::A8);
    let src = vec![0xffu8, 0xff];
    dest.blit_from_bitmap_1bpp(&src, &Size2D::new(16, 1), 2);
    assert_eq!(dest.pixels, vec![0xff, 0xff, 0xff]);
}
