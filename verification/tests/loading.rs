use font_kit::canvas::{Canvas, Format, RasterizationOptions, Size2D};
use font_kit::outline::OutlinePoint::{At, Between};
use font_kit::outline::{decode_outline, OutlineCommand};
use font_kit::properties::{Stretch, Style, Weight};
use font_kit::raster::{
    blit_rendered_bitmap, load_flags, render_mode, supports_hinting_options, HintingMode,
    PIXEL_MODE_GRAY, PIXEL_MODE_LCD, PIXEL_MODE_MONO,
};
use font_kit::sfnt::{
    face_flags, face_properties, full_name, is_monospace, type_1_or_sfnt_name, Os2Table, SfntName,
};

fn os2(fs_selection: u16, width: u16, weight: u16) -> Option<Os2Table> {
    Some(Os2Table { fs_selection, us_width_class: width, us_weight_class: weight })
}

#[test]
fn face_without_os2_table_is_normal() {
    let p = face_properties(None, 0);
    assert_eq!(p.style, Style::Normal);
    assert_eq!(p.weight, Weight(400));
    assert_eq!(p.stretch, Stretch(1000));
    assert_eq!(face_properties(None, 1).style, Style::Italic);
}

#[test]
fn face_properties_from_os2_table() {
    let p = face_properties(os2(0, 3, 700), 0);
    assert_eq!(p.style, Style::Normal);
    assert_eq!(p.weight, Weight(700));
    assert_eq!(p.stretch, Stretch(750));
    assert_eq!(face_properties(os2(0, 9, 100), 0).stretch, Stretch(2000));
    assert_eq!(face_properties(os2(0, 1, 100), 0).stretch, Stretch(500));
    assert_eq!(face_properties(os2(0, 0, 100), 0).stretch, Stretch(1000));
}

#[test]
fn oblique_selection_wins_over_italic_flag() {
    assert_eq!(face_properties(os2(0x200, 5, 400), 1).style, Style::Oblique);
    assert_eq!(face_properties(os2(0x1, 5, 400), 1).style, Style::Italic);
    assert_eq!(face_properties(os2(0x1, 5, 400), 0).style, Style::Normal);
}

fn record(name_id: u16, platform_id: u16, text: &[u16]) -> SfntName {
    let mut string = Vec::new();
    for unit in text {
        string.extend_from_slice(&unit.to_be_bytes());
    }
    SfntName { name_id, platform_id, encoding_id: 3, string }
}

#[test]
fn type_1_value_is_used_when_present() {
    let names = vec![record(4, 0, &[0x41])];
    assert_eq!(type_1_or_sfnt_name(Some(b"Garamond".to_vec()), &names, 4), Some("Garamond".to_string()));
    assert_eq!(type_1_or_sfnt_name(Some(vec![0xff, 0xfe]), &names, 4), None);
}

#[test]
fn first_decodable_unicode_record_is_used() {
    let names = vec![
        record(1, 0, &[0x46]),
        record(4, 3, &[0x57]),
        record(4, 0, &[0xD800]),
        record(4, 0, &[0x48, 0x69, 0xD83D, 0xDE00]),
        record(4, 0, &[0x4E, 0x6F]),
    ];
    assert_eq!(type_1_or_sfnt_name(None, &names, 4), Some("Hi\u{1F600}".to_string()));
    assert_eq!(type_1_or_sfnt_name(None, &names, 1), Some("F".to_string()));
    assert_eq!(type_1_or_sfnt_name(None, &names, 6), None);
}

#[test]
fn full_name_falls_back_to_family_name() {
    let names = vec![record(4, 0, &[0x41, 0x42])];
    assert_eq!(full_name(None, &names, "Family".to_string()), "AB");
    assert_eq!(full_name(None, &[], "Family".to_string()), "Family");
    assert_eq!(full_name(Some(b"Type One".to_vec()), &names, "Family".to_string()), "Type One");
}

#[test]
fn outline_of_lines_and_curves() {
    // A triangle, then a contour with a quadratic and a cubic curve.
    let contours = [2usize, 9];
    let tags = [1u8, 1, 1, 1, 0, 1, 2, 2, 1, 1];
    let commands = decode_outline(&contours, &tags);
    assert_eq!(
        commands,
        vec![
            OutlineCommand::MoveTo(At(0)),
            OutlineCommand::LineTo(1),
            OutlineCommand::LineTo(2),
            OutlineCommand::Close,
            OutlineCommand::MoveTo(At(3)),
            OutlineCommand::QuadraticTo(4, At(5)),
            OutlineCommand::CubicTo(6, 7, At(8)),
            OutlineCommand::LineTo(9),
            OutlineCommand::Close,
        ]
    );
}

#[test]
fn outline_with_no_contours_is_empty() {
    assert!(decode_outline(&[], &[1, 1]).is_empty());
    assert_eq!(
        decode_outline(&[0], &[1]),
        vec![OutlineCommand::MoveTo(At(0)), OutlineCommand::Close]
    );
}

#[test]
fn consecutive_quadratic_controls_imply_midpoints_and_wrap_around() {
    // Both ends off the curve: the contour starts midway between its last and first points,
    // and its last control point curves back there.
    let commands = decode_outline(&[3], &[0, 0, 1, 0]);
    assert_eq!(
        commands,
        vec![
            OutlineCommand::MoveTo(Between(3, 0)),
            OutlineCommand::QuadraticTo(0, Between(0, 1)),
            OutlineCommand::QuadraticTo(1, At(2)),
            OutlineCommand::QuadraticTo(3, Between(3, 0)),
            OutlineCommand::Close,
        ]
    );
}

#[test]
fn contour_starting_off_curve_starts_at_its_last_point() {
    let commands = decode_outline(&[2], &[0, 1, 1]);
    assert_eq!(
        commands,
        vec![
            OutlineCommand::MoveTo(At(2)),
            OutlineCommand::QuadraticTo(0, At(1)),
            OutlineCommand::LineTo(2),
            OutlineCommand::Close,
        ]
    );
}

#[test]
fn contour_ending_off_curve_curves_back_to_its_start() {
    // A single off-curve point, and a contour whose cubic control points close it.
    let commands = decode_outline(&[0, 3], &[0, 1, 2, 2]);
    assert_eq!(
        commands,
        vec![
            OutlineCommand::MoveTo(Between(0, 0)),
            OutlineCommand::QuadraticTo(0, Between(0, 0)),
            OutlineCommand::Close,
            OutlineCommand::MoveTo(At(1)),
            OutlineCommand::CubicTo(2, 3, At(1)),
            OutlineCommand::Close,
        ]
    );
}

#[test]
fn load_flags_per_hinting_mode() {
    assert_eq!(load_flags(HintingMode::Unhinted), 0x2);
    assert_eq!(load_flags(HintingMode::Vertical), 0x1_0000);
    assert_eq!(load_flags(HintingMode::VerticalSubpixel), 0x3_0000);
    assert_eq!(load_flags(HintingMode::Full), 0);
}

#[test]
fn hinting_support() {
    assert!(supports_hinting_options(HintingMode::Unhinted, false));
    assert!(supports_hinting_options(HintingMode::Unhinted, true));
    assert!(supports_hinting_options(HintingMode::Full, true));
    assert!(!supports_hinting_options(HintingMode::Vertical, false));
    assert!(!supports_hinting_options(HintingMode::VerticalSubpixel, false));
}

#[test]
fn render_modes() {
    assert_eq!(render_mode(RasterizationOptions::Bilevel), 2);
    assert_eq!(render_mode(RasterizationOptions::GrayscaleAa), 0);
    assert_eq!(render_mode(RasterizationOptions::SubpixelAa), 3);
}

#[test]
fn rendered_bitmaps_are_blitted_by_pixel_mode() {
    let mut canvas = Canvas::new(&Size2D::new(2, 1), Format::A8);
    blit_rendered_bitmap(&mut canvas, &[5, 6], &Size2D::new(2, 1), 2, PIXEL_MODE_GRAY);
    assert_eq!(canvas.pixels, vec![5, 6]);

    let mut canvas = Canvas::new(&Size2D::new(2, 1), Format::A8);
    blit_rendered_bitmap(&mut canvas, &[1, 2, 3, 4, 5, 6], &Size2D::new(2, 1), 6, PIXEL_MODE_LCD);
    assert_eq!(canvas.pixels, vec![2, 5]);

    let mut canvas = Canvas::new(&Size2D::new(3, 1), Format::A8);
    blit_rendered_bitmap(&mut canvas, &[0b0100_0000], &Size2D::new(3, 1), 1, PIXEL_MODE_MONO);
    assert_eq!(canvas.pixels, vec![0, 0xff, 0]);
}

#[test]
fn type_1_value_is_decoded_as_utf8() {
    assert_eq!(
        type_1_or_sfnt_name(Some("Garamond Æ €".as_bytes().to_vec()), &[], 4),
        Some("Garamond Æ €".to_string())
    );
    // An overlong encoding and a lone continuation byte are not UTF-8.
    assert_eq!(type_1_or_sfnt_name(Some(vec![0xc0, 0x80]), &[], 4), None);
    assert_eq!(type_1_or_sfnt_name(Some(vec![0x41, 0x80]), &[], 4), None);
}

#[test]
fn face_flag_bits() {
    let flags = face_flags(1, 0x4 | 0x20);
    assert!(flags.italic && flags.monospace && flags.vertical);
    let flags = face_flags(0, 0x1);
    assert!(!flags.italic && !flags.monospace && !flags.vertical);
    assert!(is_monospace(0x4));
    assert!(!is_monospace(0x20));
}
