use font_kit::error::FontLoadingError;
use font_kit::file_type::{
    font_is_collection, read_number_of_fonts_from_otc_header, unpack_otc_font, FileType,
};

/// An OpenType collection header claiming `count` fonts, followed by the given offsets.
fn otc_header(count: u32, offsets: &[u32]) -> Vec<u8> {
    let mut data = b"ttcf".to_vec();
    data.extend_from_slice(&[0, 1, 0, 0]);
    data.extend_from_slice(&count.to_be_bytes());
    for offset in offsets {
        data.extend_from_slice(&offset.to_be_bytes());
    }
    data
}

#[test]
fn recognizes_collection_magic() {
    assert!(FileType::data_is_font_collection(b"ttcf\x00\x01\x00\x00"));
    assert!(!FileType::data_is_font_collection(b"OTTO\x00\x01\x00\x00"));
    assert!(!FileType::data_is_font_collection(b"ttc"));
    assert!(font_is_collection(b"ttcf"));
    assert!(!font_is_collection(b"\x00\x01\x00\x00"));
}

#[test]
fn counts_fonts_in_collection() {
    let data = otc_header(2, &[20, 40]);
    assert_eq!(FileType::get_number_of_fonts_from_data_if_collection(&data), Some(2));
    assert_eq!(
        FileType::get_number_of_fonts_from_data_if_collection(b"\x00\x01\x00\x00abcdefgh"),
        None
    );
    assert_eq!(FileType::get_number_of_fonts_from_data_if_collection(b"ttcf\x00\x01\x00\x00\x00"), None);
}

#[test]
fn reads_number_of_fonts_big_endian() {
    let data = otc_header(0x0102_0304, &[]);
    assert_eq!(read_number_of_fonts_from_otc_header(&data).unwrap(), 0x0102_0304);
}

#[test]
fn header_of_single_font_is_unknown_format() {
    match read_number_of_fonts_from_otc_header(b"OTTO\x00\x01\x00\x00\x00\x00\x00\x01") {
        Err(FontLoadingError::UnknownFormat) => {}
        other => panic!("unexpected result: {:?}", other),
    }
}

#[test]
fn truncated_header_is_io_error() {
    match read_number_of_fonts_from_otc_header(b"ttcf\x00\x01\x00\x00\x00\x00") {
        Err(FontLoadingError::Io(_)) => {}
        other => panic!("unexpected result: {:?}", other),
    }
}

/// A collection of one font whose table directory, at offset 16, lists one table.
fn one_font_collection() -> Vec<u8> {
    let mut data = otc_header(1, &[16]);
    // Table directory: version, table count 1, search fields.
    data.extend_from_slice(&[0xaa, 0xbb, 0xcc, 0xdd, 0, 1, 1, 2, 3, 4, 5, 6]);
    // One 16-byte table record.
    data.extend_from_slice(&[
        b'h', b'e', b'a', b'd', 9, 9, 9, 9, 0, 0, 0, 0, 0, 0, 0, 54,
    ]);
    // Table data.
    data.extend_from_slice(&[0x11, 0x22]);
    data
}

#[test]
fn unpacks_font_from_collection() {
    let mut data = one_font_collection();
    let before = data.clone();
    unpack_otc_font(&mut data, 0).unwrap();
    // The table directory (12 + 16 * 1 bytes) is moved to the start.
    assert_eq!(&data[0..28], &before[16..44]);
    assert_eq!(&data[28..], &before[28..]);
    assert_eq!(data.len(), before.len());
}

#[test]
fn unpack_rejects_index_past_count() {
    let mut data = one_font_collection();
    let before = data.clone();
    match unpack_otc_font(&mut data, 1) {
        Err(FontLoadingError::NoSuchFontInCollection) => {}
        other => panic!("unexpected result: {:?}", other),
    }
    assert_eq!(data, before);
}

#[test]
fn unpack_rejects_single_font() {
    let mut data = b"OTTO\x00\x01\x00\x00\x00\x00\x00\x01".to_vec();
    match unpack_otc_font(&mut data, 0) {
        Err(FontLoadingError::UnknownFormat) => {}
        other => panic!("unexpected result: {:?}", other),
    }
}

#[test]
fn unpack_reports_truncated_offset_table() {
    let mut data = otc_header(2, &[16]);
    let before = data.clone();
    match unpack_otc_font(&mut data, 1) {
        Err(FontLoadingError::Io(_)) => {}
        other => panic!("unexpected result: {:?}", other),
    }
    assert_eq!(data, before);
}
