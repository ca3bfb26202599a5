//! The type of a font file: either a single font or a TrueType/OpenType collection, and the
//! handling of the collection header.

use vstd::prelude::*;
use crate::bytes::{be_u16_at, be_u32_at, read_u16_be, read_u32_be};
use crate::error::FontLoadingError;

verus! {

/// The type of a font file: either a single font or a TrueType/OpenType collection.
#[derive(Clone, Copy, Debug, PartialEq, Eq, Structural)]
pub enum FileType {
    /// The font file represents a single font (`.ttf`, `.otf`, `.woff`, etc.)
    Single,
    /// The font file represents a collection of fonts (`.ttc`, `.otc`, etc.)
    Collection(u32),
}

/// The data starts with the tag `ttcf` of a TrueType/OpenType collection header.
pub open spec fn is_collection_header(data: Seq<u8>) -> bool {
    &&& data.len() >= 4
    &&& data[0] == 0x74u8
    &&& data[1] == 0x74u8
    &&& data[2] == 0x63u8
    &&& data[3] == 0x66u8
}

/// A collection header is long enough for its font count to be sliced off (its byte 8 exists
/// or is just past the end).
pub open spec fn collection_count_sliceable(data: Seq<u8>) -> bool {
    is_collection_header(data) ==> data.len() >= 8
}

impl FileType {
    /// Whether the data starts with the `ttcf` tag of a font collection.
    pub fn data_is_font_collection(data: &[u8]) -> (r: bool)
        ensures
            r == is_collection_header(data@),
    {
        data.len() >= 4 && data[0] == 0x74u8 && data[1] == 0x74u8 && data[2] == 0x63u8 && data[3]
            == 0x66u8
    }

    /// The number of fonts that a collection header declares, or `None` when the data is not a
    /// collection or too short to hold the count.
    pub fn get_number_of_fonts_from_data_if_collection(data: &[u8]) -> (r: Option<u32>)
        requires
            collection_count_sliceable(data@),
        ensures
            !is_collection_header(data@) ==> r is None,
            is_collection_header(data@) ==> (r is Some <==> data@.len() >= 12),
            r matches Some(n) ==> n as int == be_u32_at(data@, 8),
    {
        if !FileType::data_is_font_collection(data) {
            None
        } else {
            let rest = &data[8..data.len()];
            match read_u32_be(rest) {
                Ok(n) => Some(n),
                Err(_) => None,
            }
        }
    }
}

/// Whether the header starts with the `ttcf` tag of a font collection.
pub fn font_is_collection(header: &[u8]) -> (r: bool)
    ensures
        r == is_collection_header(header@),
{
    header.len() >= 4 && header[0] == 0x74u8 && header[1] == 0x74u8 && header[2] == 0x63u8
        && header[3] == 0x66u8
}

/// The number of fonts that a collection header declares.
pub fn read_number_of_fonts_from_otc_header(header: &[u8]) -> (r: Result<u32, FontLoadingError>)
    requires
        collection_count_sliceable(header@),
    ensures
        !is_collection_header(header@) ==> r matches Err(FontLoadingError::UnknownFormat),
        is_collection_header(header@) && header@.len() < 12 ==> r matches Err(
            FontLoadingError::Io(_),
        ),
        is_collection_header(header@) && header@.len() >= 12 ==> (r matches Ok(n) && n as int
            == be_u32_at(header@, 8)),
{
    if !font_is_collection(header) {
        return Err(FontLoadingError::UnknownFormat);
    }
    match read_u32_be(&header[8..header.len()]) {
        Ok(n) => Ok(n),
        Err(e) => Err(FontLoadingError::from(e)),
    }
}

/// Where in the collection the offset table position of font `font_index` is stored.
pub open spec fn otc_offset_slot(font_index: u32) -> int {
    12 + 4 * font_index
}

/// The position of the offset table of font `font_index`.
pub open spec fn otc_table_pos(d: Seq<u8>, font_index: u32) -> int {
    be_u32_at(d, otc_offset_slot(font_index))
}

/// The size of that offset table together with its table records.
pub open spec fn otc_table_size(d: Seq<u8>, font_index: u32) -> int {
    12 + 16 * be_u16_at(d, otc_table_pos(d, font_index) + 4)
}

/// Unpacking font `font_index` of the collection `d` stays within the data wherever the data
/// is sliced or copied: the count can be sliced off, and for a font that exists, its slot, its
/// table's number of tables and the table with its records lie where they can be sliced.
pub open spec fn otc_unpack_in_bounds(d: Seq<u8>, font_index: u32) -> bool {
    let len = d.len() as int;
    &&& collection_count_sliceable(d)
    &&& (is_collection_header(d) && len >= 12 && font_index < be_u32_at(d, 8)) ==> {
        &&& otc_offset_slot(font_index) <= len
        &&& (len - otc_offset_slot(font_index) >= 4 ==> {
            &&& otc_table_pos(d, font_index) + 4 <= len
            &&& (len - (otc_table_pos(d, font_index) + 4) >= 2 ==> otc_table_pos(d, font_index)
                + otc_table_size(d, font_index) <= len)
        })
    }
}

/// The font `font_index` exists in the collection `d` and every field needed to unpack it is
/// there.
pub open spec fn otc_unpack_succeeds(d: Seq<u8>, font_index: u32) -> bool {
    let len = d.len() as int;
    &&& is_collection_header(d)
    &&& len >= 12
    &&& font_index < be_u32_at(d, 8)
    &&& len - otc_offset_slot(font_index) >= 4
    &&& len - (otc_table_pos(d, font_index) + 4) >= 2
}

/// The data of the collection `d` once font `font_index` is unpacked: the font's offset table
/// and table records, then the rest of the collection as it was.
pub open spec fn otc_unpacked(d: Seq<u8>, font_index: u32) -> Seq<u8> {
    d.subrange(otc_table_pos(d, font_index), otc_table_pos(d, font_index) + otc_table_size(d, font_index))
        + d.subrange(otc_table_size(d, font_index), d.len() as int)
}

/// Unpacking font `i` of a collection moves the font's table directory to the start of the
/// data: the offset table stands at the big-endian `u32` in the `i`-th 4-byte entry of the
/// collection's offset array (bytes `12 + 4 * i` on), and its 12-byte header with one 16-byte
/// record for each of its `numTables` tables (the `u16` 4 bytes into the offset table) becomes
/// the first `12 + 16 * numTables` bytes; every later byte and the length are unchanged.
pub proof fn lemma_unpacked_table_directory(d: Seq<u8>, font_index: u32)
    requires
        otc_unpack_in_bounds(d, font_index),
        otc_unpack_succeeds(d, font_index),
    ensures
        ({
            let pos = be_u32_at(d, 12 + 4 * font_index);
            let n = be_u16_at(d, pos + 4);
            let u = otc_unpacked(d, font_index);
            &&& u.len() == d.len()
            &&& pos + 12 + 16 * n <= d.len()
            &&& forall|i: int| 0 <= i < 12 + 16 * n ==> #[trigger] u[i] == d[pos + i]
            &&& forall|i: int| 12 + 16 * n <= i < d.len() ==> #[trigger] u[i] == d[i]
        }),
{
}

/// Unpacks font `font_index` of an OpenType collection in place: its offset table and table
/// records are copied to the start of the data, so that the data reads as that single font.
pub fn unpack_otc_font(data: &mut [u8], font_index: u32) -> (r: Result<(), FontLoadingError>)
    requires
        otc_unpack_in_bounds(old(data)@, font_index),
    ensures
        !is_collection_header(old(data)@) ==> r matches Err(FontLoadingError::UnknownFormat),
        is_collection_header(old(data)@) && old(data)@.len() < 12 ==> r matches Err(
            FontLoadingError::Io(_),
        ),
        is_collection_header(old(data)@) && old(data)@.len() >= 12 && font_index >= be_u32_at(
            old(data)@,
            8,
        ) ==> r matches Err(FontLoadingError::NoSuchFontInCollection),
        is_collection_header(old(data)@) && old(data)@.len() >= 12 && font_index < be_u32_at(
            old(data)@,
            8,
        ) && !otc_unpack_succeeds(old(data)@, font_index) ==> r matches Err(
            FontLoadingError::Io(_),
        ),
        r is Ok <==> otc_unpack_succeeds(old(data)@, font_index),
        r is Err ==> final(data)@ == old(data)@,
        r is Ok ==> final(data)@ == otc_unpacked(old(data)@, font_index),
        r is Ok ==> ({
            let d = old(data)@;
            let pos = be_u32_at(d, 12 + 4 * font_index);
            let n = be_u16_at(d, pos + 4);
            &&& final(data)@.len() == d.len()
            &&& forall|i: int| 0 <= i < 12 + 16 * n ==> #[trigger] final(data)@[i] == d[pos + i]
            &&& forall|i: int| 12 + 16 * n <= i < d.len() ==> #[trigger] final(data)@[i] == d[i]
        }),
{
    let ghost d = data@;
    let len = data.len();
    let font_count = match read_number_of_fonts_from_otc_header(data) {
        Ok(n) => n,
        Err(e) => return Err(e),
    };
    if font_index >= font_count {
        return Err(FontLoadingError::NoSuchFontInCollection);
    }
    let offset_table_pos_pos = 12 + 4 * (font_index as usize);
    let offset_table_pos = match read_u32_be(&data[offset_table_pos_pos..len]) {
        Ok(pos) => pos as usize,
        Err(e) => return Err(FontLoadingError::from(e)),
    };
    let num_tables = match read_u16_be(&data[(offset_table_pos + 4)..len]) {
        Ok(n) => n,
        Err(e) => return Err(FontLoadingError::from(e)),
    };
    // Must copy forward in order to avoid problems with overlapping memory.
    let offset_table_and_table_record_size = 12 + (num_tables as usize) * 16;
    let mut offset: usize = 0;
    while offset < offset_table_and_table_record_size
        invariant
            0 <= offset <= offset_table_and_table_record_size,
            len == d.len(),
            data@.len() == d.len(),
            offset_table_pos == otc_table_pos(d, font_index),
            offset_table_and_table_record_size == otc_table_size(d, font_index),
            offset_table_pos + offset_table_and_table_record_size <= len,
            forall|i: int| 0 <= i < offset ==> #[trigger] data@[i] == d[offset_table_pos + i],
            forall|i: int| offset <= i < len ==> #[trigger] data@[i] == d[i],
        decreases offset_table_and_table_record_size - offset,
    {
        let value = data[offset_table_pos + offset];
        data[offset] = value;
        offset = offset + 1;
    }
    assert(data@ =~= d.subrange(
        offset_table_pos as int,
        offset_table_pos + offset_table_and_table_record_size,
    ) + d.subrange(offset_table_and_table_record_size as int, len as int));
    Ok(())
}

} // verus!
