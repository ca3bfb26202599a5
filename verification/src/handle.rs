//! Encapsulates the information needed to locate and open a font.
//!
//! This is either the path to the font or the raw in-memory font data.
//!
//! To open the font referenced by a handle, use a loader.

use vstd::prelude::*;
use std::path::PathBuf;
use std::sync::Arc;

verus! {

/// A file system path, carried through unchanged.
#[verifier::external_type_specification]
#[verifier::external_body]
pub struct ExPathBuf(PathBuf);

/// Calls `<PathBuf as Clone>::clone`, which gives a path equal to the one it is called on.
#[verifier::external_body]
pub(crate) fn clone_path(path: &PathBuf) -> (r: PathBuf)
    ensures
        r == *path,
{
    path.clone()
}

/// Calls `<Arc<Vec<u8>> as Clone>::clone`, which gives another pointer to the same bytes.
#[verifier::external_body]
pub(crate) fn clone_bytes(bytes: &Arc<Vec<u8>>) -> (r: Arc<Vec<u8>>)
    ensures
        r == *bytes,
{
    bytes.clone()
}

/// Encapsulates the information needed to locate and open a font.
///
/// This is either the path to the font or the raw in-memory font data.
///
/// To open the font referenced by a handle, use a loader.
#[derive(Debug)]
pub enum Handle {
    /// A font on disk referenced by a path.
    Path {
        /// The path to the font.
        path: PathBuf,
        /// The index of the font, if the path refers to a collection.
        ///
        /// If the path refers to a single font, this value will be 0.
        font_index: u32,
    },
    /// A font in memory.
    Memory {
        /// The raw TrueType/OpenType/etc. data that makes up this font.
        bytes: Arc<Vec<u8>>,
        /// The index of the font, if the memory consists of a collection.
        ///
        /// If the memory consists of a single font, this value will be 0.
        font_index: u32,
    },
}

impl Clone for Handle {
    fn clone(&self) -> (r: Handle)
        ensures
            r == *self,
    {
        match self {
            Handle::Path { path, font_index } => Handle::Path {
                path: clone_path(path),
                font_index: *font_index,
            },
            Handle::Memory { bytes, font_index } => Handle::Memory {
                bytes: clone_bytes(bytes),
                font_index: *font_index,
            },
        }
    }
}

impl Handle {
    /// Creates a new handle from a path.
    ///
    /// `font_index` specifies the index of the font to choose if the path points to a font
    /// collection. If the path points to a single font file, pass 0.
    pub fn from_path(path: PathBuf, font_index: u32) -> (r: Handle)
        ensures
            r == (Handle::Path { path, font_index }),
    {
        Handle::Path { path, font_index }
    }

    /// Creates a new handle from raw TTF/OTF/etc. data in memory.
    ///
    /// `font_index` specifies the index of the font to choose if the memory represents a font
    /// collection. If the memory represents a single font file, pass 0.
    pub fn from_memory(bytes: Arc<Vec<u8>>, font_index: u32) -> (r: Handle)
        ensures
            r == (Handle::Memory { bytes, font_index }),
    {
        Handle::Memory { bytes, font_index }
    }
}

/// Encapsulates the information needed to locate and open the fonts in a family.
#[derive(Debug, Clone)]
pub struct FamilyHandle {
    /// The handles of the fonts of the family, in order.
    pub fonts: Vec<Handle>,
}

impl FamilyHandle {
    /// Creates an empty set of family handles.
    pub fn new() -> (r: FamilyHandle)
        ensures
            r.fonts@ == Seq::<Handle>::empty(),
    {
        FamilyHandle { fonts: Vec::new() }
    }

    /// Creates a set of font family handles from the handles of its fonts.
    pub fn from_font_handles(fonts: Vec<Handle>) -> (r: FamilyHandle)
        ensures
            r.fonts@ == fonts@,
    {
        FamilyHandle { fonts }
    }

    /// Adds a new handle to this set.
    pub fn push(&mut self, font: Handle)
        ensures
            final(self).fonts@ == old(self).fonts@.push(font),
    {
        self.fonts.push(font)
    }

    /// Returns true if and only if this set has no fonts in it.
    pub fn is_empty(&self) -> (r: bool)
        ensures
            r == (self.fonts@.len() == 0),
    {
        self.fonts.len() == 0
    }

    /// Returns all the handles in this set.
    pub fn fonts(&self) -> (r: &[Handle])
        ensures
            r@ == self.fonts@,
    {
        self.fonts.as_slice()
    }
}

} // verus!
