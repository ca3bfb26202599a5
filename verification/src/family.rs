//! A family of faces of one typeface, and the choice of the face that best matches a query.

use vstd::prelude::*;
use std::path::PathBuf;
use std::sync::Arc;
use crate::error::FontLoadingError;
use crate::handle::{clone_bytes, FamilyHandle, Handle};
use crate::matching::{find_best_match, is_best_match};
use crate::properties::Properties;

verus! {

/// The type of a font file as a loader's analysis reports it: a single font, or a collection of
/// the given number of fonts.
#[derive(Clone, Copy, Debug, PartialEq, Eq, Structural)]
pub enum Type {
    /// The file holds a single font.
    Single,
    /// The file holds a collection of fonts.
    Collection(u32),
}

/// A loaded face of a font, as a loader provides it.
pub trait Face: Clone + Sized {
    /// Loads a font from raw font data (the contents of a `.ttf`/`.otf`/etc. file). If the data
    /// is a collection, `font_index` says which of its fonts to load.
    fn from_bytes(font_data: Arc<Vec<u8>>, font_index: u32) -> Result<Self, FontLoadingError>;

    /// Loads the font at a path. If the file is a collection, `font_index` says which of its
    /// fonts to load.
    fn from_path(path: &PathBuf, font_index: u32) -> Result<Self, FontLoadingError>;

    /// Loads the font that a handle locates: from its bytes when it is in memory, from its path
    /// otherwise.
    fn from_handle(handle: &Handle) -> (r: Result<Self, FontLoadingError>)
        ensures
            handle matches Handle::Memory { bytes, font_index } ==> call_ensures(
                Self::from_bytes,
                (*bytes, *font_index),
                r,
            ),
            handle matches Handle::Path { path, font_index } ==> call_ensures(
                Self::from_path,
                (path, *font_index),
                r,
            ),
    {
        match handle {
            Handle::Memory { bytes, font_index } => Self::from_bytes(clone_bytes(bytes), *font_index),
            Handle::Path { path, font_index } => Self::from_path(path, *font_index),
        }
    }

    /// The PostScript name of the face.
    fn postscript_name(&self) -> String;

    /// The name of the face's family.
    fn family_name(&self) -> String;

    /// The style, weight and stretchiness of the face.
    fn properties(&self) -> Properties;
}

/// The loader `F` loaded a face from `h`.
pub open spec fn handle_loads<F: Face>(h: Handle) -> bool {
    exists|face: F| #[trigger] call_ensures(F::from_handle, (&h,), Ok::<F, FontLoadingError>(face))
}

/// `reported` holds, face by face, the properties that the faces `faces` reported.
pub open spec fn faces_report<F: Face>(faces: Seq<F>, reported: Seq<Properties>) -> bool {
    &&& reported.len() == faces.len()
    &&& forall|j: int| 0 <= j < faces.len() ==> call_ensures(F::properties, (&faces[j],), #[trigger] reported[j])
}

/// The faces of one typeface.
pub struct Family<F: Face> {
    /// The faces, in the order in which they were added.
    pub fonts: Vec<F>,
}

impl<F: Face> Family<F> {
    /// Creates a family with no faces.
    pub fn new() -> (r: Family<F>)
        ensures
            r.fonts@ == Seq::<F>::empty(),
    {
        Family { fonts: Vec::new() }
    }

    /// Creates a family of the given faces, in their order.
    pub fn from_fonts(fonts: Vec<F>) -> (r: Family<F>)
        ensures
            r.fonts@ == fonts@,
    {
        Family { fonts }
    }

    /// Loads the fonts that a family handle locates, in order; the first font that fails to
    /// load fails the whole family.
    pub fn from_handle(family_handle: &FamilyHandle) -> (r: Result<Family<F>, FontLoadingError>)
        ensures
            family_handle.fonts@.len() == 0 ==> r is Ok,
            r matches Ok(family) ==> family.fonts@.len() == family_handle.fonts@.len() && forall|k: int|
                0 <= k < family.fonts@.len() ==> call_ensures(
                    F::from_handle,
                    (&family_handle.fonts@[k],),
                    Ok::<F, FontLoadingError>(#[trigger] family.fonts@[k]),
                ),
            r matches Err(e) ==> exists|k: int|
                0 <= k < family_handle.fonts@.len() && #[trigger] call_ensures(
                    F::from_handle,
                    (&family_handle.fonts@[k],),
                    Err::<F, FontLoadingError>(e),
                ) && forall|j: int| 0 <= j < k ==> handle_loads::<F>(#[trigger] family_handle.fonts@[j]),
    {
        let mut fonts: Vec<F> = Vec::new();
        let n = family_handle.fonts.len();
        let mut i: usize = 0;
        while i < n
            invariant
                n == family_handle.fonts@.len(),
                i <= n,
                fonts@.len() == i,
                forall|k: int|
                    0 <= k < i ==> call_ensures(
                        F::from_handle,
                        (&family_handle.fonts@[k],),
                        Ok::<F, FontLoadingError>(#[trigger] fonts@[k]),
                    ),
                forall|k: int| 0 <= k < i ==> handle_loads::<F>(#[trigger] family_handle.fonts@[k]),
            decreases n - i,
        {
            let loaded = F::from_handle(&family_handle.fonts[i]);
            assert(call_ensures(F::from_handle, (&family_handle.fonts@[i as int],), loaded));
            match loaded {
                Ok(font) => {
                    assert(handle_loads::<F>(family_handle.fonts@[i as int]));
                    fonts.push(font);
                },
                Err(e) => return Err(e),
            }
            i = i + 1;
        }
        Ok(Family { fonts })
    }

    /// A convenience method to create a family with a single font.
    pub fn from_font(font: F) -> (r: Family<F>)
        ensures
            r.fonts@ == seq![font],
    {
        let mut fonts: Vec<F> = Vec::new();
        fonts.push(font);
        Family::from_fonts(fonts)
    }

    /// The faces of the family.
    pub fn fonts(&self) -> (r: &[F])
        ensures
            r@ == self.fonts@,
    {
        self.fonts.as_slice()
    }

    /// Adds a face at the end of the family.
    pub fn push(&mut self, font: F)
        ensures
            final(self).fonts@ == old(self).fonts@.push(font),
    {
        self.fonts.push(font)
    }

    /// Whether the family has no faces.
    pub fn is_empty(&self) -> (r: bool)
        ensures
            r == (self.fonts@.len() == 0),
    {
        self.fonts.len() == 0
    }

    /// Finds the face that best matches `query`, following CSS Fonts Level 3 § 5.2
    /// (<https://drafts.csswg.org/css-fonts-3/#font-style-matching>), and returns a clone of it.
    /// It fails only when the family has no faces. The faces are judged by the properties that
    /// they report.
    pub fn find(&self, query: &Properties) -> (r: Result<F, ()>)
        ensures
            self.fonts@.len() == 0 <==> r is Err,
            r matches Ok(font) ==> exists|reported: Seq<Properties>, i: int|
                #[trigger] is_best_match(reported, *query, i) && faces_report(self.fonts@, reported)
                    && cloned(self.fonts@[i], font),
    {
        let n = self.fonts.len();
        let mut reported: Vec<Properties> = Vec::new();
        let mut k: usize = 0;
        while k < n
            invariant
                n == self.fonts@.len(),
                k <= n,
                reported@.len() == k,
                forall|j: int| 0 <= j < k ==> call_ensures(F::properties, (&self.fonts@[j],), #[trigger] reported@[j]),
            decreases n - k,
        {
            let p = self.fonts[k].properties();
            assert(call_ensures(F::properties, (&self.fonts@[k as int],), p));
            reported.push(p);
            k = k + 1;
        }
        assert(faces_report(self.fonts@, reported@));
        match find_best_match(reported.as_slice(), query) {
            Ok(i) => {
                let font = self.fonts[i].clone();
                assert(is_best_match(reported@, *query, i as int));
                Ok(font)
            },
            Err(()) => Err(()),
        }
    }
}

} // verus!
