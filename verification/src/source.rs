//! A database of installed fonts that can be queried.

use vstd::prelude::*;
use crate::error::{FontLoadingError, SelectionError};
use crate::family::{Face, Family};
use crate::handle::{FamilyHandle, Handle};
use crate::matching::{find_best_match, is_best_match};
use crate::properties::{Class, Properties};
use crate::sources::mem::names_equal;

verus! {

/// The family that a generic family stands for: "Times New Roman" for serif, "Arial" for
/// sans-serif, "Courier New" for monospace, "Comic Sans MS" for cursive and "Papyrus" for
/// fantasy; a named family stands for itself.
pub open spec fn family_name_for(family: Class) -> Seq<char> {
    match family {
        Class::Name(name) => name@,
        Class::Serif => "Times New Roman"@,
        Class::SansSerif => "Arial"@,
        Class::Monospace => "Courier New"@,
        Class::Cursive => "Comic Sans MS"@,
        Class::Fantasy => "Papyrus"@,
    }
}

/// The name of the family that `family` selects.
pub fn generic_family_name(family: &Class) -> (r: &str)
    ensures
        r@ == family_name_for(*family),
{
    match family {
        Class::Name(name) => name.as_str(),
        Class::Serif => "Times New Roman",
        Class::SansSerif => "Arial",
        Class::Monospace => "Courier New",
        Class::Cursive => "Comic Sans MS",
        Class::Fantasy => "Papyrus",
    }
}

/// A database of installed fonts that can be queried.
pub trait Source {
    /// Returns paths of all fonts installed on the system.
    fn all_fonts(&self) -> Result<Vec<Handle>, SelectionError>;

    /// Returns the names of all families installed on the system.
    fn all_families(&self) -> Result<Vec<String>, SelectionError>;

    /// Looks up a font family by name and returns the handles of all the fonts in that family.
    fn select_family_by_name(&self, family_name: &str) -> Result<FamilyHandle, SelectionError>;

    /// Selects a font by PostScript name, which should be a unique identifier.
    fn select_by_postscript_name(&self, postscript_name: &str) -> Result<Handle, SelectionError>;

    /// Looks up the family that a `font-family` value names, with a default family for each
    /// generic one.
    fn select_family_by_spec(&self, family: &Class) -> (r: Result<FamilyHandle, SelectionError>)
        ensures
            exists|name: &str|
                name@ == family_name_for(*family) && #[trigger] call_ensures(
                    Self::select_family_by_name,
                    (self, name),
                    r,
                ),
    {
        let name = generic_family_name(family);
        let r = self.select_family_by_name(name);
        assert(call_ensures(Self::select_family_by_name, (self, name), r));
        r
    }
}

/// Looking up `class` in `source` and loading its family with the loader `F` gave `family`.
pub open spec fn family_loaded<S: ?Sized + Source, F: Face>(source: &S, class: &Class, family: Family<F>) -> bool {
    exists|handle: FamilyHandle|
        #![trigger call_ensures(S::select_family_by_spec, (source, class), Ok::<FamilyHandle, SelectionError>(handle))]
        call_ensures(S::select_family_by_spec, (source, class), Ok::<FamilyHandle, SelectionError>(handle))
            && call_ensures(
            Family::<F>::from_handle,
            (&handle,),
            Ok::<Family<F>, FontLoadingError>(family),
        )
}

/// Looking up `class` in `source` and loading its family with the loader `F` gives no font to
/// match: the lookup fails, a font of the family fails to load, or the family has no font.
pub open spec fn family_gives_nothing<S: ?Sized + Source, F: Face>(source: &S, class: &Class) -> bool {
    exists|answer: Result<FamilyHandle, SelectionError>|
        #[trigger] call_ensures(S::select_family_by_spec, (source, class), answer) && (answer matches Ok(
            handle,
        ) ==> exists|loaded: Result<Family<F>, FontLoadingError>|
            #[trigger] call_ensures(Family::<F>::from_handle, (&handle,), loaded) && (loaded matches Ok(
                family,
            ) ==> family.fonts@.len() == 0))
}

/// Performs font matching according to the CSS Fonts Level 3 specification, loading fonts with
/// the loader `F`: the families are tried in turn, and the best match among the fonts of the
/// first family that can be looked up and loaded and has a font is returned.
pub fn find_with_loader<S: ?Sized + Source, F: Face>(source: &S, families: &[Class], properties: &Properties) -> (r:
    Result<F, SelectionError>)
    ensures
        r matches Err(e) ==> e == SelectionError::NotFound && forall|k: int|
            0 <= k < families@.len() ==> family_gives_nothing::<S, F>(source, &#[trigger] families@[k]),
        r matches Ok(font) ==> exists|k: int, family: Family<F>|
            #![trigger family_loaded::<S, F>(source, &families@[k], family)]
            0 <= k < families@.len() && family_loaded::<S, F>(source, &families@[k], family) && call_ensures(
                Family::<F>::find,
                (&family, properties),
                Ok::<F, ()>(font),
            ) && forall|j: int| 0 <= j < k ==> family_gives_nothing::<S, F>(source, &#[trigger] families@[j]),
{
    let mut k: usize = 0;
    while k < families.len()
        invariant
            k <= families@.len(),
            forall|j: int| 0 <= j < k ==> family_gives_nothing::<S, F>(source, &#[trigger] families@[j]),
        decreases families@.len() - k,
    {
        let class = &families[k];
        let answer = source.select_family_by_spec(class);
        assert(call_ensures(S::select_family_by_spec, (source, class), answer));
        match answer {
            Ok(family_handle) => {
                let loaded = Family::<F>::from_handle(&family_handle);
                assert(call_ensures(Family::<F>::from_handle, (&family_handle,), loaded));
                match loaded {
                    Ok(family) => {
                        let found = family.find(properties);
                        assert(call_ensures(Family::<F>::find, (&family, properties), found));
                        match found {
                            Ok(font) => {
                                assert(family_loaded::<S, F>(source, &families@[k as int], family));
                                return Ok(font);
                            },
                            Err(()) => {
                                assert(family_gives_nothing::<S, F>(source, &families@[k as int]));
                            },
                        }
                    },
                    Err(_) => {
                        assert(family_gives_nothing::<S, F>(source, &families@[k as int]));
                    },
                }
            },
            Err(_) => {
                assert(family_gives_nothing::<S, F>(source, &families@[k as int]));
            },
        }
        k = k + 1;
    }
    Err(SelectionError::NotFound)
}

/// Face `face` reports the PostScript name `name`.
pub open spec fn reports_name<F: Face>(face: F, name: Seq<char>) -> bool {
    exists|s: String| #[trigger] call_ensures(F::postscript_name, (&face,), s) && s@ == name
}

/// Face `face` reports a PostScript name other than `name`.
pub open spec fn reports_other_name<F: Face>(face: F, name: Seq<char>) -> bool {
    exists|s: String| #[trigger] call_ensures(F::postscript_name, (&face,), s) && s@ != name
}

/// The loader `F` loaded `faces`, one from each of `handles`, in order.
pub open spec fn faces_loaded<F: Face>(handles: Seq<Handle>, faces: Seq<F>) -> bool {
    &&& faces.len() == handles.len()
    &&& forall|i: int|
        0 <= i < faces.len() ==> call_ensures(
            F::from_handle,
            (&handles[i],),
            Ok::<F, FontLoadingError>(#[trigger] faces[i]),
        )
}

/// No font of `family` is found under the PostScript name `name` with the loader `F`: loading
/// one of its fonts fails, or every font loaded reports another name.
pub open spec fn family_lacks_name<F: Face>(family: FamilyHandle, name: Seq<char>) -> bool {
    ||| exists|k: int, e: FontLoadingError|
        0 <= k < family.fonts@.len() && #[trigger] call_ensures(
            F::from_handle,
            (&family.fonts@[k],),
            Err::<F, FontLoadingError>(e),
        )
    ||| exists|faces: Seq<F>|
        #[trigger] faces_loaded::<F>(family.fonts@, faces) && forall|k: int|
            0 <= k < faces.len() ==> reports_other_name::<F>(#[trigger] faces[k], name)
}

/// Asking `source` for the family named `listed` finds no font under the PostScript name `name`
/// with the loader `F`: the lookup fails, or the family it gives lacks the name.
pub open spec fn lookup_lacks_name<S: ?Sized + Source, F: Face>(source: &S, listed: Seq<char>, name: Seq<char>) -> bool {
    exists|n: &str, answer: Result<FamilyHandle, SelectionError>|
        #![trigger call_ensures(S::select_family_by_name, (source, n), answer)]
        n@ == listed && call_ensures(S::select_family_by_name, (source, n), answer) && (answer matches Ok(
            family,
        ) ==> family_lacks_name::<F>(family, name))
}

/// Asking `source` for the family named `listed` gives a family whose fonts all load with `F`,
/// and `h` is the first of them whose face reports the PostScript name `name`.
pub open spec fn first_font_named<S: ?Sized + Source, F: Face>(
    source: &S,
    listed: Seq<char>,
    name: Seq<char>,
    h: Handle,
) -> bool {
    exists|n: &str, family: FamilyHandle, faces: Seq<F>, j: int|
        #![trigger call_ensures(S::select_family_by_name, (source, n), Ok::<FamilyHandle, SelectionError>(family)), faces_loaded::<F>(family.fonts@, faces), faces[j]]
        n@ == listed && call_ensures(
            S::select_family_by_name,
            (source, n),
            Ok::<FamilyHandle, SelectionError>(family),
        ) && faces_loaded::<F>(family.fonts@, faces) && 0 <= j < faces.len() && reports_name::<F>(faces[j], name)
            && (forall|i: int| 0 <= i < j ==> reports_other_name::<F>(#[trigger] faces[i], name))
            && family.fonts@[j] == h
}

/// What a brute-force search of `source` for the PostScript name `name` with the loader `F`
/// gives, once the families have been listed as `names`: the first font so named of the first
/// listed family that has one, or "not found".
pub open spec fn search_outcome<S: ?Sized + Source, F: Face>(
    source: &S,
    names: Seq<String>,
    name: Seq<char>,
    r: Result<Handle, SelectionError>,
) -> bool {
    match r {
        Ok(h) => exists|k: int|
            0 <= k < names.len() && first_font_named::<S, F>(source, (#[trigger] names[k])@, name, h) && forall|
                i: int,
            |
                0 <= i < k ==> lookup_lacks_name::<S, F>(source, (#[trigger] names[i])@, name),
        Err(e) => e == SelectionError::NotFound && forall|i: int|
            0 <= i < names.len() ==> lookup_lacks_name::<S, F>(source, (#[trigger] names[i])@, name),
    }
}

/// Selects a font by PostScript name by brute force, loading fonts with the loader `F`: the
/// families of the source are listed, and the fonts of each family are loaded in turn; the
/// handle of the first font whose PostScript name matches is returned. Families that cannot be
/// looked up or loaded are passed over; an error listing the families is returned as it is.
pub fn select_by_postscript_name_with_loader<S: ?Sized + Source, F: Face>(source: &S, postscript_name: &str) -> (r:
    Result<Handle, SelectionError>)
    ensures
        exists|listing: Result<Vec<String>, SelectionError>|
            #[trigger] call_ensures(S::all_families, (source,), listing) && match listing {
                Err(e) => r == Err::<Handle, SelectionError>(e),
                Ok(names) => search_outcome::<S, F>(source, names@, postscript_name@, r),
            },
{
    let listing = source.all_families();
    assert(call_ensures(S::all_families, (source,), listing));
    let family_names = match listing {
        Ok(names) => names,
        Err(e) => return Err(e),
    };
    let mut k: usize = 0;
    while k < family_names.len()
        invariant
            k <= family_names@.len(),
            call_ensures(S::all_families, (source,), Ok::<Vec<String>, SelectionError>(family_names)),
            forall|i: int|
                0 <= i < k ==> lookup_lacks_name::<S, F>(source, (#[trigger] family_names@[i])@, postscript_name@),
        decreases family_names@.len() - k,
    {
        let family_name = family_names[k].as_str();
        let selected = source.select_family_by_name(family_name);
        assert(call_ensures(S::select_family_by_name, (source, family_name), selected));
        match selected {
            Ok(family_handle) => {
                let loaded = Family::<F>::from_handle(&family_handle);
                match loaded {
                    Ok(family) => {
                        assert(call_ensures(
                            S::select_family_by_name,
                            (source, family_name),
                            Ok::<FamilyHandle, SelectionError>(family_handle),
                        ));
                        assert(faces_loaded::<F>(family_handle.fonts@, family.fonts@));
                        let n = family.fonts.len();
                        let mut j: usize = 0;
                        while j < n
                            invariant
                                k < family_names@.len(),
                                family_name@ == family_names@[k as int]@,
                                call_ensures(S::all_families, (source,), Ok::<Vec<String>, SelectionError>(family_names)),
                                forall|i: int|
                                    0 <= i < k ==> lookup_lacks_name::<S, F>(source, (#[trigger] family_names@[i])@, postscript_name@),
                                call_ensures(
                                    S::select_family_by_name,
                                    (source, family_name),
                                    Ok::<FamilyHandle, SelectionError>(family_handle),
                                ),
                                n == family.fonts@.len(),
                                j <= n,
                                faces_loaded::<F>(family_handle.fonts@, family.fonts@),
                                forall|i: int|
                                    0 <= i < j ==> reports_other_name::<F>(#[trigger] family.fonts@[i], postscript_name@),
                            decreases n - j,
                        {
                            let name = family.fonts[j].postscript_name();
                            assert(call_ensures(F::postscript_name, (&family.fonts@[j as int],), name));
                            if names_equal(name.as_str(), postscript_name) {
                                let handle = family_handle.fonts[j].clone();
                                assert(reports_name::<F>(family.fonts@[j as int], postscript_name@));
                                assert(first_font_named::<S, F>(source, family_names@[k as int]@, postscript_name@, handle));
                                assert(search_outcome::<S, F>(source, family_names@, postscript_name@, Ok::<Handle, SelectionError>(handle)));
                                return Ok(handle);
                            }
                            assert(reports_other_name::<F>(family.fonts@[j as int], postscript_name@));
                            j = j + 1;
                        }
                        assert(family_lacks_name::<F>(family_handle, postscript_name@));
                        assert(lookup_lacks_name::<S, F>(source, family_names@[k as int]@, postscript_name@));
                    },
                    Err(e) => {
                        let ghost i = choose|i: int|
                            0 <= i < family_handle.fonts@.len() && #[trigger] call_ensures(
                                F::from_handle,
                                (&family_handle.fonts@[i],),
                                Err::<F, FontLoadingError>(e),
                            );
                        assert(family_lacks_name::<F>(family_handle, postscript_name@));
                        assert(call_ensures(
                            S::select_family_by_name,
                            (source, family_name),
                            Ok::<FamilyHandle, SelectionError>(family_handle),
                        ));
                        assert(lookup_lacks_name::<S, F>(source, family_names@[k as int]@, postscript_name@));
                    },
                }
            },
            Err(e) => {
                assert(call_ensures(
                    S::select_family_by_name,
                    (source, family_name),
                    Err::<FamilyHandle, SelectionError>(e),
                ));
                assert(lookup_lacks_name::<S, F>(source, family_names@[k as int]@, postscript_name@));
            },
        }
        k = k + 1;
    }
    assert(search_outcome::<S, F>(source, family_names@, postscript_name@, Err::<Handle, SelectionError>(SelectionError::NotFound)));
    Err(SelectionError::NotFound)
}

/// `p` is what the loader `F` reports as the properties of a face that it loaded from `h`.
pub open spec fn reported_properties<F: Face>(h: Handle, p: Properties) -> bool {
    exists|face: F|
        #[trigger] call_ensures(F::from_handle, (&h,), Ok::<F, FontLoadingError>(face)) && call_ensures(
            F::properties,
            (&face,),
            p,
        )
}

/// The properties of the fonts of a family, each font loaded with the loader `F`, or the error
/// of the first font that fails to load.
fn family_properties<F: Face>(family_handle: &FamilyHandle) -> (r: Result<Vec<Properties>, FontLoadingError>)
    ensures
        family_handle.fonts@.len() == 0 ==> r is Ok,
        r matches Ok(v) ==> v@.len() == family_handle.fonts@.len() && forall|k: int|
            0 <= k < v@.len() ==> reported_properties::<F>(family_handle.fonts@[k], #[trigger] v@[k]),
        r matches Err(e) ==> exists|k: int|
            0 <= k < family_handle.fonts@.len() && #[trigger] call_ensures(
                F::from_handle,
                (&family_handle.fonts@[k],),
                Err::<F, FontLoadingError>(e),
            ),
{
    let mut reported: Vec<Properties> = Vec::new();
    let n = family_handle.fonts.len();
    let mut i: usize = 0;
    while i < n
        invariant
            n == family_handle.fonts@.len(),
            i <= n,
            reported@.len() == i,
            forall|k: int| 0 <= k < i ==> reported_properties::<F>(family_handle.fonts@[k], #[trigger] reported@[k]),
        decreases n - i,
    {
        let h = &family_handle.fonts[i];
        let loaded = F::from_handle(h);
        match loaded {
            Ok(font) => {
                let p = font.properties();
                assert(call_ensures(F::from_handle, (h,), Ok::<F, FontLoadingError>(font)));
                assert(call_ensures(F::properties, (&font,), p));
                assert(reported_properties::<F>(family_handle.fonts@[i as int], p));
                reported.push(p);
            },
            Err(e) => {
                assert(call_ensures(F::from_handle, (&family_handle.fonts@[i as int],), Err::<F, FontLoadingError>(e)));
                return Err(e);
            },
        }
        i = i + 1;
    }
    Ok(reported)
}

/// `reported` holds, handle by handle, the properties that the loader `F` reported for a face
/// it loaded from `handles`.
pub open spec fn handles_report<F: Face>(handles: Seq<Handle>, reported: Seq<Properties>) -> bool {
    &&& reported.len() == handles.len()
    &&& forall|j: int| 0 <= j < handles.len() ==> reported_properties::<F>(handles[j], #[trigger] reported[j])
}

/// `h` is the best match for `properties` among the fonts of the family that looking up `class`
/// in `source` gave, judged by the properties that the loader `F` reported for them.
pub open spec fn best_match_in_family<S: ?Sized + Source, F: Face>(
    source: &S,
    class: &Class,
    properties: Properties,
    h: Handle,
) -> bool {
    exists|handle: FamilyHandle, reported: Seq<Properties>, i: int|
        #![trigger call_ensures(S::select_family_by_spec, (source, class), Ok::<FamilyHandle, SelectionError>(handle)), is_best_match(reported, properties, i)]
        call_ensures(S::select_family_by_spec, (source, class), Ok::<FamilyHandle, SelectionError>(handle))
            && handles_report::<F>(handle.fonts@, reported) && is_best_match(reported, properties, i)
            && handle.fonts@[i] == h
}

/// Looking up `class` in `source` gives no font to match with the loader `F`: the lookup fails,
/// the family has no font, or one of its fonts fails to load.
pub open spec fn family_matches_nothing<S: ?Sized + Source, F: Face>(source: &S, class: &Class) -> bool {
    exists|answer: Result<FamilyHandle, SelectionError>|
        #[trigger] call_ensures(S::select_family_by_spec, (source, class), answer) && (answer matches Ok(
            handle,
        ) ==> handle.fonts@.len() == 0 || exists|j: int, e: FontLoadingError|
            0 <= j < handle.fonts@.len() && #[trigger] call_ensures(
                F::from_handle,
                (&handle.fonts@[j],),
                Err::<F, FontLoadingError>(e),
            ))
}

/// Performs font matching according to the CSS Fonts Level 3 specification and returns the
/// handle of the font chosen, loading fonts with the loader `F` to learn their properties: the
/// families are tried in turn, and the best match among the fonts of the first family that can be
/// looked up and loaded and has a font is chosen.
pub fn select_best_match_with_loader<S: ?Sized + Source, F: Face>(
    source: &S,
    families: &[Class],
    properties: &Properties,
) -> (r: Result<Handle, SelectionError>)
    ensures
        r matches Err(e) ==> e == SelectionError::NotFound && forall|k: int|
            0 <= k < families@.len() ==> family_matches_nothing::<S, F>(source, &#[trigger] families@[k]),
        r matches Ok(h) ==> exists|k: int|
            0 <= k < families@.len() && best_match_in_family::<S, F>(source, &#[trigger] families@[k], *properties, h)
                && forall|j: int| 0 <= j < k ==> family_matches_nothing::<S, F>(source, &#[trigger] families@[j]),
{
    let mut k: usize = 0;
    while k < families.len()
        invariant
            k <= families@.len(),
            forall|j: int| 0 <= j < k ==> family_matches_nothing::<S, F>(source, &#[trigger] families@[j]),
        decreases families@.len() - k,
    {
        let class = &families[k];
        let answer = source.select_family_by_spec(class);
        assert(call_ensures(S::select_family_by_spec, (source, class), answer));
        match answer {
            Ok(family_handle) => match family_properties::<F>(&family_handle) {
                Ok(reported) => match find_best_match(reported.as_slice(), properties) {
                    Ok(index) => {
                        let h = family_handle.fonts[index].clone();
                        assert(handles_report::<F>(family_handle.fonts@, reported@));
                        assert(is_best_match(reported@, *properties, index as int));
                        assert(best_match_in_family::<S, F>(source, &families@[k as int], *properties, h));
                        return Ok(h);
                    },
                    Err(()) => {
                        assert(family_matches_nothing::<S, F>(source, &families@[k as int]));
                    },
                },
                Err(e) => {
                    assert(family_matches_nothing::<S, F>(source, &families@[k as int]));
                },
            },
            Err(_) => {
                assert(family_matches_nothing::<S, F>(source, &families@[k as int]));
            },
        }
        k = k + 1;
    }
    Err(SelectionError::NotFound)
}

} // verus!
