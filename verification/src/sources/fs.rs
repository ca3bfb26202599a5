//! A source that loads fonts from a directory or directories on disk.
//!
//! The directories are walked and each file is analyzed and loaded outside this module; this
//! module turns the outcome into handles and keeps the fonts in memory, ordered by family name.

use vstd::prelude::*;
use std::path::PathBuf;
use crate::error::{FontLoadingError, SelectionError};
use crate::file_type::FileType;
use crate::handle::{clone_path, FamilyHandle, Handle};
use crate::family::{handle_loads, Face};
use crate::matching::is_best_match;
use crate::properties::{Class, Properties};
use crate::source::{
    best_match_in_family, family_matches_nothing, family_name_for, handles_report, select_best_match_with_loader, Source,
};
use crate::names::lex_lt;
use crate::sources::mem::{
    entry_reported,
    lists_name,
    dedup, family_names, first_failure, first_with_postscript_name, fonts_named, has_family,
    lemma_fonts_named_nonempty, lemma_sorted_fonts_permute, loaded_entries, sorted_entries, FamilyEntry, MemSource,
};

verus! {

/// The handles that a file found on disk contributes: none when it is not a font, one for a
/// single font, and one per font for a collection, in order of their index.
pub open spec fn file_handles(path: PathBuf, analysis: Result<FileType, FontLoadingError>) -> Seq<Handle> {
    match analysis {
        Err(_) => Seq::empty(),
        Ok(FileType::Single) => seq![Handle::Path { path, font_index: 0 }],
        Ok(FileType::Collection(n)) => Seq::new(n as nat, |i: int| Handle::Path { path, font_index: i as u32 }),
    }
}

/// The family named `name` among `entries` gives no font to match with the loader `F`: the
/// source has no such family, or one of its fonts fails to load.
pub open spec fn fs_family_matches_nothing<F: Face>(entries: Seq<FamilyEntry>, name: Seq<char>) -> bool {
    let fonts = fonts_named(entries, name);
    fonts.len() == 0 || exists|j: int, e: FontLoadingError|
        0 <= j < fonts.len() && #[trigger] call_ensures(F::from_handle, (&fonts[j],), Err::<F, FontLoadingError>(e))
}

/// `h` is the best match for `properties` among the fonts of the family named `name` among
/// `entries`, judged by the properties that the loader `F` reported for them.
pub open spec fn fs_best_match<F: Face>(entries: Seq<FamilyEntry>, name: Seq<char>, properties: Properties, h: Handle) -> bool {
    exists|reported: Seq<Properties>, i: int|
        #[trigger] is_best_match(reported, properties, i) && handles_report::<F>(fonts_named(entries, name), reported)
            && fonts_named(entries, name)[i] == h
}

/// What looking up a `font-family` value in a file-system source gives: the fonts of the family
/// it names, which the source has exactly when some font of it is there.
proof fn lemma_fs_lookup(source: &FsSource, class: &Class, answer: Result<FamilyHandle, SelectionError>)
    requires
        call_ensures(<FsSource as Source>::select_family_by_spec, (source, class), answer),
    ensures
        answer is Ok <==> has_family(source.entries(), family_name_for(*class)),
        answer matches Ok(h) ==> h.fonts@ == fonts_named(source.entries(), family_name_for(*class)),
        answer is Err ==> fonts_named(source.entries(), family_name_for(*class)).len() == 0,
{
    let name = choose|name: &str|
        name@ == family_name_for(*class) && #[trigger] call_ensures(
            <FsSource as Source>::select_family_by_name,
            (source, name),
            answer,
        );
    assert(call_ensures(<FsSource as Source>::select_family_by_name, (source, name), answer));
    lemma_fonts_named_nonempty(source.entries(), family_name_for(*class));
}

/// The handles that the files found on disk contribute, file after file.
pub open spec fn all_file_handles(files: Seq<(PathBuf, Result<FileType, FontLoadingError>)>) -> Seq<Handle>
    decreases files.len(),
{
    if files.len() == 0 {
        Seq::empty()
    } else {
        all_file_handles(files.drop_last()) + file_handles(files.last().0, files.last().1)
    }
}

/// A file-system source indexes each font of each file found on disk once and no other: when
/// the fonts loaded are the handles of the files found, file after file, the fonts of the source
/// are those handles, ordered by family name.
pub proof fn lemma_fs_source_fonts(
    files: Seq<(PathBuf, Result<FileType, FontLoadingError>)>,
    fonts: Seq<Result<FamilyEntry, FontLoadingError>>,
)
    requires
        loaded_entries(fonts).map_values(|e: FamilyEntry| e.font) == all_file_handles(files),
    ensures
        sorted_entries(loaded_entries(fonts)).map_values(|e: FamilyEntry| e.font).to_multiset()
            == all_file_handles(files).to_multiset(),
{
    lemma_sorted_fonts_permute(loaded_entries(fonts));
}

/// A source that loads fonts from a directory or directories on disk.
///
/// This is the native source on Android.
pub struct FsSource {
    mem_source: MemSource,
}

impl FsSource {
    /// The fonts of the source, ordered by family name.
    pub closed spec fn entries(self) -> Seq<FamilyEntry> {
        self.mem_source.entries()
    }

    /// The handles of the fonts in a file found on disk, given what analyzing the file found.
    pub fn font_handles(path: &PathBuf, analysis: &Result<FileType, FontLoadingError>) -> (r: Vec<Handle>)
        ensures
            r@ == file_handles(*path, *analysis),
    {
        let mut fonts: Vec<Handle> = Vec::new();
        match analysis {
            Err(_) => {},
            Ok(FileType::Single) => {
                fonts.push(Handle::from_path(clone_path(path), 0));
                assert(fonts@ =~= file_handles(*path, *analysis));
            },
            Ok(FileType::Collection(font_count)) => {
                let font_count = *font_count;
                let mut font_index: u32 = 0;
                while font_index < font_count
                    invariant
                        0 <= font_index <= font_count,
                        fonts@ == Seq::new(font_index as nat, |i: int| Handle::Path { path: *path, font_index: i as u32 }),
                    decreases font_count - font_index,
                {
                    fonts.push(Handle::from_path(clone_path(path), font_index));
                    assert(fonts@ =~= Seq::new((font_index + 1) as nat, |i: int| Handle::Path { path: *path, font_index: i as u32 }));
                    font_index = font_index + 1;
                }
            },
        }
        assert(fonts@ =~= file_handles(*path, *analysis));
        fonts
    }

    /// Indexes the fonts found on disk, loading each with the loader `F` to learn its family and
    /// PostScript names. The first font that fails to load fails the whole source.
    pub fn load_fonts<F: Face>(handles: Vec<Handle>) -> (r: Result<FsSource, FontLoadingError>)
        ensures
            handles@.len() == 0 ==> r is Ok,
            r matches Ok(source) ==> exists|entries: Seq<FamilyEntry>|
                #[trigger] sorted_entries(entries) == source.entries() && entries.map_values(
                    |e: FamilyEntry| e.font,
                ) == handles@ && forall|k: int| 0 <= k < entries.len() ==> entry_reported::<F>(#[trigger] entries[k]),
            r matches Err(e) ==> exists|k: int|
                0 <= k < handles@.len() && #[trigger] call_ensures(F::from_handle, (&handles@[k],), Err::<F, FontLoadingError>(e))
                    && forall|j: int| 0 <= j < k ==> handle_loads::<F>(#[trigger] handles@[j]),
    {
        match MemSource::load_fonts::<F>(handles) {
            Ok(mem_source) => Ok(FsSource { mem_source }),
            Err(e) => Err(e),
        }
    }

    /// Indexes the fonts found on disk, given the outcome of loading each one, all of which
    /// must have loaded.
    pub fn from_loaded_fonts(fonts: Vec<Result<FamilyEntry, FontLoadingError>>) -> (r: FsSource)
        requires
            forall|k: int| !first_failure(fonts@, k),
        ensures
            r.entries() == sorted_entries(loaded_entries(fonts@)),
    {
        match MemSource::from_fonts(fonts) {
            Ok(mem_source) => FsSource { mem_source },
            Err(_) => {
                assert(false);
                FsSource { mem_source: MemSource::from_fonts(Vec::new()).unwrap() }
            },
        }
    }

    /// Returns paths of all fonts installed on the system.
    pub fn all_fonts(&self) -> (r: Result<Vec<Handle>, SelectionError>)
        ensures
            r matches Ok(v) && v@ == self.entries().map_values(|e: FamilyEntry| e.font),
    {
        self.mem_source.all_fonts()
    }

    /// Returns the names of all families installed on the system.
    pub fn all_families(&self) -> (r: Result<Vec<String>, SelectionError>)
        ensures
            r matches Ok(v) && v@.map_values(|s: String| s@) == dedup(family_names(self.entries())),
            r matches Ok(v) && forall|i: int, j: int|
                0 <= i < j < v@.len() ==> lex_lt((#[trigger] v@[i])@, (#[trigger] v@[j])@),
            r matches Ok(v) && forall|x: Seq<char>|
                #![trigger lists_name(v@, x)]
                #![trigger has_family(self.entries(), x)]
                lists_name(v@, x) <==> has_family(self.entries(), x),
    {
        self.mem_source.all_families()
    }

    /// Looks up a font family by name and returns the handles of all the fonts in that family.
    pub fn select_family_by_name(&self, family_name: &str) -> (r: Result<FamilyHandle, SelectionError>)
        ensures
            r is Ok <==> has_family(self.entries(), family_name@),
            r matches Err(e) ==> e == SelectionError::NotFound,
            r matches Ok(h) ==> h.fonts@ == fonts_named(self.entries(), family_name@),
    {
        self.mem_source.select_family_by_name(family_name)
    }

    /// Selects a font by PostScript name, which should be a unique identifier.
    ///
    /// This implementation does a brute-force search of installed fonts to find the one that
    /// matches.
    pub fn select_by_postscript_name(&self, postscript_name: &str) -> (r: Result<Handle, SelectionError>)
        ensures
            (exists|i: int| first_with_postscript_name(self.entries(), postscript_name@, i)) <==> r is Ok,
            r matches Err(e) ==> e == SelectionError::NotFound,
            forall|i: int| first_with_postscript_name(self.entries(), postscript_name@, i) ==> r == Ok::<Handle, SelectionError>(self.entries()[i].font),
    {
        self.mem_source.select_by_postscript_name(postscript_name)
    }
}

impl FsSource {
    /// Performs font matching according to the CSS Fonts Level 3 specification and returns the
    /// handle of the font chosen, loading fonts with the loader `F` to learn their properties:
    /// the families are tried in turn, and the best match among the fonts of the first family
    /// that the source has and whose fonts all load is chosen.
    pub fn select_best_match<F: Face>(&self, family_names: &[Class], properties: &Properties) -> (r: Result<
        Handle,
        SelectionError,
    >)
        ensures
            r matches Err(e) ==> e == SelectionError::NotFound && forall|k: int|
                0 <= k < family_names@.len() ==> fs_family_matches_nothing::<F>(
                    self.entries(),
                    family_name_for(#[trigger] family_names@[k]),
                ),
            r matches Ok(h) ==> exists|k: int|
                0 <= k < family_names@.len() && fs_best_match::<F>(
                    self.entries(),
                    family_name_for(#[trigger] family_names@[k]),
                    *properties,
                    h,
                ) && forall|j: int|
                    0 <= j < k ==> fs_family_matches_nothing::<F>(
                        self.entries(),
                        family_name_for(#[trigger] family_names@[j]),
                    ),
    {
        let r = select_best_match_with_loader::<FsSource, F>(self, family_names, properties);
        proof {
            assert forall|k: int| 0 <= k < family_names@.len() && family_matches_nothing::<FsSource, F>(self, &family_names@[k])
                implies fs_family_matches_nothing::<F>(self.entries(), family_name_for(family_names@[k])) by {
                let answer = choose|answer: Result<FamilyHandle, SelectionError>|
                    #[trigger] call_ensures(<FsSource as Source>::select_family_by_spec, (self, &family_names@[k]), answer)
                    && (answer matches Ok(handle) ==> handle.fonts@.len() == 0 || exists|j: int, e: FontLoadingError|
                        0 <= j < handle.fonts@.len() && #[trigger] call_ensures(
                            F::from_handle,
                            (&handle.fonts@[j],),
                            Err::<F, FontLoadingError>(e),
                        ));
                lemma_fs_lookup(self, &family_names@[k], answer);
            }
            if let Ok(h) = &r {
                let k = choose|k: int|
                    0 <= k < family_names@.len() && best_match_in_family::<FsSource, F>(self, &#[trigger] family_names@[k], *properties, *h)
                        && forall|j: int| 0 <= j < k ==> family_matches_nothing::<FsSource, F>(self, &#[trigger] family_names@[j]);
                let (handle, reported, i) = choose|handle: FamilyHandle, reported: Seq<Properties>, i: int|
                    #![trigger call_ensures(<FsSource as Source>::select_family_by_spec, (self, &family_names@[k]), Ok::<FamilyHandle, SelectionError>(handle)), is_best_match(reported, *properties, i)]
                    call_ensures(<FsSource as Source>::select_family_by_spec, (self, &family_names@[k]), Ok::<FamilyHandle, SelectionError>(handle))
                        && handles_report::<F>(handle.fonts@, reported) && is_best_match(reported, *properties, i)
                        && handle.fonts@[i] == *h;
                lemma_fs_lookup(self, &family_names@[k], Ok::<FamilyHandle, SelectionError>(handle));
                assert(fs_best_match::<F>(self.entries(), family_name_for(family_names@[k]), *properties, *h));
                assert forall|j: int| 0 <= j < k implies fs_family_matches_nothing::<F>(
                    self.entries(),
                    family_name_for(#[trigger] family_names@[j]),
                ) by {
                    assert(family_matches_nothing::<FsSource, F>(self, &family_names@[j]));
                }
            }
        }
        r
    }
}


impl Source for FsSource {
    fn all_fonts(&self) -> (r: Result<Vec<Handle>, SelectionError>)
        ensures
            r matches Ok(v) && v@ == self.entries().map_values(|e: FamilyEntry| e.font),
    {
        FsSource::all_fonts(self)
    }

    fn all_families(&self) -> (r: Result<Vec<String>, SelectionError>)
        ensures
            r matches Ok(v) && v@.map_values(|s: String| s@) == dedup(family_names(self.entries())),
            r matches Ok(v) && forall|i: int, j: int|
                0 <= i < j < v@.len() ==> lex_lt((#[trigger] v@[i])@, (#[trigger] v@[j])@),
            r matches Ok(v) && forall|x: Seq<char>|
                #![trigger lists_name(v@, x)]
                #![trigger has_family(self.entries(), x)]
                lists_name(v@, x) <==> has_family(self.entries(), x),
    {
        FsSource::all_families(self)
    }

    fn select_family_by_name(&self, family_name: &str) -> (r: Result<FamilyHandle, SelectionError>)
        ensures
            r is Ok <==> has_family(self.entries(), family_name@),
            r matches Err(e) ==> e == SelectionError::NotFound,
            r matches Ok(h) ==> h.fonts@ == fonts_named(self.entries(), family_name@),
    {
        FsSource::select_family_by_name(self, family_name)
    }

    fn select_by_postscript_name(&self, postscript_name: &str) -> (r: Result<Handle, SelectionError>)
        ensures
            (exists|i: int| first_with_postscript_name(self.entries(), postscript_name@, i)) <==> r is Ok,
            r matches Err(e) ==> e == SelectionError::NotFound,
            forall|i: int| first_with_postscript_name(self.entries(), postscript_name@, i) ==> r == Ok::<Handle, SelectionError>(self.entries()[i].font),
    {
        FsSource::select_by_postscript_name(self, postscript_name)
    }
}

/// What `PathBuf::from` gives for a string: the path spelled by it.
pub uninterp spec fn path_of(text: Seq<char>) -> PathBuf;

/// What `PathBuf::push` leaves when it adds a relative component to a path.
pub uninterp spec fn path_joined(base: PathBuf, component: Seq<char>) -> PathBuf;

/// Calls `<PathBuf as From<&str>>::from`, which depends on the string alone.
#[verifier::external_body]
pub(crate) fn path_from_str(text: &str) -> (r: PathBuf)
    ensures
        r == path_of(text@),
{
    PathBuf::from(text)
}

/// Calls `PathBuf::push`, whose result depends on the path and the component alone.
#[verifier::external_body]
fn push_component(path: &mut PathBuf, component: &str)
    ensures
        *final(path) == path_joined(*old(path), component@),
{
    path.push(component)
}

/// Calls `dirs::home_dir`, which reads the environment and the user database: nothing is
/// claimed of what it returns.
#[verifier::external_body]
fn home_directory() -> Option<PathBuf> {
    dirs::home_dir()
}

/// The directories in which fonts are installed on a Unix-like system: `/usr/share/fonts` and
/// `/usr/local/share/fonts`, then `.fonts` in the user's home directory when that is known.
pub open spec fn standard_font_directories(home: Option<PathBuf>) -> Seq<PathBuf> {
    let system = seq![path_of("/usr/share/fonts"@), path_of("/usr/local/share/fonts"@)];
    match home {
        Some(h) => system.push(path_joined(h, ".fonts"@)),
        None => system,
    }
}

/// The directories in which fonts are installed, given the user's home directory if known.
pub fn font_directories(home: Option<PathBuf>) -> (r: Vec<PathBuf>)
    ensures
        r@ == standard_font_directories(home),
{
    let mut directories: Vec<PathBuf> = Vec::new();
    directories.push(path_from_str("/usr/share/fonts"));
    directories.push(path_from_str("/usr/local/share/fonts"));
    match home {
        Some(mut path) => {
            push_component(&mut path, ".fonts");
            directories.push(path);
        },
        None => {},
    }
    assert(directories@ =~= standard_font_directories(home));
    directories
}

/// The directory in which fonts are installed on Android: `/system/fonts`.
pub open spec fn android_directories() -> Seq<PathBuf> {
    seq![path_of("/system/fonts"@)]
}

/// The directories in which fonts are installed on Android.
pub fn android_font_directories() -> (r: Vec<PathBuf>)
    ensures
        r@ == android_directories(),
{
    let mut directories: Vec<PathBuf> = Vec::new();
    directories.push(path_from_str("/system/fonts"));
    assert(directories@ =~= android_directories());
    directories
}

/// The directories in which fonts are installed on macOS: `/System/Library/Fonts`,
/// `/Library/Fonts` and `/Network/Library/Fonts`, then `Library/Fonts` in the user's home
/// directory when that is known.
pub open spec fn macos_directories(home: Option<PathBuf>) -> Seq<PathBuf> {
    let system = seq![
        path_of("/System/Library/Fonts"@),
        path_of("/Library/Fonts"@),
        path_of("/Network/Library/Fonts"@),
    ];
    match home {
        Some(h) => system.push(path_joined(path_joined(h, "Library"@), "Fonts"@)),
        None => system,
    }
}

/// The directories in which fonts are installed on macOS, given the user's home directory if
/// known.
pub fn macos_font_directories(home: Option<PathBuf>) -> (r: Vec<PathBuf>)
    ensures
        r@ == macos_directories(home),
{
    let mut directories: Vec<PathBuf> = Vec::new();
    directories.push(path_from_str("/System/Library/Fonts"));
    directories.push(path_from_str("/Library/Fonts"));
    directories.push(path_from_str("/Network/Library/Fonts"));
    match home {
        Some(mut path) => {
            push_component(&mut path, "Library");
            push_component(&mut path, "Fonts");
            directories.push(path);
        },
        None => {},
    }
    assert(directories@ =~= macos_directories(home));
    directories
}

/// The directory in which fonts are installed on Windows: `Fonts` in the Windows directory.
pub open spec fn windows_directories(windows_directory: PathBuf) -> Seq<PathBuf> {
    seq![path_joined(windows_directory, "Fonts"@)]
}

/// The directories in which fonts are installed on Windows, given the Windows directory.
pub fn windows_font_directories(windows_directory: PathBuf) -> (r: Vec<PathBuf>)
    ensures
        r@ == windows_directories(windows_directory),
{
    let mut path = windows_directory;
    push_component(&mut path, "Fonts");
    let mut directories: Vec<PathBuf> = Vec::new();
    directories.push(path);
    assert(directories@ =~= windows_directories(windows_directory));
    directories
}

/// The directories in which fonts are installed on this system, with the user's home directory
/// as the environment gives it.
pub fn default_font_directories() -> (r: Vec<PathBuf>)
    ensures
        exists|home: Option<PathBuf>| r@ == standard_font_directories(home),
{
    let home = home_directory();
    let r = font_directories(home);
    assert(r@ == standard_font_directories(home));
    r
}

} // verus!
