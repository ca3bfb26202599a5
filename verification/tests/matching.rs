use std::path::PathBuf;
use std::sync::Arc;

use font_kit::error::{FontLoadingError, SelectionError};
use font_kit::family::{Face, Family};
use font_kit::handle::{FamilyHandle, Handle};
use font_kit::matching::find_best_match;
use font_kit::properties::{Class, Properties, Stretch, Style, Weight};
use font_kit::source::{
    find_with_loader, select_best_match_with_loader, select_by_postscript_name_with_loader, Source,
};
use font_kit::sources::fontconfig::load_located_fonts;
use font_kit::sources::fs::FsSource;
use font_kit::sources::mem::{FamilyEntry, MemSource};
use font_kit::sources::multi::MultiSource;

fn props(style: Style, weight: u32, stretch: u32) -> Properties {
    Properties { style, weight: Weight(weight), stretch: Stretch(stretch) }
}

fn normal(weight: u32) -> Properties {
    props(Style::Normal, weight, 1000)
}

#[derive(Clone, Debug, PartialEq)]
struct TestFace {
    name: &'static str,
    properties: Properties,
}

/// Faces known by path: the file name says the name and the properties of the face.
fn face_at(path: &str) -> Result<TestFace, FontLoadingError> {
    match path {
        "/sans/regular" => Ok(TestFace { name: "Sans-Regular", properties: normal(400) }),
        "/sans/bold" => Ok(TestFace { name: "Sans-Bold", properties: normal(700) }),
        "/sans/italic" => Ok(TestFace { name: "Sans-Italic", properties: props(Style::Italic, 400, 1000) }),
        "/serif/regular" => Ok(TestFace { name: "Serif-Regular", properties: normal(400) }),
        _ => Err(FontLoadingError::Parse),
    }
}

impl Face for TestFace {
    fn from_bytes(font_data: Arc<Vec<u8>>, font_index: u32) -> Result<Self, FontLoadingError> {
        if font_data.is_empty() {
            Err(FontLoadingError::UnknownFormat)
        } else if font_index > 0 {
            Err(FontLoadingError::NoSuchFontInCollection)
        } else {
            Ok(TestFace { name: "Memory", properties: normal(400) })
        }
    }

    fn from_path(path: &PathBuf, _font_index: u32) -> Result<Self, FontLoadingError> {
        face_at(path.to_str().unwrap())
    }

    fn postscript_name(&self) -> String {
        self.name.to_string()
    }

    fn family_name(&self) -> String {
        self.name.split('-').next().unwrap().to_string()
    }

    fn properties(&self) -> Properties {
        self.properties
    }
}

#[test]
fn no_candidates_is_an_error() {
    assert_eq!(find_best_match(&[], &Properties::new()), Err(()));
}

#[test]
fn exact_match_wins() {
    let faces = [normal(700), normal(400), props(Style::Italic, 400, 1000)];
    assert_eq!(find_best_match(&faces, &Properties::new()), Ok(1));
    let mut query = Properties::new();
    query.style(Style::Italic);
    assert_eq!(find_best_match(&faces, &query), Ok(2));
}

#[test]
fn first_of_equal_faces_is_chosen() {
    let faces = [normal(300), normal(400), normal(400)];
    assert_eq!(find_best_match(&faces, &Properties::new()), Ok(1));
}

#[test]
fn normal_stretch_prefers_narrower() {
    let faces = [props(Style::Normal, 400, 1250), props(Style::Normal, 400, 750)];
    assert_eq!(find_best_match(&faces, &Properties::new()), Ok(1));
}

#[test]
fn condensed_stretch_falls_back_to_closest_wider() {
    let faces = [props(Style::Normal, 400, 1500), props(Style::Normal, 400, 1000)];
    let mut query = Properties::new();
    query.stretch(Stretch::condensed());
    assert_eq!(find_best_match(&faces, &query), Ok(1));
}

#[test]
fn expanded_stretch_prefers_wider() {
    let faces = [props(Style::Normal, 400, 1000), props(Style::Normal, 400, 1500)];
    let mut query = Properties::new();
    query.stretch(Stretch::expanded());
    assert_eq!(find_best_match(&faces, &query), Ok(1));
}

#[test]
fn expanded_stretch_falls_back_to_closest_narrower() {
    let faces = [props(Style::Normal, 400, 500), props(Style::Normal, 400, 875)];
    let mut query = Properties::new();
    query.stretch(Stretch::expanded());
    assert_eq!(find_best_match(&faces, &query), Ok(1));
}

#[test]
fn style_preference_order() {
    let normal_and_oblique = [props(Style::Normal, 400, 1000), props(Style::Oblique, 400, 1000)];
    let mut italic = Properties::new();
    italic.style(Style::Italic);
    assert_eq!(find_best_match(&normal_and_oblique, &italic), Ok(1));

    let normal_and_italic = [props(Style::Normal, 400, 1000), props(Style::Italic, 400, 1000)];
    let mut oblique = Properties::new();
    oblique.style(Style::Oblique);
    assert_eq!(find_best_match(&normal_and_italic, &oblique), Ok(1));

    let italic_and_oblique = [props(Style::Italic, 400, 1000), props(Style::Oblique, 400, 1000)];
    assert_eq!(find_best_match(&italic_and_oblique, &Properties::new()), Ok(1));
}

#[test]
fn stretch_is_decided_before_style() {
    // The italic face has the wrong stretch, so the normal face of the right stretch wins.
    let faces = [props(Style::Italic, 400, 1250), props(Style::Normal, 400, 1000)];
    let mut query = Properties::new();
    query.style(Style::Italic);
    assert_eq!(find_best_match(&faces, &query), Ok(1));
}

#[test]
fn weight_400_tries_500_first() {
    let faces = [normal(300), normal(500)];
    assert_eq!(find_best_match(&faces, &Properties::new()), Ok(1));
}

#[test]
fn weight_500_tries_400_first() {
    let faces = [normal(600), normal(400)];
    let mut query = Properties::new();
    query.weight(Weight::medium());
    assert_eq!(find_best_match(&faces, &query), Ok(1));
}

#[test]
fn light_weight_prefers_lighter_then_closest_heavier() {
    let faces = [normal(600), normal(200), normal(100)];
    let mut query = Properties::new();
    query.weight(Weight::light());
    assert_eq!(find_best_match(&faces, &query), Ok(1));
    let heavier = [normal(700), normal(600)];
    assert_eq!(find_best_match(&heavier, &query), Ok(1));
}

#[test]
fn bold_weight_prefers_heavier_then_closest_lighter() {
    let faces = [normal(600), normal(900), normal(800)];
    let mut query = Properties::new();
    query.weight(Weight::bold());
    assert_eq!(find_best_match(&faces, &query), Ok(2));
    let lighter = [normal(300), normal(500)];
    assert_eq!(find_best_match(&lighter, &query), Ok(1));
}

#[test]
fn family_find_returns_best_face() {
    let mut family: Family<TestFace> = Family::new();
    assert!(family.is_empty());
    assert_eq!(family.find(&Properties::new()), Err(()));
    family.push(TestFace { name: "Regular", properties: normal(400) });
    family.push(TestFace { name: "Bold", properties: normal(700) });
    family.push(TestFace { name: "Italic", properties: props(Style::Italic, 400, 1000) });
    assert!(!family.is_empty());
    assert_eq!(family.fonts().len(), 3);

    assert_eq!(family.find(&Properties::new()).unwrap().name, "Regular");
    let mut bold = Properties::new();
    bold.weight(Weight::bold());
    assert_eq!(family.find(&bold).unwrap().name, "Bold");
    let mut italic = Properties::new();
    italic.style(Style::Italic);
    assert_eq!(family.find(&italic).unwrap().name, "Italic");
    let mut bold_italic = Properties::new();
    bold_italic.style(Style::Italic).weight(Weight::bold());
    assert_eq!(family.find(&bold_italic).unwrap().name, "Italic");
}

#[test]
fn family_from_font_and_fonts() {
    let one = Family::from_font(TestFace { name: "Only", properties: normal(400) });
    assert_eq!(one.fonts().len(), 1);
    let mut query = Properties::new();
    query.weight(Weight::black()).stretch(Stretch::ultra_expanded()).style(Style::Oblique);
    assert_eq!(one.find(&query).unwrap().name, "Only");

    let two = Family::from_fonts(vec![
        TestFace { name: "A", properties: normal(400) },
        TestFace { name: "B", properties: normal(400) },
    ]);
    assert_eq!(two.fonts()[1].name, "B");
    assert_eq!(two.find(&Properties::new()).unwrap().name, "A");
}

fn entry(family: &str, postscript: &str, path: &str) -> FamilyEntry {
    FamilyEntry {
        family_name: family.to_string(),
        postscript_name: postscript.to_string(),
        font: Handle::from_path(PathBuf::from(path), 0),
    }
}

fn system() -> MemSource {
    MemSource::from_fonts(vec![
        Ok(entry("Broken", "Broken-Regular", "/broken")),
        Ok(entry("Arial", "Sans-Regular", "/sans/regular")),
        Ok(entry("Arial", "Sans-Bold", "/sans/bold")),
        Ok(entry("Arial", "Sans-Italic", "/sans/italic")),
        Ok(entry("Times New Roman", "Serif-Regular", "/serif/regular")),
    ])
    .unwrap()
}

#[test]
fn face_from_handle_loads_by_kind() {
    let face = TestFace::from_handle(&Handle::from_path(PathBuf::from("/sans/bold"), 0)).unwrap();
    assert_eq!(face.name, "Sans-Bold");
    let face = TestFace::from_handle(&Handle::from_memory(Arc::new(vec![1]), 0)).unwrap();
    assert_eq!(face.name, "Memory");
    assert!(matches!(
        TestFace::from_handle(&Handle::from_memory(Arc::new(vec![1]), 1)),
        Err(FontLoadingError::NoSuchFontInCollection)
    ));
}

#[test]
fn family_from_handle_loads_each_font() {
    let handle = FamilyHandle::from_font_handles(vec![
        Handle::from_path(PathBuf::from("/sans/regular"), 0),
        Handle::from_path(PathBuf::from("/sans/bold"), 0),
    ]);
    let family: Family<TestFace> = Family::from_handle(&handle).unwrap();
    assert_eq!(family.fonts()[1].name, "Sans-Bold");
    let broken = FamilyHandle::from_font_handles(vec![
        Handle::from_path(PathBuf::from("/sans/regular"), 0),
        Handle::from_path(PathBuf::from("/missing"), 0),
    ]);
    assert!(matches!(Family::<TestFace>::from_handle(&broken), Err(FontLoadingError::Parse)));
}

#[test]
fn lookup_single_regular_font_in_memory() {
    let font: TestFace = find_with_loader(&system(), &[Class::SansSerif], &Properties::new()).unwrap();
    assert_eq!(font.name, "Sans-Regular");
}

#[test]
fn lookup_single_bold_font_in_memory() {
    let mut query = Properties::new();
    query.weight(Weight::bold());
    let font: TestFace = find_with_loader(&system(), &[Class::SansSerif], &query).unwrap();
    assert_eq!(font.name, "Sans-Bold");
}

#[test]
fn lookup_single_italic_font_in_memory() {
    let mut query = Properties::new();
    query.style(Style::Italic);
    let font: TestFace = find_with_loader(&system(), &[Class::SansSerif], &query).unwrap();
    assert_eq!(font.name, "Sans-Italic");
}

#[test]
fn find_passes_over_missing_and_broken_families() {
    let families = [
        Class::Name("Helvetica".to_string()),
        Class::Name("Broken".to_string()),
        Class::Serif,
    ];
    let font: TestFace = find_with_loader(&system(), &families, &Properties::new()).unwrap();
    assert_eq!(font.name, "Serif-Regular");
    let none: Result<TestFace, SelectionError> = find_with_loader(&system(), &[Class::Fantasy], &Properties::new());
    assert!(matches!(none, Err(SelectionError::NotFound)));
    let empty: Result<TestFace, SelectionError> = find_with_loader(&system(), &[], &Properties::new());
    assert!(matches!(empty, Err(SelectionError::NotFound)));
}

#[test]
fn select_by_postscript_name_by_loading_fonts() {
    let handle = select_by_postscript_name_with_loader::<_, TestFace>(&system(), "Sans-Italic").unwrap();
    match handle {
        Handle::Path { path, font_index } => {
            assert_eq!(path, PathBuf::from("/sans/italic"));
            assert_eq!(font_index, 0);
        }
        Handle::Memory { .. } => panic!("expected a path handle"),
    }
    assert!(matches!(
        select_by_postscript_name_with_loader::<_, TestFace>(&system(), "zxhjfgkadsfhg"),
        Err(SelectionError::NotFound)
    ));
}

#[test]
fn mem_source_loads_fonts_to_learn_their_names() {
    let handles = vec![
        Handle::from_path(PathBuf::from("/serif/regular"), 0),
        Handle::from_path(PathBuf::from("/sans/bold"), 0),
        Handle::from_path(PathBuf::from("/sans/regular"), 0),
    ];
    let source = MemSource::load_fonts::<TestFace>(handles).unwrap();
    assert_eq!(source.all_families().unwrap(), vec!["Sans", "Serif"]);
    let sans = source.select_family_by_name("Sans").unwrap();
    let paths: Vec<PathBuf> = sans
        .fonts()
        .iter()
        .map(|h| match h {
            Handle::Path { path, .. } => path.clone(),
            Handle::Memory { .. } => panic!("expected a path handle"),
        })
        .collect();
    assert_eq!(paths, vec![PathBuf::from("/sans/bold"), PathBuf::from("/sans/regular")]);
    assert!(source.select_by_postscript_name("Serif-Regular").is_ok());
}

#[test]
fn mem_source_load_fails_on_first_unloadable_font() {
    let handles = vec![
        Handle::from_path(PathBuf::from("/sans/bold"), 0),
        Handle::from_memory(Arc::new(Vec::new()), 0),
        Handle::from_path(PathBuf::from("/missing"), 0),
    ];
    assert!(matches!(
        MemSource::load_fonts::<TestFace>(handles),
        Err(FontLoadingError::UnknownFormat)
    ));
    assert!(MemSource::load_fonts::<TestFace>(Vec::new()).unwrap().all_fonts().unwrap().is_empty());
}

fn path_of(handle: &Handle) -> PathBuf {
    match handle {
        Handle::Path { path, .. } => path.clone(),
        Handle::Memory { .. } => panic!("expected a path handle"),
    }
}

fn fs_system() -> FsSource {
    FsSource::from_loaded_fonts(vec![
        Ok(entry("Arial", "Sans-Bold", "/sans/bold")),
        Ok(entry("Arial", "Sans-Regular", "/sans/regular")),
        Ok(entry("Times New Roman", "Serif-Regular", "/serif/regular")),
    ])
}

#[test]
fn select_best_match_sans_serif_in_memory() {
    let handle = fs_system().select_best_match::<TestFace>(&[Class::SansSerif], &Properties::default()).unwrap();
    assert_eq!(path_of(&handle), PathBuf::from("/sans/regular"));
}

#[test]
fn select_best_match_bold_sans_serif_in_memory() {
    let mut query = Properties::new();
    query.weight(Weight::bold());
    let handle = fs_system().select_best_match::<TestFace>(&[Class::SansSerif], &query).unwrap();
    assert_eq!(path_of(&handle), PathBuf::from("/sans/bold"));
}

#[test]
fn select_best_match_by_name_after_invalid_in_memory() {
    let families = [Class::Name("Invalid".to_string()), Class::Name("Times New Roman".to_string())];
    let handle = fs_system().select_best_match::<TestFace>(&families, &Properties::default()).unwrap();
    assert_eq!(path_of(&handle), PathBuf::from("/serif/regular"));
    assert!(matches!(
        fs_system().select_best_match::<TestFace>(&[Class::Monospace], &Properties::default()),
        Err(SelectionError::NotFound)
    ));
}

#[test]
fn multi_source_select_best_match() {
    let first: Box<dyn Source> = Box::new(MemSource::from_fonts(vec![Ok(entry("Times New Roman", "Serif-Regular", "/serif/regular"))]).unwrap());
    let second: Box<dyn Source> = Box::new(system());
    let multi = MultiSource::from_sources(vec![first, second]);
    let mut query = Properties::new();
    query.style(Style::Italic);
    let handle = multi.select_best_match::<TestFace>(&[Class::SansSerif], &query).unwrap();
    assert_eq!(path_of(&handle), PathBuf::from("/sans/italic"));
    let handle = select_best_match_with_loader::<MultiSource, TestFace>(&multi, &[Class::Serif], &query).unwrap();
    assert_eq!(path_of(&handle), PathBuf::from("/serif/regular"));
}

#[test]
fn located_fonts_that_fail_to_load_are_passed_over() {
    let locations = vec![
        ("/sans/bold".to_string(), 0u32),
        ("/missing".to_string(), 0),
        ("/sans/regular".to_string(), 0),
    ];
    let family: Family<TestFace> = load_located_fonts(&locations);
    let names: Vec<&str> = family.fonts().iter().map(|f| f.name).collect();
    assert_eq!(names, vec!["Sans-Bold", "Sans-Regular"]);
}

#[test]
fn fs_source_loads_fonts_to_learn_their_names() {
    let handles = vec![
        Handle::from_path(PathBuf::from("/sans/regular"), 0),
        Handle::from_path(PathBuf::from("/serif/regular"), 0),
    ];
    let source = FsSource::load_fonts::<TestFace>(handles).unwrap();
    assert_eq!(source.all_families().unwrap(), vec!["Sans", "Serif"]);
    assert!(source.select_by_postscript_name("Serif-Regular").is_ok());
    assert!(matches!(
        source.select_by_postscript_name("zxhjfgkadsfhg"),
        Err(SelectionError::NotFound)
    ));
    let broken = vec![Handle::from_path(PathBuf::from("/missing"), 0)];
    assert!(matches!(FsSource::load_fonts::<TestFace>(broken), Err(FontLoadingError::Parse)));
}
