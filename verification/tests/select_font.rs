use std::path::PathBuf;
use std::sync::Arc;

use font_kit::error::{FontLoadingError, SelectionError};
use font_kit::handle::Handle;
use font_kit::properties::Class;
use font_kit::source::{generic_family_name, Source};
use font_kit::sources::fs::FsSource;
use font_kit::sources::mem::{FamilyEntry, MemSource};

fn entry(family: &str, postscript: &str, path: &str) -> FamilyEntry {
    FamilyEntry {
        family_name: family.to_string(),
        postscript_name: postscript.to_string(),
        font: Handle::from_path(PathBuf::from(path), 0),
    }
}

fn path_of(handle: &Handle) -> (String, u32) {
    match handle {
        Handle::Path { path, font_index } => (path.to_string_lossy().into_owned(), *font_index),
        Handle::Memory { .. } => panic!("expected a handle to a path"),
    }
}

fn sample_source() -> MemSource {
    MemSource::from_fonts(vec![
        Ok(entry("Times New Roman", "TimesNewRomanPSMT", "/fonts/times.ttf")),
        Ok(entry("DejaVu Sans", "DejaVuSans-Bold", "/fonts/dejavu-bold.ttf")),
        Ok(entry("Arial", "ArialMT", "/fonts/arial.ttf")),
        Ok(entry("DejaVu Sans", "DejaVuSans", "/fonts/dejavu.ttf")),
        Ok(entry("Arial", "Arial-BoldMT", "/fonts/arial-bold.ttf")),
    ])
    .unwrap()
}

#[test]
fn fail_to_lookup_font_by_postscript_name() {
    match sample_source().select_by_postscript_name("zxhjfgkadsfhg") {
        Err(SelectionError::NotFound) => {}
        other => panic!("unexpected error: {:?}", other),
    }
}

#[test]
fn mem_source_finds_font_by_postscript_name() {
    let handle = sample_source().select_by_postscript_name("DejaVuSans").unwrap();
    assert_eq!(path_of(&handle), ("/fonts/dejavu.ttf".to_string(), 0));
}

#[test]
fn mem_source_lists_fonts_sorted_by_family_stably() {
    let fonts = sample_source().all_fonts().unwrap();
    let paths: Vec<String> = fonts.iter().map(|h| path_of(h).0).collect();
    assert_eq!(
        paths,
        vec![
            "/fonts/arial.ttf",
            "/fonts/arial-bold.ttf",
            "/fonts/dejavu-bold.ttf",
            "/fonts/dejavu.ttf",
            "/fonts/times.ttf",
        ]
    );
}

#[test]
fn mem_source_lists_each_family_once() {
    let families = sample_source().all_families().unwrap();
    assert_eq!(families, vec!["Arial", "DejaVu Sans", "Times New Roman"]);
}

#[test]
fn mem_source_selects_whole_family() {
    let family = sample_source().select_family_by_name("Arial").unwrap();
    let paths: Vec<String> = family.fonts().iter().map(|h| path_of(h).0).collect();
    assert_eq!(paths, vec!["/fonts/arial.ttf", "/fonts/arial-bold.ttf"]);
}

#[test]
fn mem_source_unknown_family_is_not_found() {
    match sample_source().select_family_by_name("Helvetica") {
        Err(SelectionError::NotFound) => {}
        other => panic!("unexpected result: {:?}", other),
    }
}

#[test]
fn mem_source_family_names_are_case_sensitive() {
    assert!(sample_source().select_family_by_name("arial").is_err());
}

#[test]
fn mem_source_reports_first_loading_error() {
    let result = MemSource::from_fonts(vec![
        Ok(entry("Arial", "ArialMT", "/fonts/arial.ttf")),
        Err(FontLoadingError::Parse),
        Err(FontLoadingError::UnknownFormat),
    ]);
    match result {
        Err(FontLoadingError::Parse) => {}
        Err(other) => panic!("unexpected error: {:?}", other),
        Ok(_) => panic!("loading should have failed"),
    }
}

#[test]
fn empty_mem_source_has_nothing() {
    let source = MemSource::from_fonts(Vec::new()).unwrap();
    assert!(source.all_fonts().unwrap().is_empty());
    assert!(source.all_families().unwrap().is_empty());
    assert!(source.select_by_postscript_name("ArialMT").is_err());
}

#[test]
fn mem_source_keeps_memory_handles() {
    let bytes = Arc::new(vec![1u8, 2, 3]);
    let source = MemSource::from_fonts(vec![Ok(FamilyEntry {
        family_name: "Mem".to_string(),
        postscript_name: "Mem-Regular".to_string(),
        font: Handle::from_memory(bytes.clone(), 2),
    })])
    .unwrap();
    match source.select_by_postscript_name("Mem-Regular").unwrap() {
        Handle::Memory { bytes: found, font_index } => {
            assert!(Arc::ptr_eq(&found, &bytes));
            assert_eq!(font_index, 2);
        }
        Handle::Path { .. } => panic!("expected a handle to memory"),
    }
}

#[test]
fn generic_families_map_to_default_names() {
    assert_eq!(generic_family_name(&Class::Serif), "Times New Roman");
    assert_eq!(generic_family_name(&Class::SansSerif), "Arial");
    assert_eq!(generic_family_name(&Class::Monospace), "Courier New");
    assert_eq!(generic_family_name(&Class::Cursive), "Comic Sans MS");
    assert_eq!(generic_family_name(&Class::Fantasy), "Papyrus");
    assert_eq!(generic_family_name(&Class::Name("Inconsolata".to_string())), "Inconsolata");
}

#[test]
fn select_family_by_spec_uses_generic_defaults() {
    let source = sample_source();
    let family = source.select_family_by_spec(&Class::SansSerif).unwrap();
    assert_eq!(family.fonts().len(), 2);
    let family = source.select_family_by_spec(&Class::Serif).unwrap();
    assert_eq!(path_of(&family.fonts()[0]).0, "/fonts/times.ttf");
    assert!(source.select_family_by_spec(&Class::Fantasy).is_err());
    let family = source.select_family_by_spec(&Class::Name("DejaVu Sans".to_string())).unwrap();
    assert_eq!(family.fonts().len(), 2);
}

#[test]
fn every_listed_family_can_be_selected() {
    let source = sample_source();
    for family in source.all_families().unwrap() {
        let handle = source.select_family_by_name(&family).unwrap();
        assert!(!handle.is_empty());
    }
}

#[test]
fn shorter_family_name_sorts_first() {
    let source = MemSource::from_fonts(vec![
        Ok(entry("Arial", "ArialMT", "/fonts/arial.ttf")),
        Ok(entry("Ari", "Ari", "/fonts/ari.ttf")),
        Ok(entry("B", "B", "/fonts/b.ttf")),
    ])
    .unwrap();
    assert_eq!(source.all_families().unwrap(), vec!["Ari", "Arial", "B"]);
}

#[test]
fn fail_to_lookup_font_by_postscript_name_in_fs_source() {
    let source = FsSource::from_loaded_fonts(vec![
        Ok(entry("DejaVu Sans", "DejaVuSans", "/usr/share/fonts/dejavu/DejaVuSans.ttf")),
        Ok(entry("DejaVu Sans", "DejaVuSans-Bold", "/usr/share/fonts/dejavu/DejaVuSans-Bold.ttf")),
    ]);
    match source.select_by_postscript_name("zxhjfgkadsfhg") {
        Err(SelectionError::NotFound) => {}
        other => panic!("unexpected error: {:?}", other),
    }
}
