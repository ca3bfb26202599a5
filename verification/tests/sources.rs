use std::path::PathBuf;

use font_kit::error::{FontLoadingError, SelectionError};
use font_kit::file_type::FileType;
use font_kit::handle::{FamilyHandle, Handle};
use font_kit::source::Source;
use font_kit::sources::fontconfig::{all_family_names, font_locations, group_by_family, FontPattern};
use font_kit::sources::fs::{
    android_font_directories, default_font_directories, font_directories, macos_font_directories,
    windows_font_directories, FsSource,
};
use font_kit::sources::mem::{FamilyEntry, MemSource};
use font_kit::sources::multi::{gather_step, MultiSource};

fn entry(family: &str, postscript: &str, path: &str, index: u32) -> FamilyEntry {
    FamilyEntry {
        family_name: family.to_string(),
        postscript_name: postscript.to_string(),
        font: Handle::from_path(PathBuf::from(path), index),
    }
}

fn path_of(handle: &Handle) -> (String, u32) {
    match handle {
        Handle::Path { path, font_index } => (path.to_string_lossy().into_owned(), *font_index),
        Handle::Memory { .. } => panic!("expected a handle to a path"),
    }
}

#[test]
fn font_handles_of_single_font() {
    let path = PathBuf::from("/fonts/a.ttf");
    let handles = FsSource::font_handles(&path, &Ok(FileType::Single));
    assert_eq!(handles.len(), 1);
    assert_eq!(path_of(&handles[0]), ("/fonts/a.ttf".to_string(), 0));
}

#[test]
fn font_handles_of_collection() {
    let path = PathBuf::from("/fonts/b.ttc");
    let handles = FsSource::font_handles(&path, &Ok(FileType::Collection(3)));
    let indices: Vec<u32> = handles.iter().map(|h| path_of(h).1).collect();
    assert_eq!(indices, vec![0, 1, 2]);
    assert!(handles.iter().all(|h| path_of(h).0 == "/fonts/b.ttc"));
}

#[test]
fn font_handles_of_other_files() {
    let path = PathBuf::from("/fonts/readme.txt");
    assert!(FsSource::font_handles(&path, &Err(FontLoadingError::UnknownFormat)).is_empty());
    assert!(FsSource::font_handles(&path, &Ok(FileType::Collection(0))).is_empty());
}

#[test]
fn fs_source_queries() {
    let source = FsSource::from_loaded_fonts(vec![
        Ok(entry("Serif", "Serif-Bold", "/fonts/serif.ttc", 1)),
        Ok(entry("Sans", "Sans-Regular", "/fonts/sans.ttf", 0)),
        Ok(entry("Serif", "Serif-Regular", "/fonts/serif.ttc", 0)),
    ]);
    assert_eq!(source.all_families().unwrap(), vec!["Sans", "Serif"]);
    let fonts: Vec<(String, u32)> = source.all_fonts().unwrap().iter().map(path_of).collect();
    assert_eq!(
        fonts,
        vec![
            ("/fonts/sans.ttf".to_string(), 0),
            ("/fonts/serif.ttc".to_string(), 1),
            ("/fonts/serif.ttc".to_string(), 0),
        ]
    );
    let serif = source.select_family_by_name("Serif").unwrap();
    assert_eq!(serif.fonts().len(), 2);
    assert_eq!(path_of(&source.select_by_postscript_name("Serif-Regular").unwrap()).1, 0);
    assert!(matches!(source.select_by_postscript_name("Mono"), Err(SelectionError::NotFound)));
    assert!(matches!(source.select_family_by_name("Mono"), Err(SelectionError::NotFound)));
}

#[test]
fn font_directories_with_and_without_home() {
    let with_home = font_directories(Some(PathBuf::from("/home/someone")));
    assert_eq!(
        with_home,
        vec![
            PathBuf::from("/usr/share/fonts"),
            PathBuf::from("/usr/local/share/fonts"),
            PathBuf::from("/home/someone/.fonts"),
        ]
    );
    let without_home = font_directories(None);
    assert_eq!(
        without_home,
        vec![PathBuf::from("/usr/share/fonts"), PathBuf::from("/usr/local/share/fonts")]
    );
}

#[test]
fn default_font_directories_start_with_system_ones() {
    let directories = default_font_directories();
    assert!(directories.len() == 2 || directories.len() == 3);
    assert_eq!(directories[0], PathBuf::from("/usr/share/fonts"));
    assert_eq!(directories[1], PathBuf::from("/usr/local/share/fonts"));
}

/// A source that cannot be reached.
struct Broken;

impl Source for Broken {
    fn all_fonts(&self) -> Result<Vec<Handle>, SelectionError> {
        Err(SelectionError::CannotAccessSource)
    }
    fn all_families(&self) -> Result<Vec<String>, SelectionError> {
        Err(SelectionError::CannotAccessSource)
    }
    fn select_family_by_name(&self, _: &str) -> Result<FamilyHandle, SelectionError> {
        Err(SelectionError::CannotAccessSource)
    }
    fn select_by_postscript_name(&self, _: &str) -> Result<Handle, SelectionError> {
        Err(SelectionError::CannotAccessSource)
    }
}

fn mem(entries: Vec<FamilyEntry>) -> Box<dyn Source> {
    Box::new(MemSource::from_fonts(entries.into_iter().map(Ok).collect()).unwrap())
}

#[test]
fn multi_source_concatenates_sources() {
    let multi = MultiSource::from_sources(vec![
        mem(vec![entry("B", "B-1", "/b1", 0), entry("A", "A-1", "/a1", 0)]),
        mem(vec![entry("A", "A-2", "/a2", 0)]),
    ]);
    let fonts: Vec<String> = multi.all_fonts().unwrap().iter().map(|h| path_of(h).0).collect();
    assert_eq!(fonts, vec!["/a1", "/b1", "/a2"]);
    assert_eq!(multi.all_families().unwrap(), vec!["A", "B", "A"]);
}

#[test]
fn multi_source_takes_first_source_that_knows() {
    let multi = MultiSource::from_sources(vec![
        mem(vec![entry("B", "B-1", "/b1", 0)]),
        mem(vec![entry("A", "A-2", "/a2", 0), entry("B", "B-2", "/b2", 0)]),
    ]);
    let family = multi.select_family_by_name("B").unwrap();
    assert_eq!(family.fonts().len(), 1);
    assert_eq!(path_of(&family.fonts()[0]).0, "/b1");
    assert_eq!(path_of(&multi.select_by_postscript_name("A-2").unwrap()).0, "/a2");
    assert!(matches!(multi.select_by_postscript_name("C-1"), Err(SelectionError::NotFound)));
}

#[test]
fn multi_source_stops_at_an_inaccessible_source() {
    let multi = MultiSource::from_sources(vec![
        mem(vec![entry("A", "A-1", "/a1", 0)]),
        Box::new(Broken),
        mem(vec![entry("B", "B-1", "/b1", 0)]),
    ]);
    assert!(matches!(multi.all_fonts(), Err(SelectionError::CannotAccessSource)));
    assert!(matches!(multi.all_families(), Err(SelectionError::CannotAccessSource)));
    assert_eq!(path_of(&multi.select_by_postscript_name("A-1").unwrap()).0, "/a1");
    assert!(matches!(
        multi.select_by_postscript_name("B-1"),
        Err(SelectionError::CannotAccessSource)
    ));
    assert!(matches!(multi.select_family_by_name("B"), Err(SelectionError::CannotAccessSource)));
}

#[test]
fn empty_multi_source_finds_nothing() {
    let multi = MultiSource::from_sources(Vec::new());
    assert!(multi.all_fonts().unwrap().is_empty());
    assert!(matches!(multi.select_family_by_name("A"), Err(SelectionError::NotFound)));
}

#[test]
fn gather_step_appends_or_stops() {
    let mut items = vec![1, 2];
    assert_eq!(gather_step(&mut items, Ok(vec![3])), None);
    assert_eq!(items, vec![1, 2, 3]);
    assert_eq!(gather_step(&mut items, Err(SelectionError::NotFound)), Some(SelectionError::NotFound));
    assert_eq!(items, vec![1, 2, 3]);
}

fn pattern(family: Option<&str>, file: Option<&str>, index: Option<i32>) -> FontPattern {
    FontPattern {
        family: family.map(|f| f.to_string()),
        file: file.map(|f| f.to_string()),
        index,
    }
}

#[test]
fn fontconfig_family_names_are_sorted_and_unique() {
    let patterns = vec![
        pattern(Some("Noto Sans"), None, None),
        pattern(Some("DejaVu Serif"), None, None),
        pattern(None, None, None),
        pattern(Some("Noto Sans"), None, None),
        pattern(Some("DejaVu Sans"), None, None),
        pattern(Some("DejaVu"), None, None),
    ];
    assert_eq!(
        all_family_names(&patterns),
        vec!["DejaVu", "DejaVu Sans", "DejaVu Serif", "Noto Sans"]
    );
    assert!(all_family_names(&[]).is_empty());
}

#[test]
fn fontconfig_font_locations_need_file_and_index() {
    let patterns = vec![
        pattern(None, Some("/fonts/a.ttf"), Some(0)),
        pattern(None, Some("/fonts/b.ttf"), None),
        pattern(None, None, Some(1)),
        pattern(None, Some("/fonts/c.ttc"), Some(2)),
    ];
    assert_eq!(
        font_locations(&patterns),
        vec![("/fonts/a.ttf".to_string(), 0), ("/fonts/c.ttc".to_string(), 2)]
    );
}

#[test]
fn fontconfig_fonts_are_grouped_by_family() {
    let fonts = vec![
        ("Noto".to_string(), Handle::from_path(PathBuf::from("/n1"), 0)),
        ("DejaVu".to_string(), Handle::from_path(PathBuf::from("/d1"), 0)),
        ("Noto".to_string(), Handle::from_path(PathBuf::from("/n2"), 1)),
    ];
    let groups = group_by_family(&fonts);
    assert_eq!(groups.len(), 2);
    assert_eq!(groups[0].0, "Noto");
    let noto: Vec<(String, u32)> = groups[0].1.iter().map(path_of).collect();
    assert_eq!(noto, vec![("/n1".to_string(), 0), ("/n2".to_string(), 1)]);
    assert_eq!(groups[1].0, "DejaVu");
    assert_eq!(groups[1].1.len(), 1);
    assert!(group_by_family(&[]).is_empty());
}

#[test]
fn fs_source_indexes_every_font_of_every_file_once() {
    let files = vec![
        (PathBuf::from("/fonts/a.ttf"), Ok(FileType::Single)),
        (PathBuf::from("/fonts/b.ttc"), Ok(FileType::Collection(2))),
        (PathBuf::from("/fonts/notes.txt"), Err(FontLoadingError::UnknownFormat)),
    ];
    let mut handles = Vec::new();
    for (path, analysis) in &files {
        handles.extend(FsSource::font_handles(path, analysis));
    }
    let names = ["Zed", "Bee", "Bee"];
    let loaded = handles
        .into_iter()
        .zip(names.iter())
        .map(|(font, name)| {
            Ok(FamilyEntry { family_name: name.to_string(), postscript_name: name.to_string(), font })
        })
        .collect();
    let source = FsSource::from_loaded_fonts(loaded);
    let mut fonts: Vec<(String, u32)> = source.all_fonts().unwrap().iter().map(path_of).collect();
    assert_eq!(fonts[2], ("/fonts/a.ttf".to_string(), 0));
    fonts.sort();
    assert_eq!(
        fonts,
        vec![
            ("/fonts/a.ttf".to_string(), 0),
            ("/fonts/b.ttc".to_string(), 0),
            ("/fonts/b.ttc".to_string(), 1),
        ]
    );
}

#[test]
fn platform_font_directories() {
    assert_eq!(android_font_directories(), vec![PathBuf::from("/system/fonts")]);
    assert_eq!(
        macos_font_directories(Some(PathBuf::from("/Users/someone"))),
        vec![
            PathBuf::from("/System/Library/Fonts"),
            PathBuf::from("/Library/Fonts"),
            PathBuf::from("/Network/Library/Fonts"),
            PathBuf::from("/Users/someone/Library/Fonts"),
        ]
    );
    assert_eq!(macos_font_directories(None).len(), 3);
    assert_eq!(
        windows_font_directories(PathBuf::from("/windows")),
        vec![PathBuf::from("/windows/Fonts")]
    );
}
