use std::path::PathBuf;
use std::sync::Arc;

use font_kit::handle::{FamilyHandle, Handle};

#[test]
fn handle_clone_keeps_path_and_index() {
    let handle = Handle::from_path(PathBuf::from("/fonts/a.ttc"), 3);
    match handle.clone() {
        Handle::Path { path, font_index } => {
            assert_eq!(path, PathBuf::from("/fonts/a.ttc"));
            assert_eq!(font_index, 3);
        }
        Handle::Memory { .. } => panic!("expected a path handle"),
    }
}

#[test]
fn handle_clone_shares_bytes() {
    let bytes = Arc::new(vec![0u8, 1, 2]);
    let handle = Handle::from_memory(bytes.clone(), 1);
    match handle.clone() {
        Handle::Memory { bytes: b, font_index } => {
            assert!(Arc::ptr_eq(&b, &bytes));
            assert_eq!(font_index, 1);
        }
        Handle::Path { .. } => panic!("expected a memory handle"),
    }
}

#[test]
fn family_handle_collects_fonts() {
    let mut family = FamilyHandle::new();
    assert!(family.is_empty());
    family.push(Handle::from_path(PathBuf::from("/a"), 0));
    family.push(Handle::from_path(PathBuf::from("/b"), 0));
    assert!(!family.is_empty());
    assert_eq!(family.fonts().len(), 2);
    let other = FamilyHandle::from_font_handles(vec![Handle::from_path(PathBuf::from("/c"), 1)]);
    assert_eq!(other.fonts().len(), 1);
}
