use nodo::target::{with_md_extension, Target};
use nodo::user::{dir_name_string, file_name_string};
use nodo::utils::is_hidden_dir;

#[test]
fn archive_dir_is_hidden() {
    assert!(is_hidden_dir("archive"));
    assert!(!is_hidden_dir("notes"));
    assert!(!is_hidden_dir(""));
}

#[test]
fn build_path_adds_extension_for_new_notes() {
    let t = Target::new(String::from("ideas"));
    assert_eq!(t.build_path("/data/nodo", false), "/data/nodo/ideas.md");
}

#[test]
fn build_path_keeps_existing_entries_as_given() {
    let t = Target::new(String::from("ideas"));
    assert_eq!(t.build_path("/data/nodo", true), "/data/nodo/ideas");
}

#[test]
fn build_path_respects_an_extension() {
    let t = Target::new(String::from("ideas.md"));
    assert_eq!(t.build_path("/data/nodo", false), "/data/nodo/ideas.md");
}

#[test]
fn extension_looks_at_last_component_only() {
    assert_eq!(with_md_extension("a.b/c"), "a.b/c.md");
    assert_eq!(with_md_extension("a/.hidden"), "a/.hidden.md");
    assert_eq!(with_md_extension("a/b.txt"), "a/b.txt");
}

#[test]
fn shown_names_keep_their_length() {
    assert!(dir_name_string("work").len() >= 4);
    assert!(file_name_string("note.md").len() >= 7);
}
