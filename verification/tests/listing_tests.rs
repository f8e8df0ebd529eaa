use vocab_backend::listing::{
    list_directory_contents, select_random_file, DirectoryEntryInfo,
};
use vocab_backend::AppError;

fn dir(name: &str) -> DirectoryEntryInfo {
    DirectoryEntryInfo::new(name.to_string(), true, false, Some(format!("/d/{}", name)))
}

fn file(name: &str) -> DirectoryEntryInfo {
    DirectoryEntryInfo::new(name.to_string(), false, true, Some(format!("/d/{}", name)))
}

#[test]
fn new_keeps_the_fields() {
    let e = DirectoryEntryInfo::new("a.txt".to_string(), false, true, None);
    assert_eq!(e.name, "a.txt");
    assert!(!e.is_directory);
    assert!(e.is_file);
    assert_eq!(e.full_path, None);
}

#[test]
fn directories_come_first_then_case_insensitive_names() {
    let entries = vec![
        file("b.txt"),
        dir("Zeta"),
        file("Alpha.txt"),
        dir("beta"),
    ];
    let sorted = list_directory_contents(entries);
    let names: Vec<&str> = sorted.iter().map(|e| e.name.as_str()).collect();
    assert_eq!(names, vec!["beta", "Zeta", "Alpha.txt", "b.txt"]);
    assert!(sorted[0].is_directory && sorted[1].is_directory);
    assert!(sorted[2].is_file && sorted[3].is_file);
}

#[test]
fn sorting_keeps_every_entry() {
    let entries = vec![file("x"), file("x"), dir("y")];
    let sorted = list_directory_contents(entries);
    assert_eq!(sorted.len(), 3);
    assert_eq!(sorted[0].name, "y");
    assert_eq!(sorted[1].name, "x");
    assert_eq!(sorted[2].name, "x");
}

#[test]
fn random_pick_reduces_the_draw_and_skips_directories() {
    let entries = vec![dir("d1"), file("f1"), dir("d2"), file("f2")];
    let a = select_random_file(&entries, 0).unwrap();
    assert_eq!(a.name, "f1");
    let b = select_random_file(&entries, 1).unwrap();
    assert_eq!(b.name, "f2");
    let c = select_random_file(&entries, 7).unwrap();
    assert_eq!(c.name, "f2");
}

#[test]
fn no_files_means_empty_directory() {
    let entries = vec![dir("only"), dir("dirs")];
    assert!(matches!(
        select_random_file(&entries, 3),
        Err(AppError::EmptyDirectory)
    ));
}
