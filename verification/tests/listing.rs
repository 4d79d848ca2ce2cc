use easy_notes::listing::{list_notes, DirEntry};

fn file(name: &str) -> DirEntry {
    DirEntry { name: Some(name.to_string()), is_file: true }
}

fn folder(name: &str) -> DirEntry {
    DirEntry { name: Some(name.to_string()), is_file: false }
}

fn strings(titles: &[&str]) -> Vec<String> {
    titles.iter().map(|t| t.to_string()).collect()
}

#[test]
fn unopened_directory_lists_nothing() {
    assert_eq!(list_notes(None), Vec::<String>::new());
}

#[test]
fn empty_directory_lists_nothing() {
    assert_eq!(list_notes(Some(vec![])), Vec::<String>::new());
}

#[test]
fn single_note_is_listed_by_its_stem() {
    assert_eq!(list_notes(Some(vec![file("Groceries.md")])), strings(&["Groceries"]));
}

#[test]
fn notes_are_listed_in_ascending_order() {
    let entries = vec![file("B.md"), file("A.md")];
    assert_eq!(list_notes(Some(entries)), strings(&["A", "B"]));
    let entries = vec![file("A.md"), file("B.md")];
    assert_eq!(list_notes(Some(entries)), strings(&["A", "B"]));
}

#[test]
fn longer_listing_is_sorted() {
    let entries = vec![
        file("pear.md"),
        file("apple.md"),
        file("Zebra.md"),
        file("fig.md"),
        file("apple pie.md"),
        file("10.md"),
        file("9.md"),
    ];
    assert_eq!(
        list_notes(Some(entries)),
        strings(&["10", "9", "Zebra", "apple", "apple pie", "fig", "pear"])
    );
}

#[test]
fn other_files_are_not_listed() {
    let entries = vec![
        file("notes.txt"),
        file("A.md"),
        file("picture.png"),
        file("README"),
        file("B.MD"),
        file(".md"),
        file("c.md.bak"),
    ];
    assert_eq!(list_notes(Some(entries)), strings(&["A"]));
}

#[test]
fn subdirectories_are_not_listed() {
    let entries = vec![folder("archive.md"), file("A.md"), folder("drafts")];
    assert_eq!(list_notes(Some(entries)), strings(&["A"]));
}

#[test]
fn entries_without_text_names_are_not_listed() {
    let entries = vec![DirEntry { name: None, is_file: true }, file("A.md")];
    assert_eq!(list_notes(Some(entries)), strings(&["A"]));
}

#[test]
fn listing_agrees_with_sorting_the_stems() {
    let stems: Vec<&str> = vec!["b", "a", "é", "z", "日記", "B", "A", "ab", "a b", "0", "a.b"];
    let entries: Vec<DirEntry> = stems.iter().map(|s| file(&format!("{}.md", s))).collect();
    let mut expected: Vec<String> = strings(&stems);
    expected.sort();
    assert_eq!(list_notes(Some(entries)), expected);
}

#[test]
fn listing_of_distinct_names_has_no_duplicates() {
    let entries = vec![file("A.md"), file("B.md"), file("A.txt"), folder("A")];
    let titles: Vec<String> = list_notes(Some(entries));
    assert_eq!(titles, strings(&["A", "B"]));
    for i in 1..titles.len() {
        assert!(titles[i - 1] < titles[i]);
    }
}

#[test]
fn repeated_entries_are_each_listed() {
    let entries = vec![file("A.md"), file("B.md"), file("A.md")];
    assert_eq!(list_notes(Some(entries)), strings(&["A", "A", "B"]));
}

#[test]
fn entry_title_of_note_and_of_others() {
    assert_eq!(file("A.md").title(), Some("A".to_string()));
    assert_eq!(folder("A.md").title(), None);
    assert_eq!(file("A.txt").title(), None);
    assert_eq!(DirEntry { name: None, is_file: true }.title(), None);
}
