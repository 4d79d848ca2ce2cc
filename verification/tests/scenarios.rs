use easy_notes::listing::{list_notes, DirEntry};
use easy_notes::names::note_file_name;
use easy_notes::saving::{save_note, save_note_created, save_note_written, SaveStep};

/// A directory kept in memory, standing in for the file system.
struct Shelf {
    exists: bool,
    files: Vec<(String, String)>,
    folders: Vec<String>,
}

impl Shelf {
    fn missing() -> Shelf {
        Shelf { exists: false, files: Vec::new(), folders: Vec::new() }
    }

    fn write(&mut self, name: &str, content: &str) {
        for slot in self.files.iter_mut() {
            if slot.0 == name {
                slot.1 = content.to_string();
                return;
            }
        }
        self.files.push((name.to_string(), content.to_string()));
    }

    fn entries(&self) -> Option<Vec<DirEntry>> {
        if !self.exists {
            return None;
        }
        let mut entries: Vec<DirEntry> = Vec::new();
        for (name, _) in &self.files {
            entries.push(DirEntry { name: Some(name.clone()), is_file: true });
        }
        for name in &self.folders {
            entries.push(DirEntry { name: Some(name.clone()), is_file: false });
        }
        Some(entries)
    }

    fn save(&mut self, title: &str, content: &str) -> Result<String, String> {
        let file_name: String = match save_note(self.exists, title) {
            SaveStep::WriteFile { file_name } => file_name,
            SaveStep::CreateDirectory => {
                self.exists = true;
                save_note_created(Ok(()), title)?
            }
        };
        self.write(&file_name, content);
        save_note_written(Ok(()), title)
    }

    fn read(&self, title: &str) -> Result<String, String> {
        let name: String = note_file_name(title);
        for (file, content) in &self.files {
            if *file == name {
                return Ok(content.clone());
            }
        }
        Err("No such file or directory (os error 2)".to_string())
    }

    fn list(&self) -> Vec<String> {
        list_notes(self.entries())
    }
}

#[test]
fn groceries_are_saved_listed_and_read() {
    let mut store = Shelf::missing();
    let message = store.save("Groceries", "milk, eggs").unwrap();
    assert!(message.contains("Groceries"));
    assert_eq!(store.list(), vec!["Groceries".to_string()]);
    assert_eq!(store.read("Groceries"), Ok("milk, eggs".to_string()));
}

#[test]
fn two_notes_are_listed_in_order() {
    let mut store = Shelf::missing();
    store.save("A", "1").unwrap();
    store.save("B", "2").unwrap();
    assert_eq!(store.list(), vec!["A".to_string(), "B".to_string()]);
}

#[test]
fn listing_order_does_not_depend_on_save_order() {
    let mut store = Shelf::missing();
    store.save("B", "2").unwrap();
    store.save("A", "1").unwrap();
    assert_eq!(store.list(), vec!["A".to_string(), "B".to_string()]);
}

#[test]
fn saved_content_is_read_back() {
    let mut store = Shelf::missing();
    let contents: Vec<&str> = vec!["", "one line", "two\nlines\n", "日記 😀", "# heading\n\ntext"];
    for content in contents {
        store.save("note", content).unwrap();
        assert_eq!(store.read("note"), Ok(content.to_string()));
    }
}

#[test]
fn second_save_replaces_the_first() {
    let mut store = Shelf::missing();
    store.save("A", "first").unwrap();
    store.save("A", "second").unwrap();
    assert_eq!(store.read("A"), Ok("second".to_string()));
    assert_eq!(store.list(), vec!["A".to_string()]);
    assert_eq!(store.files.len(), 1);
}

#[test]
fn saving_one_note_leaves_the_other() {
    let mut store = Shelf::missing();
    store.save("A", "1").unwrap();
    store.save("B", "2").unwrap();
    assert_eq!(store.read("A"), Ok("1".to_string()));
    assert_eq!(store.read("B"), Ok("2".to_string()));
}

#[test]
fn missing_directory_lists_nothing() {
    let store = Shelf::missing();
    assert_eq!(store.list(), Vec::<String>::new());
}

#[test]
fn missing_note_is_an_error_and_creates_nothing() {
    let mut store = Shelf::missing();
    store.save("A", "1").unwrap();
    assert!(store.read("B").is_err());
    assert_eq!(store.files.len(), 1);
    assert_eq!(store.list(), vec!["A".to_string()]);
}

#[test]
fn listing_skips_what_is_no_note() {
    let mut store = Shelf::missing();
    store.save("A", "1").unwrap();
    store.write("notes.txt", "plain");
    store.write("image.png", "");
    store.folders.push("drafts".to_string());
    store.folders.push("old.md".to_string());
    assert_eq!(store.list(), vec!["A".to_string()]);
}

#[test]
fn note_with_empty_title_is_saved_but_not_listed() {
    let mut store = Shelf::missing();
    store.save("", "text").unwrap();
    assert_eq!(store.read(""), Ok("text".to_string()));
    assert_eq!(store.list(), Vec::<String>::new());
}

#[test]
fn first_save_creates_the_directory() {
    let mut store = Shelf::missing();
    assert!(store.entries().is_none());
    store.save("A", "1").unwrap();
    assert!(store.exists);
}
