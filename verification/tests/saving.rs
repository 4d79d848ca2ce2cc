use easy_notes::saving::{save_note, save_note_created, save_note_written, saved_message, SaveStep};

#[test]
fn save_into_existing_directory_writes_at_once() {
    match save_note(true, "Groceries") {
        SaveStep::WriteFile { file_name } => assert_eq!(file_name, "Groceries.md"),
        other => panic!("unexpected step {:?}", other),
    }
}

#[test]
fn save_into_missing_directory_creates_it_first() {
    assert!(matches!(save_note(false, "Groceries"), SaveStep::CreateDirectory));
}

#[test]
fn created_directory_is_written_to() {
    assert_eq!(save_note_created(Ok(()), "A"), Ok("A.md".to_string()));
}

#[test]
fn failed_creation_ends_the_save() {
    assert_eq!(
        save_note_created(Err("permission denied".to_string()), "A"),
        Err("permission denied".to_string())
    );
}

#[test]
fn written_note_is_confirmed_by_title() {
    assert_eq!(save_note_written(Ok(()), "Groceries"), Ok("成功保存: Groceries".to_string()));
}

#[test]
fn failed_write_is_reported() {
    assert_eq!(
        save_note_written(Err("disk full".to_string()), "Groceries"),
        Err("disk full".to_string())
    );
}

#[test]
fn message_names_the_title() {
    assert_eq!(saved_message("A"), "成功保存: A");
    assert_eq!(saved_message(""), "成功保存: ");
    assert!(saved_message("Groceries").contains("Groceries"));
    assert!(saved_message("日記").ends_with("日記"));
}
