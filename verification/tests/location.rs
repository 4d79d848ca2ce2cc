use easy_notes::location::get_default_save_path;

#[test]
fn default_store_lies_in_documents() {
    let location = get_default_save_path(Some("/home/user/Documents".to_string()));
    assert_eq!(location.parent, "/home/user/Documents");
    assert_eq!(location.folder, "EasyNotes_Data");
}

#[test]
fn default_store_without_documents_lies_under_root() {
    let location = get_default_save_path(None);
    assert_eq!(location.parent, "C:/");
    assert_eq!(location.folder, "EasyNotes_Data");
}

#[test]
fn empty_documents_directory_is_kept() {
    let location = get_default_save_path(Some(String::new()));
    assert_eq!(location.parent, "");
    assert_eq!(location.folder, "EasyNotes_Data");
}
