use omarchy_portal::portals::file_chooser::save_current_name;
use omarchy_portal::uri::{file_uri, path_from_file_uri};

#[test]
fn roundtrip_absolute_path() {
    let uri = file_uri("/tmp/example.txt", None).unwrap();
    assert!(uri.starts_with("file://"));
    assert_eq!(path_from_file_uri(&uri).unwrap(), "/tmp/example.txt");
}

#[test]
fn rejects_non_file_uri() {
    assert!(path_from_file_uri("https://example.com/a").is_none());
}

#[test]
fn file_uris_are_percent_encoded_and_decoded() {
    let uri = file_uri("/tmp/a b.txt", None).unwrap();
    assert_eq!(uri, "file:///tmp/a%20b.txt");
    assert_eq!(path_from_file_uri(&uri).unwrap(), "/tmp/a b.txt");
    assert_eq!(path_from_file_uri("file:///tmp/%C3%A9").unwrap(), "/tmp/é");
}

#[test]
fn relative_paths_use_the_working_directory() {
    assert_eq!(file_uri("x.txt", Some("/home/me")).as_deref(), Some("file:///home/me/x.txt"));
    assert_eq!(file_uri("x.txt", None), None);
}

#[test]
fn save_name_prefers_current_name() {
    let name = save_current_name(Some("note.md".into()), Some("/tmp/old.txt"));
    assert_eq!(name, "note.md");
}

#[test]
fn save_name_falls_back_to_current_file_basename() {
    let name = save_current_name(None, Some("/home/me/draft.txt"));
    assert_eq!(name, "draft.txt");
}

#[test]
fn save_name_ignores_empty_current_name() {
    let name = save_current_name(Some(String::new()), Some("/tmp/photo.png"));
    assert_eq!(name, "photo.png");
}
