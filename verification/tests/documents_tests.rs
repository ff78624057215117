use omarchy_portal::dict;
use omarchy_portal::documents::{
    doc_id_for_path, existing_dir, existing_dir_candidates, nonempty_path_from_ay, path_from_ay,
    Entity,
};
use std::path::Path;

#[test]
fn trims_nul_from_ay_paths() {
    let path = dict::path_from_ay(b"/tmp/foo\0".to_vec());
    assert_eq!(path, b"/tmp/foo".to_vec());
}

#[test]
fn path_from_ay_strips_nul() {
    assert_eq!(path_from_ay(b"/run/user/1000/doc\0"), "/run/user/1000/doc");
}

#[test]
fn doc_id_folder_and_file() {
    let mount = "/run/user/1000/doc";
    assert_eq!(
        doc_id_for_path("/run/user/1000/doc/abc123", mount, Entity::Folder).as_deref(),
        Some("abc123")
    );
    assert_eq!(
        doc_id_for_path("/run/user/1000/doc/abc123/photo.png", mount, Entity::File).as_deref(),
        Some("abc123")
    );
    assert_eq!(doc_id_for_path("/run/user/1000/doc/by-app/foo", mount, Entity::Folder), None);
    assert_eq!(doc_id_for_path("/home/me/Downloads", mount, Entity::Folder), None);
}

#[test]
fn existing_dir_walks_parents() {
    let missing = "/tmp/omarchy-portal-missing-dir-xyz/nested";
    let got = existing_dir(Some(missing), |p: &str| Path::new(p).is_dir(), || "/should-not".to_string());
    assert_eq!(got, "/tmp");
}

#[test]
fn existing_dir_rejects_relative() {
    let got = existing_dir(Some("relative/path"), |p: &str| Path::new(p).is_dir(), || {
        "/fallback".to_string()
    });
    assert_eq!(got, "/fallback");
}

#[test]
fn existing_dir_candidates_end_at_root() {
    assert_eq!(
        existing_dir_candidates(Some("/a/b")),
        vec!["/a/b".to_string(), "/a".to_string(), "/".to_string()]
    );
    assert!(existing_dir_candidates(Some("rel")).is_empty());
    assert!(existing_dir_candidates(None).is_empty());
}

#[test]
fn existing_dir_without_path_falls_back() {
    let got = existing_dir(None, |_p: &str| true, || "/home/me".to_string());
    assert_eq!(got, "/home/me");
}

#[test]
fn empty_ay_path_is_none() {
    assert_eq!(nonempty_path_from_ay(b"\0"), None);
    assert_eq!(nonempty_path_from_ay(b"/x\0\0").as_deref(), Some("/x"));
}

#[test]
fn ay_path_with_invalid_utf8_is_lossy() {
    assert_eq!(path_from_ay(&[b'/', 0xff, b'a', 0]), "/\u{fffd}a");
}

#[test]
fn file_names_and_trailing_nuls() {
    assert_eq!(dict::path_from_ay(b"a\0\0".to_vec()), b"a".to_vec());
    assert_eq!(dict::path_from_ay(b"a\0b".to_vec()), b"a\0b".to_vec());
    assert_eq!(dict::file_names_from_ay(vec![b"/x\0".to_vec(), b"/y".to_vec()]), vec!["x".to_string(), "y".to_string()]);
}
