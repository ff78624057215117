use omarchy_portal::paths::{
    current_theme_dir, current_theme_name_file, face_image, gecos, gtk_bookmarks,
    parse_recently_used_xbel, places, real_name, recent_files, recent_from_hrefs, state_home,
    unique_path, user_dir, users_name, whoami, xml_attr, FileStat,
};
use std::path::Path;

fn canonical(p: &str) -> Option<String> {
    Path::new(p)
        .canonicalize()
        .ok()
        .map(|c| c.to_string_lossy().into_owned())
}

#[test]
fn places_includes_home() {
    let all = places("/tmp", None, None, canonical);
    let labels: Vec<_> = all.iter().map(|(l, _)| l.clone()).collect();
    assert!(labels.contains(&"Home".to_string()));
    assert!(labels.contains(&"Computer".to_string()));
    let paths: Vec<_> = all.iter().map(|(_, p)| p.clone()).collect();
    let mut uniq = paths.clone();
    uniq.sort();
    uniq.dedup();
    assert_eq!(paths.len(), uniq.len(), "places must not repeat a path");
}

#[test]
fn parse_xbel_orders_by_visited() {
    let xml = r#"<?xml version="1.0"?>
<xbel>
  <bookmark href="file:///tmp/old.txt" visited="2024-01-01T00:00:00Z"/>
  <bookmark href="file:///tmp/new.txt" visited="2024-12-01T00:00:00Z"/>
  <bookmark href="https://example.com/skip" visited="2025-01-01T00:00:00Z"/>
</xbel>
"#;
    let hrefs = parse_recently_used_xbel(xml);
    assert_eq!(
        hrefs,
        vec![
            "file:///tmp/new.txt".to_string(),
            "file:///tmp/old.txt".to_string()
        ]
    );
}

#[test]
fn unique_path_appends_number() {
    let next = unique_path("/d", "note.txt", |p: &str| p == "/d/note.txt");
    assert_eq!(next, "/d/note (1).txt");
}

#[test]
fn unique_path_skips_taken_numbers() {
    let taken = ["/d/a.tar.gz", "/d/a.tar (1).gz", "/d/a.tar (2).gz"];
    let next = unique_path("/d", "a.tar.gz", |p: &str| taken.contains(&p));
    assert_eq!(next, "/d/a.tar (3).gz");
    assert_eq!(unique_path("/d", "free", |_p: &str| false), "/d/free");
    assert_eq!(unique_path("/d", "README", |p: &str| p == "/d/README"), "/d/README (1)");
}

#[test]
fn places_skip_missing_and_repeated_paths() {
    let dirs = "XDG_DOWNLOAD_DIR=\"$HOME/dl\"\nXDG_MUSIC_DIR=\"$HOME\"\n";
    let bookmarks = "file:///tmp Temp\nfile:///nowhere Gone\n";
    let resolve = |p: &str| -> Option<String> {
        match p {
            "/h" | "/h/dl" | "/" | "/tmp" => Some(p.to_string()),
            _ => None,
        }
    };
    let all = places("/h", Some(dirs), Some(bookmarks), resolve);
    let paths: Vec<_> = all.iter().map(|(_, p)| p.as_str()).collect();
    assert_eq!(all[0], ("Home".to_string(), "/h".to_string()));
    assert!(paths.contains(&"/h/dl"));
    assert!(paths.contains(&"/tmp"));
    assert!(!paths.contains(&"/nowhere"));
    assert_eq!(paths.iter().filter(|p| **p == "/h").count(), 1);
}

#[test]
fn theme_paths_under_state_home() {
    assert_eq!(current_theme_dir("/s"), "/s/omarchy/current/theme");
    assert_eq!(current_theme_name_file("/s"), "/s/omarchy/current/theme.name");
    assert_eq!(state_home(None, "/home/me"), "/home/me/.local/state");
    assert_eq!(state_home(Some("/x"), "/home/me"), "/x");
}

#[test]
fn user_dirs_expand_home() {
    let text = "# comment\nXDG_DOWNLOAD_DIR=\"$HOME/Downloads\"\n";
    assert_eq!(user_dir(Some(text), "DOWNLOAD", "Downloads", "/home/me"), "/home/me/Downloads");
    assert_eq!(user_dir(Some(text), "MUSIC", "Music", "/home/me"), "/home/me/Music");
    assert_eq!(user_dir(None, "MUSIC", "Music", "/home/me"), "/home/me/Music");
}

#[test]
fn passwd_lookups() {
    let passwd = "root:x:0:0:root:/root:/bin/bash\nme:x:1000:1000:Ada Lovelace,,,:/home/me:/bin/zsh\nbare:x:1001:1001::/home/bare:/bin/sh\n";
    assert_eq!(users_name(passwd, 1000).as_deref(), Some("me"));
    assert_eq!(users_name(passwd, 42), None);
    assert_eq!(gecos(passwd, 1000).as_deref(), Some("Ada Lovelace"));
    assert_eq!(gecos(passwd, 1001), None);
    assert_eq!(whoami(Some("env"), Some(passwd), 1000), "env");
    assert_eq!(whoami(None, Some(passwd), 1000), "me");
    assert_eq!(whoami(None, None, 1000), "1000");
    assert_eq!(real_name(None, Some(passwd), 1000), "Ada Lovelace");
}

#[test]
fn face_image_first_existing() {
    let got = face_image("/home/me", "me", |p: &str| p == "/home/me/.face.icon");
    assert_eq!(got.as_deref(), Some("/home/me/.face.icon"));
    let got = face_image("/home/me", "me", |p: &str| p.starts_with("/var/lib"));
    assert_eq!(got.as_deref(), Some("/var/lib/AccountsService/icons/me"));
    assert_eq!(face_image("/home/me", "me", |_p: &str| false), None);
}

#[test]
fn gtk_bookmark_lines() {
    let b = gtk_bookmarks("file:///home/me/Work Work\nfile:///srv\n\nsftp://host/x Remote\n");
    assert_eq!(b[0], ("/home/me/Work".to_string(), "Work".to_string()));
    assert_eq!(b[1].0, "/srv");
}

#[test]
fn xml_attribute_values() {
    let tag = r#"<bookmark href="file:///a" visited="2024"/>"#;
    assert_eq!(xml_attr(tag, "href").as_deref(), Some("file:///a"));
    assert_eq!(xml_attr(tag, "visited").as_deref(), Some("2024"));
    assert_eq!(xml_attr(tag, "added"), None);
}

#[test]
fn recent_files_keep_existing_once_up_to_limit() {
    let hrefs: Vec<String> = vec![
        "file:///tmp/a.txt".into(),
        "file:///tmp/gone".into(),
        "https://example.com/x".into(),
        "file:///tmp/a.txt".into(),
        "file:///tmp/dir".into(),
        "file:///tmp/b.txt".into(),
    ];
    let stat = |p: &str| -> Option<FileStat> {
        match p {
            "/tmp/a.txt" => Some(FileStat { is_dir: false, size: 3, modified: 7 }),
            "/tmp/dir" => Some(FileStat { is_dir: true, size: 0, modified: 9 }),
            "/tmp/b.txt" => Some(FileStat { is_dir: false, size: 1, modified: 1 }),
            _ => None,
        }
    };
    let out = recent_from_hrefs(&hrefs, 2, stat);
    assert_eq!(out.len(), 2);
    assert_eq!(out[0].label, "a.txt");
    assert_eq!(out[0].path, "/tmp/a.txt");
    assert_eq!(out[0].size, 3);
    assert_eq!(out[1].path, "/tmp/dir");
    assert!(out[1].is_dir);
    assert!(recent_files(None, 5, stat).is_empty());
}
