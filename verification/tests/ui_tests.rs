use omarchy_portal::ui::app_chooser::{chooser_result, initial_selection, visible_apps};
use omarchy_portal::ui::file_chooser::{
    breadcrumbs, collapse_crumbs, sort_heading, truncate_crumb, ChooserApp, Entry,
    FileChooserRequest, FileMode, Outcome, PathKind, SortKey,
};
use omarchy_portal::ui::fonts::{file_glyph, up_glyph};
use omarchy_portal::ui::glyphs::{for_place, Glyph};
use omarchy_portal::ui::thumbs::{cache_key, fnv1a, is_image_file, thumb_file_name};
use omarchy_portal::desktop::DesktopApp;
use omarchy_portal::filters::FileFilter;

#[test]
fn breadcrumbs_start_at_home() {
    let home = "/home/me";
    let docs = "/home/me/Documents";
    let crumbs = breadcrumbs(docs, home);
    assert_eq!(crumbs.first().map(|(l, _)| l.as_str()), Some("Home"));
    assert!(crumbs.iter().any(|(l, _)| l == "Documents" || docs.ends_with(l.as_str())));
}

#[test]
fn breadcrumbs_outside_home_start_at_root() {
    let crumbs = breadcrumbs("/etc/x", "/home/me");
    assert_eq!(
        crumbs,
        vec![
            ("Computer".to_string(), "/".to_string()),
            ("etc".to_string(), "/etc".to_string()),
            ("x".to_string(), "/etc/x".to_string()),
        ]
    );
    assert_eq!(breadcrumbs("/home/me", "/home/me"), vec![("Home".to_string(), "/home/me".to_string())]);
}

#[test]
fn collapse_keeps_short_paths() {
    let crumbs = vec![
        ("Home".to_string(), "/home".to_string()),
        ("Downloads".to_string(), "/home/Downloads".to_string()),
    ];
    assert_eq!(collapse_crumbs(&crumbs).len(), 2);
}

#[test]
fn collapse_long_paths_to_ellipsis() {
    let crumbs: Vec<(String, String)> = (0..6).map(|i| (format!("d{i}"), format!("/{i}"))).collect();
    let vis = collapse_crumbs(&crumbs);
    assert_eq!(vis.len(), 3);
    assert!(vis[1].2);
    assert_eq!(vis[2].0, "d5");
}

#[test]
fn crumb_labels_and_headings() {
    assert_eq!(truncate_crumb("short"), "short");
    assert_eq!(truncate_crumb("abcdefghijklmnopqrstuvwxyz"), "abcdefghijklmnopqrs…");
    assert_eq!(sort_heading("Name", false, false), "Name");
    assert_eq!(sort_heading("Name", true, false), "Name ↑");
    assert_eq!(sort_heading("Name", true, true), "Name ↓");
}

#[test]
fn audio_files_are_not_generic_docs() {
    let g = file_glyph(false, false, "tts_20260415_103612.mp3");
    assert_ne!(g, "📄");
    assert!(g == "\u{f001}" || g == "♪");
}

#[test]
fn directories_differ_from_files() {
    assert_ne!(file_glyph(false, true, "Music"), file_glyph(false, false, "x.bin"));
}

#[test]
fn glyph_by_extension_ignores_case() {
    assert_eq!(file_glyph(true, false, "a.MP3"), "\u{f001}");
    assert_eq!(file_glyph(false, false, "a.PNG"), "▣");
    assert_eq!(file_glyph(true, true, "dir"), "\u{f07b}");
    assert_ne!(up_glyph(true), up_glyph(false));
}

#[test]
fn place_labels_map() {
    assert_eq!(for_place("Home"), Glyph::Home);
    assert_eq!(for_place("Downloads"), Glyph::Downloads);
    assert_eq!(for_place("Recents"), Glyph::Recents);
    assert_eq!(for_place("Work"), Glyph::Folder);
}

#[test]
fn detects_image_extensions() {
    assert!(is_image_file("photo.jpg"));
    assert!(is_image_file("photo.JPEG"));
    assert!(is_image_file("a.png"));
    assert!(is_image_file("a.webp"));
    assert!(is_image_file("a.svg"));
    assert!(!is_image_file("song.mp3"));
    assert!(!is_image_file("notes.pdf"));
    assert!(!is_image_file("file"));
}

#[test]
fn thumbnail_keys() {
    assert_eq!(fnv1a(""), 0xcbf29ce484222325);
    assert_eq!(fnv1a("a"), 0xaf63dc4c8601ec8c);
    assert_eq!(thumb_file_name(""), "cbf29ce484222325.png");
    assert_eq!(cache_key("/p.png", 5, 10, 64, true), "/p.png|5|10|64|c");
    assert_eq!(cache_key("/p.png", 0, 0, 32, false), "/p.png|0|0|32|f");
}

fn request(mode: FileMode, multiple: bool) -> FileChooserRequest {
    FileChooserRequest {
        title: "Open".into(),
        accept_label: "Open".into(),
        mode,
        multiple,
        directory: false,
        filters: vec![],
        current_filter: None,
        choices: vec![],
        current_folder: "/data".into(),
        current_file: None,
        current_name: String::new(),
        save_names: vec![],
    }
}

fn entry(name: &str, is_dir: bool, size: u64) -> Entry {
    Entry {
        name: name.into(),
        path: format!("/data/{name}"),
        is_dir,
        size,
        modified: None,
    }
}

#[test]
fn chooser_opens_selected_files() {
    let mut app = ChooserApp::new(request(FileMode::Open, true), "/home", |p: &str| p == "/data", |_p: &str| true);
    assert_eq!(app.folder, "/data");
    assert!(app.needs_refresh);
    app.refresh_listing(vec![entry("b.txt", false, 2), entry("a.txt", false, 9), entry("sub", true, 0)]);
    assert_eq!(app.entries[0].name, "sub");
    app.toggle_select("/data/a.txt".into());
    app.toggle_select("/data/b.txt".into());
    app.toggle_select("/data/b.txt".into());
    assert_eq!(app.selected, vec!["/data/a.txt".to_string()]);
    app.try_accept(|_p: &str| PathKind::File, |_p: &str| true);
    assert_eq!(app.outcome, Outcome::Accept);
    assert_eq!(app.build_result().paths, vec!["/data/a.txt".to_string()]);
}

#[test]
fn chooser_needs_a_selection() {
    let mut app = ChooserApp::new(request(FileMode::Open, false), "/home", |p: &str| p == "/data", |_p: &str| true);
    app.try_accept(|_p: &str| PathKind::File, |_p: &str| true);
    assert_eq!(app.outcome, Outcome::Pending);
    assert_eq!(app.error.as_deref(), Some("Select a file first"));
}

#[test]
fn chooser_save_asks_before_overwriting() {
    let mut app = ChooserApp::new(request(FileMode::Save, false), "/home", |p: &str| p == "/data", |_p: &str| true);
    app.filename = " out.txt ".into();
    app.try_accept(|_p: &str| PathKind::File, |p: &str| p == "/data/out.txt");
    assert_eq!(app.overwrite.as_deref(), Some("/data/out.txt"));
    assert_eq!(app.outcome, Outcome::Pending);
    app.confirm_overwrite();
    assert_eq!(app.outcome, Outcome::Accept);
    assert_eq!(app.build_result().paths, vec!["/data/out.txt".to_string()]);
}

#[test]
fn chooser_sorting_and_navigation() {
    let mut app = ChooserApp::new(request(FileMode::Open, false), "/home", |_p: &str| false, |_p: &str| true);
    assert_eq!(app.folder, "/home");
    app.refresh_listing(vec![entry("b", false, 1), entry("a", false, 5)]);
    assert_eq!(app.entries[0].name, "a");
    app.set_sort(SortKey::Size);
    assert_eq!(app.entries[0].name, "b");
    app.set_sort(SortKey::Size);
    assert!(app.sort_reversed);
    assert_eq!(app.entries[0].name, "a");
    app.go_folder("/data/sub".into());
    assert_eq!(app.folder, "/data/sub");
    app.parent("/home");
    assert_eq!(app.folder, "/data");
}

fn app(id: &str, name: &str) -> DesktopApp {
    DesktopApp {
        id: id.into(),
        name: name.into(),
        comment: String::new(),
        icon: String::new(),
        command: String::new(),
        no_display: false,
    }
}

#[test]
fn app_chooser_selection_and_search() {
    let apps = vec![app("org.a", "Alpha"), app("org.b", "Beta")];
    assert_eq!(initial_selection(&apps, Some("org.b")).as_deref(), Some("org.b"));
    assert_eq!(initial_selection(&apps, Some("org.z")).as_deref(), Some("org.a"));
    assert_eq!(initial_selection(&vec![], None), None);
    let shown = visible_apps(&apps, "bet");
    assert_eq!(shown.len(), 1);
    assert_eq!(shown[0].id, "org.b");
    assert_eq!(visible_apps(&apps, "").len(), 2);
    assert_eq!(chooser_result(true, Some("org.a".into()), true), Some(("org.a".to_string(), true)));
    assert_eq!(chooser_result(false, Some("org.a".into()), true), None);
}

#[test]
fn save_adds_the_filter_extension_to_a_bare_name() {
    let mut req = request(FileMode::Save, false);
    req.filters = vec![FileFilter::from_portal("Text".into(), vec![(0, "*.txt".into())])];
    let mut app = ChooserApp::new(req, "/home", |p: &str| p == "/data", |_p: &str| true);
    app.filename = "note".into();
    app.try_accept(|_p: &str| PathKind::File, |_p: &str| false);
    assert_eq!(app.outcome, Outcome::Accept);
    assert_eq!(app.build_result().paths, vec!["/data/note.txt".to_string()]);
}

#[test]
fn save_keeps_a_name_that_has_an_extension() {
    let mut req = request(FileMode::Save, false);
    req.filters = vec![FileFilter::from_portal("Text".into(), vec![(0, "*.txt".into())])];
    let mut app = ChooserApp::new(req, "/home", |p: &str| p == "/data", |_p: &str| true);
    app.filename = "note.md".into();
    app.try_accept(|_p: &str| PathKind::File, |_p: &str| false);
    assert_eq!(app.build_result().paths, vec!["/data/note.md".to_string()]);
}

#[test]
fn save_files_gives_equal_names_distinct_paths() {
    let mut req = request(FileMode::SaveFiles, false);
    req.save_names = vec!["a.txt".into(), "a.txt".into(), "b".into()];
    let mut app = ChooserApp::new(req, "/home", |p: &str| p == "/data", |_p: &str| true);
    app.try_accept(|p: &str| if p == "/data" { PathKind::Dir } else { PathKind::Missing }, |p: &str| p == "/data/b");
    assert_eq!(app.outcome, Outcome::Accept);
    assert_eq!(
        app.build_result().paths,
        vec!["/data/a.txt".to_string(), "/data/a (1).txt".to_string(), "/data/b (1)".to_string()]
    );
}
