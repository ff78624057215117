use omarchy_portal::filters::{globs_for_mime, wildcard_mime_globs, FileFilter, FilterPattern};

#[test]
fn glob_png() {
    let f = FileFilter::from_portal("PNG".into(), vec![(0, "*.png".into())]);
    assert!(f.matches("photo.png"));
    assert!(!f.matches("photo.jpg"));
}

#[test]
fn mime_image_wildcard() {
    let f = FileFilter::from_portal("Images".into(), vec![(1, "image/*".into())]);
    assert!(f.matches("a.png"));
    assert!(f.matches("b.jpeg"));
    assert!(!f.matches("c.txt"));
}

#[test]
fn empty_filter_matches_all() {
    let f = FileFilter::from_portal("All".into(), vec![]);
    assert!(f.matches("anything.bin"));
}

#[test]
fn mime_globs_expand_png() {
    let f = FileFilter::from_portal("PNG".into(), vec![(1, "image/png".into())]);
    let globs = f.globs();
    assert!(globs.iter().any(|g| g == "*.png"));
}

#[test]
fn image_wildcard_globs() {
    let f = FileFilter::from_portal("Images".into(), vec![(1, "image/*".into())]);
    let globs = f.globs();
    assert!(globs.contains(&"*.png".into()));
    assert!(globs.contains(&"*.jpg".into()));
}

#[test]
fn portal_form_round_trips() {
    let raw = vec![(0, "*.txt".to_string()), (1, "text/plain".to_string())];
    let f = FileFilter::from_portal("Text".into(), raw.clone());
    assert_eq!(f.to_portal(), ("Text".to_string(), raw));
}

#[test]
fn unknown_pattern_kinds_are_dropped() {
    let f = FileFilter::from_portal("X".into(), vec![(7, "odd".into()), (0, "*.a".into())]);
    assert_eq!(f.patterns.len(), 1);
    assert_eq!(f.patterns[0], FilterPattern::Glob("*.a".into()));
}

#[test]
fn glob_matching_is_on_the_file_name() {
    let f = FileFilter::from_portal("T".into(), vec![(0, "*.txt".into())]);
    assert!(f.matches("/home/me/notes.txt"));
    assert!(!f.matches("/home/me.txt/notes"));
}

#[test]
fn filter_without_patterns_offers_every_name() {
    let f = FileFilter::from_portal("All".into(), vec![]);
    assert_eq!(f.globs(), vec!["*".to_string()]);
}

#[test]
fn mime_and_wildcard_glob_lists() {
    assert!(globs_for_mime("image/png").contains(&"*.png".to_string()));
    assert!(globs_for_mime("no/such").is_empty());
    let w = wildcard_mime_globs("image");
    assert!(w.contains(&"*.png".to_string()));
    assert!(w.contains(&"*.jpg".to_string()));
    assert_eq!(w[0], "*.png");
    assert_eq!(wildcard_mime_globs("font"), vec!["*".to_string()]);
    assert_eq!(globs_for_mime("*/*"), vec!["*".to_string()]);
}
