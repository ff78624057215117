use omarchy_portal::desktop::{
    parse_ini_sections, portal_app_id, section_mut, serialize_ini_sections, update_mimeapps,
    upsert_key,
};

#[test]
fn portal_id_strips_desktop_suffix() {
    assert_eq!(portal_app_id("zen"), "zen");
    assert_eq!(portal_app_id("zen.desktop"), "zen");
    assert_eq!(portal_app_id("org.mozilla.firefox.desktop"), "org.mozilla.firefox");
}

#[test]
fn mimeapps_upsert_and_added() {
    let text = "[Default Applications]\ntext/plain=old.desktop\n\n[Added Associations]\ntext/plain=old.desktop;\n";
    let mut sections = parse_ini_sections(text);
    let d = section_mut(&mut sections, "Default Applications");
    upsert_key(&mut sections[d].1, "text/plain", "new.desktop".into());
    let a = section_mut(&mut sections, "Added Associations");
    let added = &mut sections[a].1;
    let i = added.iter().position(|(k, _)| k == "text/plain").unwrap();
    let current = added[i].1.clone();
    assert!(current.contains("old.desktop"));
    if !current.split(';').any(|p| p == "new.desktop") {
        added[i].1 = format!("{}new.desktop;", current.trim_end_matches(';').to_string() + ";");
    }
    let out = serialize_ini_sections(&sections);
    assert!(out.contains("text/plain=new.desktop"));
    assert!(out.contains("new.desktop;"));
    assert!(out.find("[Default Applications]").unwrap() < out.find("[Added Associations]").unwrap());
}

#[test]
fn portal_app_id_twice_is_once() {
    let once = portal_app_id("a.desktop.desktop");
    assert_eq!(once, "a");
    assert_eq!(portal_app_id(&once), once);
    assert_eq!(portal_app_id(&portal_app_id("x")), portal_app_id("x"));
}

#[test]
fn upsert_replaces_then_appends() {
    let mut entries = vec![("a".to_string(), "1".to_string())];
    upsert_key(&mut entries, "a", "2".into());
    assert_eq!(entries, vec![("a".to_string(), "2".to_string())]);
    upsert_key(&mut entries, "b", "3".into());
    assert_eq!(entries.len(), 2);
    assert_eq!(entries[1], ("b".to_string(), "3".to_string()));
}

#[test]
fn section_mut_adds_missing_section() {
    let mut sections = parse_ini_sections("[A]\nk=v\n");
    assert_eq!(section_mut(&mut sections, "A"), 0);
    assert_eq!(section_mut(&mut sections, "B"), 1);
    assert_eq!(sections.len(), 2);
    assert!(sections[1].1.is_empty());
}

#[test]
fn update_mimeapps_sets_default_and_association() {
    let out = update_mimeapps("", "text/plain", "zen").unwrap();
    assert!(out.contains("[Default Applications]"));
    assert!(out.contains("text/plain=zen.desktop"));
    assert!(out.contains("[Added Associations]"));
    assert!(out.contains("text/plain=zen.desktop;"));
}
