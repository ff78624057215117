use omarchy_portal::desktop::{icon_path_candidates, parse_ini_sections, serialize_ini_sections};
use omarchy_portal::documents::path_from_ay;
use omarchy_portal::filters::FilterPattern;
use omarchy_portal::paths::unique_path_avoiding;
use omarchy_portal::portals::notification::{notify_call, notify_hints, HintValue, IconChoice};
use omarchy_portal::theme::parse_hex;
use omarchy_portal::ui::confirm::{key_answer, PromptKind};

#[test]
fn ini_text_reads_back_what_was_written() {
    let secs = vec![
        (
            "Default Applications".to_string(),
            vec![
                ("text/plain".to_string(), "gedit.desktop".to_string()),
                ("image/png".to_string(), "eog.desktop".to_string()),
            ],
        ),
        ("Added Associations".to_string(), vec![("text/plain".to_string(), "gedit.desktop;".to_string())]),
        ("Empty".to_string(), vec![]),
    ];
    let text = serialize_ini_sections(&secs);
    assert_eq!(parse_ini_sections(&text), secs);
}

#[test]
fn escape_and_enter_answer_a_prompt() {
    let bg = PromptKind::Background { title: "t".into(), subtitle: "s".into(), body: "b".into() };
    assert_eq!(key_answer(&bg, true, true), (None, Some(0)));
    assert_eq!(key_answer(&bg, false, true), (None, Some(1)));
    assert_eq!(key_answer(&bg, false, false), (None, None));
    let wp = PromptKind::Wallpaper { uri: "file:///w.png".into() };
    assert_eq!(key_answer(&wp, true, false), (Some(false), None));
    assert_eq!(key_answer(&wp, false, true), (Some(true), None));
    assert_eq!(key_answer(&wp, false, false), (None, None));
}

#[test]
fn notify_hints_for_a_persistent_notification_with_an_image() {
    let hints = notify_hints("org.app", 2, true, Some("/tmp/i.png".to_string()));
    assert_eq!(
        hints,
        vec![
            ("urgency".to_string(), HintValue::Byte(2)),
            ("desktop-entry".to_string(), HintValue::Text("org.app".to_string())),
            ("resident".to_string(), HintValue::Flag(true)),
            ("persistence".to_string(), HintValue::Flag(true)),
            ("image-path".to_string(), HintValue::Text("/tmp/i.png".to_string())),
        ]
    );
    let plain = notify_hints("", 1, false, None);
    assert_eq!(
        plain,
        vec![
            ("urgency".to_string(), HintValue::Byte(1)),
            ("desktop-entry".to_string(), HintValue::Text(String::new())),
        ]
    );
}

#[test]
fn notify_call_fills_every_argument() {
    let icon = IconChoice { app_icon: "mail-unread".to_string(), image_path: Some("/tmp/m.png".to_string()) };
    let call = notify_call("", 5, Some(icon), "Hi".into(), "Body".into(), vec!["default".into(), "".into()], 0, false);
    assert_eq!(call.app_name, "portal");
    assert_eq!(call.replaces_id, 5);
    assert_eq!(call.app_icon, "mail-unread");
    assert_eq!(call.summary, "Hi");
    assert_eq!(call.body, "Body");
    assert_eq!(call.actions, vec!["default".to_string(), String::new()]);
    assert_eq!(call.expire_timeout, -1);
    assert_eq!(call.hints.len(), 3);
    assert_eq!(call.hints[2], ("image-path".to_string(), HintValue::Text("/tmp/m.png".to_string())));
    let kept = notify_call("org.app", 0, None, "a".into(), "b".into(), vec![], 1, true);
    assert_eq!(kept.app_name, "org.app");
    assert_eq!(kept.app_icon, "");
    assert_eq!(kept.expire_timeout, 0);
    assert_eq!(kept.hints.len(), 4);
}

#[test]
fn icon_candidates_for_blank_and_url_values_are_none() {
    let roots = vec!["/r".to_string()];
    let dirs = vec![vec!["/r/Foo".to_string()]];
    assert!(icon_path_candidates("  ", "/h", &roots, &dirs).is_empty());
    assert!(icon_path_candidates("https://example.org/a.png", "/h", &roots, &dirs).is_empty());
}

#[test]
fn icon_candidates_try_an_absolute_path_first() {
    let out = icon_path_candidates(" /abs/a.png ", "/h", &vec![], &vec![]);
    assert_eq!(out.len(), 7);
    assert_eq!(out[0], "/abs/a.png");
}

#[test]
fn icon_candidates_order() {
    let roots = vec!["/r".to_string()];
    let dirs = vec![vec!["/r/Foo".to_string()]];
    let out = icon_path_candidates("firefox", "/h", &roots, &dirs);
    assert_eq!(out.len(), 6 + 6 * 9 * 4 + 4 * 2);
    assert_eq!(out[0], "/usr/share/pixmaps/firefox.svg");
    assert_eq!(out[1], "/h/pixmaps/firefox.svg");
    assert_eq!(out[5], "/h/pixmaps/firefox.xpm");
    assert_eq!(out[6], "/r/hicolor/scalable/apps/firefox.svg");
    assert_eq!(out[7], "/r/hicolor/scalable/devices/firefox.svg");
    assert_eq!(out[8], "/r/hicolor/scalable/apps/firefox.png");
    assert_eq!(out[10], "/r/hicolor/512x512/apps/firefox.svg");
    assert_eq!(out[6 + 36], "/r/Papirus/scalable/apps/firefox.svg");
    assert_eq!(out[6 + 216], "/r/Foo/scalable/apps/firefox.svg");
    assert_eq!(out[out.len() - 1], "/r/Foo/48x48/apps/firefox.png");
    let stripped = icon_path_candidates("firefox.svg", "/h", &roots, &dirs);
    assert_eq!(stripped, out);
}

#[test]
fn unique_path_avoiding_passes_over_chosen_paths() {
    let avoid = vec!["/d/a.txt".to_string(), "/d/a (1).txt".to_string()];
    assert_eq!(unique_path_avoiding("/d", "a.txt", |_p: &str| false, &avoid), "/d/a (2).txt");
    assert_eq!(unique_path_avoiding("/d", "b.txt", |_p: &str| false, &avoid), "/d/b.txt");
    assert_eq!(unique_path_avoiding("/d", "a.txt", |p: &str| p == "/d/a (2).txt", &avoid), "/d/a (3).txt");
}

#[test]
fn documents_path_holds_no_nul() {
    let p = path_from_ay(b"/a\0/b");
    assert_eq!(p, "/a");
    assert!(!p.contains('\0'));
}

#[test]
fn formatted_colours_read_back() {
    for &(r, g, b) in &[(0u8, 0u8, 0u8), (255, 128, 7), (18, 52, 171)] {
        assert_eq!(parse_hex(&format!("#{:02x}{:02x}{:02x}", r, g, b)), Some([r, g, b]));
        assert_eq!(parse_hex(&format!("{:02X}{:02X}{:02X}", r, g, b)), Some([r, g, b]));
    }
    for &(x, y, z) in &[(0u8, 15u8, 9u8), (10, 11, 12)] {
        assert_eq!(
            parse_hex(&format!("#{:x}{:x}{:X}", x, y, z)),
            Some([x * 17, y * 17, z * 17])
        );
    }
}

#[test]
fn wildcards_match_every_path_and_globs_see_the_file_name() {
    let star = FilterPattern::Glob("*".to_string());
    let star_dot_star = FilterPattern::Glob("*.*".to_string());
    let any_mime = FilterPattern::Mime("*/*".to_string());
    for p in ["Makefile", "/", "/home/me/a.txt"] {
        assert!(star.matches(p));
        assert!(star_dot_star.matches(p));
        assert!(any_mime.matches(p));
    }
    let png = FilterPattern::Glob("*.png".to_string());
    assert_eq!(png.matches("/a/b/x.png"), png.matches("/c/x.png"));
    assert!(png.matches("/c/x.png"));
    assert!(!png.matches("/c.png/x.txt"));
}
