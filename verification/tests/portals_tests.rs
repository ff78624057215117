use omarchy_portal::picker::PickerReply;
use omarchy_portal::portals::background::{
    app_states, autostart_file_name, autostart_step, background_result, is_app_event,
    shell_quote, socket2_path, AutostartStep, NoticeGate, ALLOW, ALLOW_ONCE, FORBID,
};
use omarchy_portal::portals::dynamic_launcher::install_token_result;
use omarchy_portal::portals::email::{activation_token, attachment_path, email_args};
use omarchy_portal::portals::inhibit::{inhibit_args, inhibit_what, lock_event, Monitors};
use omarchy_portal::portals::notification::{
    action_table, app_object_path, icon_extension, icon_from_text, resolve_action, route_action,
    urgency, ActionRoute, ActionSource, ButtonSpec, LiveNotif, NotifRegistry,
};
use omarchy_portal::portals::screenshot::{
    geometry_text, grim_args, parse_hex_color, region_source, screenshot_target, selected_area,
    RegionSource, TARGET_AREA, TARGET_SCREEN,
};
use omarchy_portal::portals::settings::{
    gnome_color_scheme, namespace_matches, setting_for, settings_to_read, theme_changes, Setting,
    SettingsSnapshot, APPEARANCE,
};
use omarchy_portal::portals::wallpaper::wallpaper_code;
use omarchy_portal::response::{CANCELLED, OTHER, SUCCESS};
use omarchy_portal::theme::ColorScheme;

#[test]
fn quotes_spaces() {
    assert_eq!(shell_quote("ok"), "ok");
    assert_eq!(shell_quote("a b"), "'a b'");
}

#[test]
fn result_constants_match_spec() {
    assert_eq!(FORBID, 0);
    assert_eq!(ALLOW, 1);
    assert_eq!(ALLOW_ONCE, 2);
}

#[test]
fn accepts_file_uri_and_absolute_path() {
    assert_eq!(attachment_path("file:///tmp/a.txt").unwrap(), "/tmp/a.txt");
    assert_eq!(attachment_path("/tmp/a.txt").unwrap(), "/tmp/a.txt");
    assert!(attachment_path("https://example.com/a").is_none());
    assert!(attachment_path("relative.txt").is_none());
}

#[test]
fn glob_namespace() {
    assert!(namespace_matches(&["org.freedesktop.*"], APPEARANCE));
    assert!(!namespace_matches(&["org.gnome.*"], APPEARANCE));
    assert!(namespace_matches(&[], APPEARANCE));
}

#[test]
fn shell_quote_escapes_single_quotes() {
    assert_eq!(shell_quote("it's"), "'it'\\''s'");
    assert_eq!(shell_quote(""), "");
    assert_eq!(shell_quote("/usr/bin/app-1.0"), "/usr/bin/app-1.0");
}

#[test]
fn autostart_entries() {
    assert_eq!(autostart_file_name("org.x/y z"), "org.x_y_z.desktop");
    match autostart_step("org.app", false, &vec![], 0) {
        AutostartStep::Remove(f) => assert_eq!(f, "org.app.desktop"),
        _ => panic!("disabling removes the entry"),
    }
    assert!(matches!(autostart_step("org.app", true, &vec![], 0), AutostartStep::Skip));
    match autostart_step("org.app", true, &vec!["app".into(), "a b".into()], 1) {
        AutostartStep::Write(f, body) => {
            assert_eq!(f, "org.app.desktop");
            assert!(body.starts_with("[Desktop Entry]\nType=Application\nName=org.app\n"));
            assert!(body.contains("\nExec=app 'a b'\n"));
            assert!(body.contains("DBusActivatable=true\n"));
            assert!(body.ends_with("X-Flatpak=org.app\n"));
        }
        _ => panic!("enabling writes the entry"),
    }
}

#[test]
fn one_background_prompt_per_app() {
    let mut gate = NoticeGate::new();
    assert!(gate.begin("org.app"));
    assert!(!gate.begin("org.app"));
    assert!(gate.begin("org.other"));
    gate.finish("org.app");
    assert!(gate.begin("org.app"));
    assert!(gate.begin(""));
    assert!(gate.begin(""));
}

#[test]
fn background_results() {
    assert_eq!(background_result(Some(PickerReply::Background { result: 0 })), FORBID);
    assert_eq!(background_result(Some(PickerReply::Confirm { accepted: true })), ALLOW);
    assert_eq!(background_result(Some(PickerReply::Confirm { accepted: false })), FORBID);
    assert_eq!(background_result(Some(PickerReply::Cancel)), ALLOW_ONCE);
    assert_eq!(background_result(None), ALLOW_ONCE);
}

#[test]
fn running_app_states() {
    let clients = vec![
        ("kitty".to_string(), Some(true)),
        ("firefox".to_string(), Some(true)),
        ("kitty".to_string(), Some(true)),
        ("hidden".to_string(), Some(false)),
        ("".to_string(), Some(true)),
    ];
    let states = app_states(&clients, Some("kitty"));
    assert_eq!(states.len(), 2);
    assert!(states.contains(&("kitty".to_string(), 2)));
    assert!(states.contains(&("firefox".to_string(), 1)));
}

#[test]
fn hyprland_events_and_socket() {
    assert!(is_app_event("openwindow>>abc"));
    assert!(is_app_event("  activewindowv2>>x\n"));
    assert!(!is_app_event("workspace>>2"));
    assert_eq!(
        socket2_path(Some("sig"), Some("/run/user/7")).as_deref(),
        Some("/run/user/7/hypr/sig/.socket2.sock")
    );
    assert_eq!(
        socket2_path(Some("sig"), None).as_deref(),
        Some("/run/user/1000/hypr/sig/.socket2.sock")
    );
    assert_eq!(socket2_path(None, Some("/run/user/7")), None);
}

#[test]
fn email_command_line() {
    let args = email_args(
        Some("Hi".into()),
        None,
        &vec!["c@x".into()],
        &vec![],
        &vec!["file:///tmp/a.txt".into(), "relative".into()],
        &vec!["b@x".into()],
        Some("a@x".into()),
    );
    assert_eq!(
        args,
        vec!["--utf8", "--subject", "Hi", "--cc", "c@x", "--attach", "/tmp/a.txt", "a@x", "b@x"]
            .into_iter()
            .map(String::from)
            .collect::<Vec<_>>()
    );
    assert_eq!(activation_token(Some(String::new())), None);
    assert_eq!(activation_token(Some("t".into())).as_deref(), Some("t"));
}

#[test]
fn inhibit_flags_and_monitors() {
    assert_eq!(inhibit_what(4), "sleep");
    assert_eq!(inhibit_what(12), "sleep:idle");
    assert_eq!(inhibit_what(8), "idle");
    assert_eq!(inhibit_what(1), "idle");
    assert_eq!(
        inhibit_args("app", "why", "idle"),
        vec!["--what=idle", "--who=app", "--why=why", "--mode=block", "sleep", "infinity"]
    );
    assert_eq!(lock_event("lock"), Some(true));
    assert_eq!(lock_event("unlock>>now"), Some(false));
    assert_eq!(lock_event("other"), None);
    let mut m = Monitors::new();
    assert_eq!(m.create("/s/1"), SUCCESS);
    assert_eq!(m.create("/s/1"), OTHER);
    assert_eq!(m.create("/s/2"), SUCCESS);
    m.drop_stale(&vec!["/s/1".to_string()]);
    assert_eq!(m.list(), vec!["/s/2".to_string()]);
}

#[test]
fn settings_lookup() {
    assert_eq!(setting_for(APPEARANCE, "color-scheme"), Some(Setting::ColorScheme));
    assert_eq!(setting_for("org.gnome.desktop.interface", "font-name"), Some(Setting::FontName));
    assert_eq!(setting_for(APPEARANCE, "font-name"), None);
    assert_eq!(settings_to_read(&["org.gnome.*"]).len(), 5);
    assert_eq!(settings_to_read(&[]).len(), 9);
    assert_eq!(gnome_color_scheme(ColorScheme::PreferLight), "prefer-light");
    assert_eq!(gnome_color_scheme(ColorScheme::NoPreference), "prefer-dark");
    let a = SettingsSnapshot {
        mode: ColorScheme::PreferDark,
        accent_rgb: [1, 2, 3],
        icon_theme: "Yaru".into(),
        gtk_theme: "Adwaita".into(),
        font_family: "Inter".into(),
    };
    let b = SettingsSnapshot {
        mode: ColorScheme::PreferLight,
        accent_rgb: [1, 2, 3],
        icon_theme: "Yaru".into(),
        gtk_theme: "Adwaita".into(),
        font_family: "Inter".into(),
    };
    assert_eq!(theme_changes(&a, &b, false), vec![Setting::ColorScheme, Setting::GnomeColorScheme]);
    assert_eq!(theme_changes(&a, &a, true), vec![Setting::FontName, Setting::TextScalingFactor]);
    assert!(theme_changes(&a, &a, false).is_empty());
}

#[test]
fn parses_hash_hex() {
    let (r, g, b) = parse_hex_color("#ff8000").unwrap();
    let (r, g, b) = (r as f64 / 255.0, g as f64 / 255.0, b as f64 / 255.0);
    assert!((r - 1.0).abs() < f64::EPSILON);
    assert!((g - 128.0 / 255.0).abs() < 1e-9);
    assert!(b.abs() < f64::EPSILON);
}

#[test]
fn parses_bare_hex() {
    let (r, _, _) = parse_hex_color("00ff00\n").unwrap();
    assert!((r as f64 / 255.0).abs() < f64::EPSILON);
}

#[test]
fn bad_colors_are_refused() {
    assert_eq!(parse_hex_color("#12"), None);
    assert_eq!(parse_hex_color("#zz0000"), None);
    assert_eq!(parse_hex_color("#a1b2c3d4"), Some((0xa1, 0xb2, 0xc3)));
}

#[test]
fn screenshot_targets_and_args() {
    assert_eq!(screenshot_target(false, None, None), Some(TARGET_SCREEN));
    assert_eq!(screenshot_target(false, None, Some(8)), Some(8));
    assert_eq!(screenshot_target(true, Some(PickerReply::Screenshot { target: 4 }), None), Some(4));
    assert_eq!(screenshot_target(true, Some(PickerReply::Screenshot { target: 0 }), None), None);
    assert_eq!(screenshot_target(true, Some(PickerReply::Cancel), Some(1)), None);
    assert_eq!(region_source(TARGET_AREA), RegionSource::SelectArea);
    assert_eq!(region_source(TARGET_SCREEN), RegionSource::Screen);
    assert_eq!(grim_args(Some("0,0 10x10"), "/tmp/s.png"), vec!["-g", "0,0 10x10", "/tmp/s.png"]);
    assert_eq!(grim_args(None, "/tmp/s.png"), vec!["/tmp/s.png"]);
    assert_eq!(geometry_text(-5, 7, 100, 20), "-5,7 100x20");
    assert_eq!(geometry_text(i64::MIN, 0, 0, 0), "-9223372036854775808,0 0x0");
    assert_eq!(selected_area("  1,2 3x4\n").as_deref(), Some("1,2 3x4"));
    assert_eq!(selected_area(" \n"), None);
}

#[test]
fn wallpaper_codes() {
    assert_eq!(wallpaper_code(false, false, None, None), OTHER);
    assert_eq!(wallpaper_code(true, true, Some(false), None), CANCELLED);
    assert_eq!(wallpaper_code(true, true, Some(true), Some(true)), SUCCESS);
    assert_eq!(wallpaper_code(true, false, None, Some(false)), OTHER);
}

#[test]
fn install_tokens_for_software_centres_only() {
    assert_eq!(install_token_result("org.gnome.Software"), SUCCESS);
    assert_eq!(install_token_result("org.evil"), OTHER);
}

#[test]
fn notification_actions_and_icons() {
    assert_eq!(urgency(Some("low")), 0);
    assert_eq!(urgency(Some("urgent")), 2);
    assert_eq!(urgency(None), 1);
    let buttons = vec![
        ButtonSpec { label: "Open".into(), action: "app.open".into() },
        ButtonSpec { label: "Skip".into(), action: String::new() },
        ButtonSpec { label: "Def".into(), action: "default".into() },
    ];
    let (fdo, table) = action_table(Some("app.show".into()), &buttons);
    assert_eq!(fdo, vec!["default", "", "app.open", "Open", "portal.default", "Def"]);
    assert_eq!(table.len(), 3);
    let (name, src) = resolve_action(&table, "portal.default");
    assert_eq!(name, "default");
    assert_eq!(src, Some(ActionSource::Button(2)));
    let (name, src) = resolve_action(&table, "nope");
    assert_eq!(name, "nope");
    assert_eq!(src, None);
    match route_action("app.app.open") {
        ActionRoute::AppAction(a) => assert_eq!(a, "open"),
        ActionRoute::Portal => panic!("app. actions go to the application"),
    }
    assert!(matches!(route_action("open"), ActionRoute::Portal));
    assert_eq!(app_object_path("org.foo-bar"), "/org/foo_bar");
    let icon = icon_from_text(" file:///tmp/i.png ").unwrap();
    assert_eq!(icon.image_path.as_deref(), Some("/tmp/i.png"));
    assert_eq!(icon_from_text("mail-unread").unwrap().app_icon, "mail-unread");
    assert!(icon_from_text("  ").is_none());
    assert_eq!(icon_extension(b"\x89PNG\r\n"), "png");
    assert_eq!(icon_extension(b"<svg"), "svg");
    assert_eq!(icon_extension(b"xyz"), "bin");
}

#[test]
fn notification_registry_round_trip() {
    let mut reg = NotifRegistry::new();
    let table = action_table(Some("app.show".into()), &vec![]).1;
    reg.record("org.app", "n1", LiveNotif { fdo_id: 7, actions: table, temp_files: vec![] });
    let hit = reg.action(7, "default").unwrap();
    assert_eq!(hit.0, "org.app");
    assert_eq!(hit.1, "n1");
    assert_eq!(hit.2, "app.show");
    assert!(reg.action(8, "default").is_none());
    let gone = reg.withdraw("org.app", "n1").unwrap();
    assert_eq!(gone.fdo_id, 7);
    assert!(reg.action(7, "default").is_none());
    assert!(reg.withdraw("org.app", "n1").is_none());
    reg.record("org.app", "n2", LiveNotif { fdo_id: 9, actions: vec![], temp_files: vec!["/tmp/x".into()] });
    let closed = reg.closed(9).unwrap();
    assert_eq!(closed.temp_files, vec!["/tmp/x".to_string()]);
    assert!(reg.closed(9).is_none());
}

#[test]
fn every_served_setting_is_found_by_its_address() {
    let all = settings_to_read(&[]);
    assert_eq!(all.len(), 9);
    for s in all {
        let (ns, key) = s.namespace_and_key();
        assert_eq!(setting_for(ns, key), Some(s));
    }
}
