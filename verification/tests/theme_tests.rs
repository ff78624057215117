use omarchy_portal::theme::{
    appearance_files, appearance_stamp, gtk_ini_value, icon_theme_name, parse_hex, ColorScheme,
    ThemeColors, ThemeTextError,
};

#[test]
fn parses_omarchy_colors_toml() {
    let toml = r##"
mode = "dark"
accent = "#89b4fa"
background = "#1e1e2e"
foreground = "#cdd6f4"
lighter_background = "#313244"
muted = "#585b70"
red = "#f38ba8"
selection = "#45475a"
"##;
    let theme = ThemeColors::from_toml(toml).unwrap();
    assert_eq!(theme.mode, ColorScheme::PreferDark);
    assert!((theme.accent_rgb[0] as f32 / 255.0 - 0.537).abs() < 0.01);
    assert_eq!(theme.accent_rgb, [0x89, 0xb4, 0xfa]);
    assert_eq!(theme.selection, [0x45, 0x47, 0x5a]);
}

#[test]
fn light_mode_from_toml() {
    let theme = ThemeColors::from_toml("mode = \"light\"\naccent = \"#aabbcc\"").unwrap();
    assert_eq!(theme.mode, ColorScheme::PreferLight);
    assert_eq!(parse_hex("#abc"), Some([0xaa, 0xbb, 0xcc]));
}

#[test]
fn hex_forms() {
    assert_eq!(parse_hex("#89b4fa"), Some([0x89, 0xb4, 0xfa]));
    assert_eq!(parse_hex(" 89B4FA "), Some([0x89, 0xb4, 0xfa]));
    assert_eq!(parse_hex("#12345"), None);
    assert_eq!(parse_hex("#gg0000"), None);
    assert_eq!(parse_hex("#a1b2c3d4"), None);
}

#[test]
fn toml_errors() {
    assert_eq!(ThemeColors::from_toml("= nope").unwrap_err(), ThemeTextError::NotToml);
    assert_eq!(ThemeColors::from_toml("accent = \"#aéaé\"").unwrap_err(), ThemeTextError::UnreadableColor);
    let t = ThemeColors::from_toml("accent = \"#12\"\nlighter_background = \"#010203\"\nselection = \"zz\"").unwrap();
    assert_eq!(t.accent_rgb, ThemeColors::default_colors().accent_rgb);
    assert_eq!(t.selection, [1, 2, 3]);
}

#[test]
fn missing_keys_keep_defaults() {
    let d = ThemeColors::default_colors();
    let t = ThemeColors::from_toml("").unwrap();
    assert_eq!(t, d);
    assert_eq!(t.mode, ColorScheme::PreferDark);
    assert_eq!(ColorScheme::PreferLight.color_scheme_u32(), 2);
    assert_eq!(ColorScheme::NoPreference.color_scheme_u32(), 0);
}

#[test]
fn gtk_settings_lookup() {
    let texts = vec![
        None,
        Some("[Settings]\ngtk-icon-theme-name= Papirus \n".to_string()),
        Some("gtk-icon-theme-name=Other\n".to_string()),
    ];
    assert_eq!(gtk_ini_value(&texts, "gtk-icon-theme-name").as_deref(), Some("Papirus"));
    assert_eq!(gtk_ini_value(&texts, "gtk-font-name"), None);
    assert_eq!(icon_theme_name(Some(" Yaru-blue \n"), &texts), "Yaru-blue");
    assert_eq!(icon_theme_name(None, &texts), "Papirus");
    assert_eq!(icon_theme_name(None, &vec![]), "hicolor");
}

#[test]
fn appearance_watch_list_and_stamp() {
    let files = appearance_files("/t", "/c");
    assert!(files.contains(&"/t/colors.toml".to_string()));
    assert_eq!(appearance_stamp(&vec![]), appearance_stamp(&vec![]));
    assert_ne!(appearance_stamp(&vec![1]), appearance_stamp(&vec![2]));
}
