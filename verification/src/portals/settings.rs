//! The Settings portal: which settings are served, which namespaces a read
//! asks for, and which settings a theme change touches.
use crate::text::{has_prefix, starts_with, str_eq, strip_suffix};
use crate::theme::ColorScheme;
use vstd::prelude::*;

verus! {

pub const APPEARANCE: &'static str = "org.freedesktop.appearance";

pub const GNOME_INTERFACE: &'static str = "org.gnome.desktop.interface";

/// Whether one namespace pattern matches: `prefix*` matches namespaces
/// starting with `prefix`, anything else only itself.
pub open spec fn pattern_matches(pattern: Seq<char>, namespace: Seq<char>) -> bool {
    if pattern.len() > 0 && pattern.last() == '*' {
        has_prefix(namespace, pattern.drop_last())
    } else {
        pattern == namespace
    }
}

/// Whether a `ReadAll` with these patterns asks for `namespace`: no
/// patterns, or an empty one, ask for everything.
pub open spec fn namespace_matches_spec(patterns: Seq<Seq<char>>, namespace: Seq<char>) -> bool {
    ||| patterns.len() == 0
    ||| exists|i: int| 0 <= i < patterns.len() && #[trigger] patterns[i].len() == 0
    ||| exists|i: int| 0 <= i < patterns.len() && #[trigger] pattern_matches(patterns[i], namespace)
}

/// Whether a `ReadAll` with these patterns asks for `namespace`.
pub fn namespace_matches(patterns: &[&str], namespace: &str) -> (out: bool)
    ensures
        out == namespace_matches_spec(patterns@.map_values(|p: &str| p@), namespace@),
{
    let ghost pv = patterns@.map_values(|p: &str| p@);
    if patterns.len() == 0 {
        return true;
    }
    let mut i: usize = 0;
    while i < patterns.len()
        invariant
            i <= patterns.len(),
            pv == patterns@.map_values(|p: &str| p@),
            forall|k: int| 0 <= k < i ==> pv[k].len() > 0,
        decreases patterns.len() - i,
    {
        proof {
            assert(pv[i as int] == patterns@[i as int]@);
        }
        if patterns[i].is_empty() {
            proof {
                assert(pv[i as int].len() == 0);
            }
            return true;
        }
        i += 1;
    }
    let mut j: usize = 0;
    while j < patterns.len()
        invariant
            j <= patterns.len(),
            pv == patterns@.map_values(|p: &str| p@),
            forall|k: int| 0 <= k < patterns.len() ==> pv[k].len() > 0,
            forall|k: int| 0 <= k < j ==> !pattern_matches(#[trigger] pv[k], namespace@),
        decreases patterns.len() - j,
    {
        proof {
            assert(pv[j as int] == patterns@[j as int]@);
        }
        let p = patterns[j];
        let m = match strip_suffix(p, "*") {
            Some(prefix) => starts_with(namespace, prefix.as_str()),
            None => str_eq(p, namespace),
        };
        proof {
            reveal_strlit("*");
            let pj = pv[j as int];
            assert("*"@ =~= seq!['*']);
            if pj.len() > 0 && pj.last() == '*' {
                assert(pj.subrange(pj.len() - 1, pj.len() as int) =~= seq!['*']);
                assert(crate::text::has_suffix(pj, "*"@));
                assert(pj.subrange(0, pj.len() - 1) =~= pj.drop_last());
            } else {
                if crate::text::has_suffix(pj, "*"@) {
                    assert(pj.subrange(pj.len() - 1, pj.len() as int)[0] == pj.last());
                }
            }
        }
        if m {
            proof {
                assert(pattern_matches(pv[j as int], namespace@));
            }
            return true;
        }
        j += 1;
    }
    false
}

/// A setting the portal serves.
#[derive(Clone, Copy, Debug, PartialEq, Eq, Structural)]
pub enum Setting {
    ColorScheme,
    AccentColor,
    Contrast,
    ReducedMotion,
    GnomeColorScheme,
    GtkTheme,
    IconTheme,
    FontName,
    TextScalingFactor,
}

/// The setting read as `key` in `namespace`, if it is one served.
pub open spec fn setting_spec(namespace: Seq<char>, key: Seq<char>) -> Option<Setting> {
    if namespace == APPEARANCE@ {
        if key == "color-scheme"@ {
            Some(Setting::ColorScheme)
        } else if key == "accent-color"@ {
            Some(Setting::AccentColor)
        } else if key == "contrast"@ {
            Some(Setting::Contrast)
        } else if key == "reduced-motion"@ {
            Some(Setting::ReducedMotion)
        } else {
            None
        }
    } else if namespace == GNOME_INTERFACE@ {
        if key == "color-scheme"@ {
            Some(Setting::GnomeColorScheme)
        } else if key == "gtk-theme"@ {
            Some(Setting::GtkTheme)
        } else if key == "icon-theme"@ {
            Some(Setting::IconTheme)
        } else if key == "font-name"@ {
            Some(Setting::FontName)
        } else if key == "text-scaling-factor"@ {
            Some(Setting::TextScalingFactor)
        } else {
            None
        }
    } else {
        None
    }
}

/// The setting read as `key` in `namespace`; `None` for an unknown one.
pub fn setting_for(namespace: &str, key: &str) -> (out: Option<Setting>)
    ensures
        out == setting_spec(namespace@, key@),
{
    if str_eq(namespace, APPEARANCE) {
        if str_eq(key, "color-scheme") {
            Some(Setting::ColorScheme)
        } else if str_eq(key, "accent-color") {
            Some(Setting::AccentColor)
        } else if str_eq(key, "contrast") {
            Some(Setting::Contrast)
        } else if str_eq(key, "reduced-motion") {
            Some(Setting::ReducedMotion)
        } else {
            None
        }
    } else if str_eq(namespace, GNOME_INTERFACE) {
        if str_eq(key, "color-scheme") {
            Some(Setting::GnomeColorScheme)
        } else if str_eq(key, "gtk-theme") {
            Some(Setting::GtkTheme)
        } else if str_eq(key, "icon-theme") {
            Some(Setting::IconTheme)
        } else if str_eq(key, "font-name") {
            Some(Setting::FontName)
        } else if str_eq(key, "text-scaling-factor") {
            Some(Setting::TextScalingFactor)
        } else {
            None
        }
    } else {
        None
    }
}

impl Setting {
    /// The namespace and key a setting is read as.
    pub open spec fn address(self) -> (Seq<char>, Seq<char>) {
        match self {
            Setting::ColorScheme => (APPEARANCE@, "color-scheme"@),
            Setting::AccentColor => (APPEARANCE@, "accent-color"@),
            Setting::Contrast => (APPEARANCE@, "contrast"@),
            Setting::ReducedMotion => (APPEARANCE@, "reduced-motion"@),
            Setting::GnomeColorScheme => (GNOME_INTERFACE@, "color-scheme"@),
            Setting::GtkTheme => (GNOME_INTERFACE@, "gtk-theme"@),
            Setting::IconTheme => (GNOME_INTERFACE@, "icon-theme"@),
            Setting::FontName => (GNOME_INTERFACE@, "font-name"@),
            Setting::TextScalingFactor => (GNOME_INTERFACE@, "text-scaling-factor"@),
        }
    }

    /// The namespace and key of the setting.
    pub fn namespace_and_key(&self) -> (out: (&'static str, &'static str))
        ensures
            (out.0@, out.1@) == self.address(),
    {
        match self {
            Setting::ColorScheme => (APPEARANCE, "color-scheme"),
            Setting::AccentColor => (APPEARANCE, "accent-color"),
            Setting::Contrast => (APPEARANCE, "contrast"),
            Setting::ReducedMotion => (APPEARANCE, "reduced-motion"),
            Setting::GnomeColorScheme => (GNOME_INTERFACE, "color-scheme"),
            Setting::GtkTheme => (GNOME_INTERFACE, "gtk-theme"),
            Setting::IconTheme => (GNOME_INTERFACE, "icon-theme"),
            Setting::FontName => (GNOME_INTERFACE, "font-name"),
            Setting::TextScalingFactor => (GNOME_INTERFACE, "text-scaling-factor"),
        }
    }
}

/// Every setting served, namespace by namespace, in the order `ReadAll`
/// lists them.
pub open spec fn served() -> Seq<Setting> {
    seq![
        Setting::ColorScheme,
        Setting::AccentColor,
        Setting::Contrast,
        Setting::ReducedMotion,
        Setting::GnomeColorScheme,
        Setting::GtkTheme,
        Setting::IconTheme,
        Setting::FontName,
        Setting::TextScalingFactor,
    ]
}

/// Each setting served is found again by its namespace and key.
pub proof fn law_settings_found_by_address(i: int)
    requires
        0 <= i < served().len(),
    ensures
        setting_spec(served()[i].address().0, served()[i].address().1) == Some(served()[i]),
{
    reveal_strlit("org.freedesktop.appearance");
    reveal_strlit("org.gnome.desktop.interface");
    reveal_strlit("color-scheme");
    reveal_strlit("accent-color");
    reveal_strlit("contrast");
    reveal_strlit("reduced-motion");
    reveal_strlit("gtk-theme");
    reveal_strlit("icon-theme");
    reveal_strlit("font-name");
    reveal_strlit("text-scaling-factor");
    assert(APPEARANCE@.len() != GNOME_INTERFACE@.len());
    assert("accent-color"@[0] != "color-scheme"@[0]);
    assert("contrast"@.len() == 8);
    assert("color-scheme"@.len() == 12);
    assert("accent-color"@.len() == 12);
    assert("reduced-motion"@.len() == 14);
    assert("font-name"@[0] != "gtk-theme"@[0]);
    assert("font-name"@[0] != "icon-theme"@[0]);
    assert(APPEARANCE@ == "org.freedesktop.appearance"@);
    assert(served()[0] == Setting::ColorScheme);
    assert(setting_spec(APPEARANCE@, "color-scheme"@) == Some(Setting::ColorScheme));
    assert(setting_spec(GNOME_INTERFACE@, "text-scaling-factor"@) == Some(Setting::TextScalingFactor));
    if i == 0 {
        assert(served()[0] == Setting::ColorScheme);
        assert(setting_spec(Setting::ColorScheme.address().0, Setting::ColorScheme.address().1) == Some(Setting::ColorScheme));
    } else if i == 1 {
        assert(served()[1] == Setting::AccentColor);
        assert(setting_spec(Setting::AccentColor.address().0, Setting::AccentColor.address().1) == Some(Setting::AccentColor));
    } else if i == 2 {
        assert(served()[2] == Setting::Contrast);
        assert(setting_spec(Setting::Contrast.address().0, Setting::Contrast.address().1) == Some(Setting::Contrast));
    } else if i == 3 {
        assert(served()[3] == Setting::ReducedMotion);
        assert(setting_spec(Setting::ReducedMotion.address().0, Setting::ReducedMotion.address().1) == Some(Setting::ReducedMotion));
    } else if i == 4 {
        assert(served()[4] == Setting::GnomeColorScheme);
        assert(setting_spec(Setting::GnomeColorScheme.address().0, Setting::GnomeColorScheme.address().1) == Some(Setting::GnomeColorScheme));
    } else if i == 5 {
        assert(served()[5] == Setting::GtkTheme);
        assert(setting_spec(Setting::GtkTheme.address().0, Setting::GtkTheme.address().1) == Some(Setting::GtkTheme));
    } else if i == 6 {
        assert(served()[6] == Setting::IconTheme);
        assert(setting_spec(Setting::IconTheme.address().0, Setting::IconTheme.address().1) == Some(Setting::IconTheme));
    } else if i == 7 {
        assert(served()[7] == Setting::FontName);
        assert(setting_spec(Setting::FontName.address().0, Setting::FontName.address().1) == Some(Setting::FontName));
    } else {
        assert(served()[8] == Setting::TextScalingFactor);
        assert(setting_spec(Setting::TextScalingFactor.address().0, Setting::TextScalingFactor.address().1) == Some(Setting::TextScalingFactor));
    }
}

/// The settings a `ReadAll` with these patterns returns.
pub fn settings_to_read(patterns: &[&str]) -> (out: Vec<Setting>)
    ensures
        out@ == (if namespace_matches_spec(patterns@.map_values(|p: &str| p@), APPEARANCE@) {
            served().take(4)
        } else {
            Seq::empty()
        }) + (if namespace_matches_spec(patterns@.map_values(|p: &str| p@), GNOME_INTERFACE@) {
            served().skip(4)
        } else {
            Seq::empty()
        }),
{
    let mut out: Vec<Setting> = Vec::new();
    if namespace_matches(patterns, APPEARANCE) {
        out.push(Setting::ColorScheme);
        out.push(Setting::AccentColor);
        out.push(Setting::Contrast);
        out.push(Setting::ReducedMotion);
    }
    let ghost first = out@;
    if namespace_matches(patterns, GNOME_INTERFACE) {
        out.push(Setting::GnomeColorScheme);
        out.push(Setting::GtkTheme);
        out.push(Setting::IconTheme);
        out.push(Setting::FontName);
        out.push(Setting::TextScalingFactor);
    }
    proof {
        assert(served().take(4) =~= seq![
            Setting::ColorScheme,
            Setting::AccentColor,
            Setting::Contrast,
            Setting::ReducedMotion,
        ]);
        assert(served().skip(4) =~= seq![
            Setting::GnomeColorScheme,
            Setting::GtkTheme,
            Setting::IconTheme,
            Setting::FontName,
            Setting::TextScalingFactor,
        ]);
        assert(out@ =~= first + (if namespace_matches_spec(
            patterns@.map_values(|p: &str| p@),
            GNOME_INTERFACE@,
        ) {
            served().skip(4)
        } else {
            Seq::empty()
        }));
    }
    out
}

/// GNOME's `color-scheme` value for a scheme.
pub fn gnome_color_scheme(mode: ColorScheme) -> (out: &'static str)
    ensures
        out@ == if mode == ColorScheme::PreferLight {
            "prefer-light"@
        } else {
            "prefer-dark"@
        },
{
    match mode {
        ColorScheme::PreferLight => "prefer-light",
        _ => "prefer-dark",
    }
}

/// What the settings are computed from, apart from the font size.
pub struct SettingsSnapshot {
    pub mode: ColorScheme,
    pub accent_rgb: [u8; 3],
    pub icon_theme: String,
    pub gtk_theme: String,
    pub font_family: String,
}

/// The settings whose value changes between two themes, in the order the
/// change signals are sent. `font_size_moved` tells whether the font size
/// moved by more than a hundredth of a point.
pub open spec fn changes_spec(prev: SettingsSnapshot, next: SettingsSnapshot, font_size_moved: bool) -> Seq<
    Setting,
> {
    (if prev.mode != next.mode {
        seq![Setting::ColorScheme, Setting::GnomeColorScheme]
    } else {
        Seq::empty()
    }) + (if prev.accent_rgb@ != next.accent_rgb@ {
        seq![Setting::AccentColor]
    } else {
        Seq::empty()
    }) + (if prev.icon_theme@ != next.icon_theme@ {
        seq![Setting::IconTheme]
    } else {
        Seq::empty()
    }) + (if prev.gtk_theme@ != next.gtk_theme@ {
        seq![Setting::GtkTheme]
    } else {
        Seq::empty()
    }) + (if prev.font_family@ != next.font_family@ || font_size_moved {
        seq![Setting::FontName, Setting::TextScalingFactor]
    } else {
        Seq::empty()
    })
}

/// The settings to signal after the theme changed.
pub fn theme_changes(prev: &SettingsSnapshot, next: &SettingsSnapshot, font_size_moved: bool) -> (out:
    Vec<Setting>)
    ensures
        out@ == changes_spec(*prev, *next, font_size_moved),
{
    let mut out: Vec<Setting> = Vec::new();
    let ghost s0 = out@;
    if prev.mode != next.mode {
        out.push(Setting::ColorScheme);
        out.push(Setting::GnomeColorScheme);
    }
    let ghost s1 = out@;
    let same_accent = prev.accent_rgb[0] == next.accent_rgb[0] && prev.accent_rgb[1]
        == next.accent_rgb[1] && prev.accent_rgb[2] == next.accent_rgb[2];
    proof {
        if same_accent {
            assert(prev.accent_rgb@ =~= next.accent_rgb@);
        }
    }
    if !same_accent {
        out.push(Setting::AccentColor);
    }
    let ghost s2 = out@;
    if !str_eq(prev.icon_theme.as_str(), next.icon_theme.as_str()) {
        out.push(Setting::IconTheme);
    }
    let ghost s3 = out@;
    if !str_eq(prev.gtk_theme.as_str(), next.gtk_theme.as_str()) {
        out.push(Setting::GtkTheme);
    }
    let ghost s4 = out@;
    if !str_eq(prev.font_family.as_str(), next.font_family.as_str()) || font_size_moved {
        out.push(Setting::FontName);
        out.push(Setting::TextScalingFactor);
    }
    proof {
        assert(out@ =~= changes_spec(*prev, *next, font_size_moved));
    }
    out
}

proof fn lemma_concat_contains(x: Seq<Setting>, y: Seq<Setting>, v: Setting)
    ensures
        (x + y).contains(v) <==> x.contains(v) || y.contains(v),
        x.no_duplicates() && y.no_duplicates() && (forall|k: int| 0 <= k < y.len() ==> !x.contains(#[trigger] y[k]))
            ==> (x + y).no_duplicates(),
{
    let z = x + y;
    if x.contains(v) {
        let i = choose|i: int| 0 <= i < x.len() && x[i] == v;
        assert(z[i] == v);
    }
    if y.contains(v) {
        let j = choose|j: int| 0 <= j < y.len() && y[j] == v;
        assert(z[x.len() + j] == v);
    }
    if z.contains(v) {
        let k = choose|k: int| 0 <= k < z.len() && z[k] == v;
        if k < x.len() {
            assert(x[k] == v);
        } else {
            assert(y[k - x.len()] == v);
        }
    }
    if x.no_duplicates() && y.no_duplicates() && (forall|k: int| 0 <= k < y.len() ==> !x.contains(#[trigger] y[k])) {
        assert forall|i: int, j: int| 0 <= i < z.len() && 0 <= j < z.len() && i != j implies z[i] != z[j] by {
            if i < x.len() && j >= x.len() {
                assert(z[j] == y[j - x.len()]);
                assert(!x.contains(y[j - x.len()]));
            } else if j < x.len() && i >= x.len() {
                assert(z[i] == y[i - x.len()]);
                assert(!x.contains(y[i - x.len()]));
            }
        }
    }
}

/// Membership in each part of the change list.
proof fn lemma_change_members(prev: SettingsSnapshot, next: SettingsSnapshot, font_size_moved: bool, v: Setting)
    ensures
        ({
            let a = if prev.mode != next.mode {
                seq![Setting::ColorScheme, Setting::GnomeColorScheme]
            } else {
                Seq::empty()
            };
            let b = if prev.accent_rgb@ != next.accent_rgb@ {
                seq![Setting::AccentColor]
            } else {
                Seq::empty()
            };
            let i = if prev.icon_theme@ != next.icon_theme@ {
                seq![Setting::IconTheme]
            } else {
                Seq::empty()
            };
            let g = if prev.gtk_theme@ != next.gtk_theme@ {
                seq![Setting::GtkTheme]
            } else {
                Seq::empty()
            };
            let f = if prev.font_family@ != next.font_family@ || font_size_moved {
                seq![Setting::FontName, Setting::TextScalingFactor]
            } else {
                Seq::empty()
            };
            &&& changes_spec(prev, next, font_size_moved).contains(v) <==> a.contains(v) || b.contains(v)
                || i.contains(v) || g.contains(v) || f.contains(v)
            &&& a.contains(v) <==> (prev.mode != next.mode && (v == Setting::ColorScheme || v
                == Setting::GnomeColorScheme))
            &&& b.contains(v) <==> (prev.accent_rgb@ != next.accent_rgb@ && v == Setting::AccentColor)
            &&& i.contains(v) <==> (prev.icon_theme@ != next.icon_theme@ && v == Setting::IconTheme)
            &&& g.contains(v) <==> (prev.gtk_theme@ != next.gtk_theme@ && v == Setting::GtkTheme)
            &&& f.contains(v) <==> ((prev.font_family@ != next.font_family@ || font_size_moved) && (v
                == Setting::FontName || v == Setting::TextScalingFactor))
        }),
{
    let a = if prev.mode != next.mode {
        seq![Setting::ColorScheme, Setting::GnomeColorScheme]
    } else {
        Seq::empty()
    };
    let b = if prev.accent_rgb@ != next.accent_rgb@ {
        seq![Setting::AccentColor]
    } else {
        Seq::empty()
    };
    let i = if prev.icon_theme@ != next.icon_theme@ {
        seq![Setting::IconTheme]
    } else {
        Seq::empty()
    };
    let g = if prev.gtk_theme@ != next.gtk_theme@ {
        seq![Setting::GtkTheme]
    } else {
        Seq::empty()
    };
    let f = if prev.font_family@ != next.font_family@ || font_size_moved {
        seq![Setting::FontName, Setting::TextScalingFactor]
    } else {
        Seq::empty()
    };
    assert(changes_spec(prev, next, font_size_moved) == a + b + i + g + f);
    lemma_concat_contains(a, b, v);
    lemma_concat_contains(a + b, i, v);
    lemma_concat_contains(a + b + i, g, v);
    lemma_concat_contains(a + b + i + g, f, v);
    if prev.mode != next.mode {
        assert(a[0] == Setting::ColorScheme);
        assert(a[1] == Setting::GnomeColorScheme);
    }
    if prev.font_family@ != next.font_family@ || font_size_moved {
        assert(f[0] == Setting::FontName);
        assert(f[1] == Setting::TextScalingFactor);
    }
    if prev.accent_rgb@ != next.accent_rgb@ {
        assert(b[0] == Setting::AccentColor);
    }
    if prev.icon_theme@ != next.icon_theme@ {
        assert(i[0] == Setting::IconTheme);
    }
    if prev.gtk_theme@ != next.gtk_theme@ {
        assert(g[0] == Setting::GtkTheme);
    }
}

/// Which settings a theme change signals: the colour scheme (both its
/// keys) exactly when the mode changed, the accent colour exactly when the
/// accent colours differ, the icon and GTK themes exactly when their names
/// differ, the font (name and scaling) exactly when the family changed or
/// the size moved; never the contrast or reduced-motion settings, and each
/// setting at most once. The same theme twice signals nothing.
pub proof fn law_changes_follow_differences(prev: SettingsSnapshot, next: SettingsSnapshot, font_size_moved: bool)
    ensures
        ({
            let c = changes_spec(prev, next, font_size_moved);
            &&& c.contains(Setting::AccentColor) <==> prev.accent_rgb@ != next.accent_rgb@
            &&& c.contains(Setting::ColorScheme) <==> prev.mode != next.mode
            &&& c.contains(Setting::GnomeColorScheme) <==> prev.mode != next.mode
            &&& c.contains(Setting::IconTheme) <==> prev.icon_theme@ != next.icon_theme@
            &&& c.contains(Setting::GtkTheme) <==> prev.gtk_theme@ != next.gtk_theme@
            &&& c.contains(Setting::FontName) <==> prev.font_family@ != next.font_family@ || font_size_moved
            &&& c.contains(Setting::TextScalingFactor) <==> prev.font_family@ != next.font_family@
                || font_size_moved
            &&& !c.contains(Setting::Contrast)
            &&& !c.contains(Setting::ReducedMotion)
            &&& c.no_duplicates()
        }),
        changes_spec(prev, prev, false).len() == 0,
{
    let a = if prev.mode != next.mode {
        seq![Setting::ColorScheme, Setting::GnomeColorScheme]
    } else {
        Seq::empty()
    };
    let b = if prev.accent_rgb@ != next.accent_rgb@ {
        seq![Setting::AccentColor]
    } else {
        Seq::empty()
    };
    let i = if prev.icon_theme@ != next.icon_theme@ {
        seq![Setting::IconTheme]
    } else {
        Seq::empty()
    };
    let g = if prev.gtk_theme@ != next.gtk_theme@ {
        seq![Setting::GtkTheme]
    } else {
        Seq::empty()
    };
    let f = if prev.font_family@ != next.font_family@ || font_size_moved {
        seq![Setting::FontName, Setting::TextScalingFactor]
    } else {
        Seq::empty()
    };
    assert(changes_spec(prev, next, font_size_moved) == a + b + i + g + f);
    lemma_change_members(prev, next, font_size_moved, Setting::AccentColor);
    lemma_change_members(prev, next, font_size_moved, Setting::ColorScheme);
    lemma_change_members(prev, next, font_size_moved, Setting::GnomeColorScheme);
    lemma_change_members(prev, next, font_size_moved, Setting::IconTheme);
    lemma_change_members(prev, next, font_size_moved, Setting::GtkTheme);
    lemma_change_members(prev, next, font_size_moved, Setting::FontName);
    lemma_change_members(prev, next, font_size_moved, Setting::TextScalingFactor);
    lemma_change_members(prev, next, font_size_moved, Setting::Contrast);
    lemma_change_members(prev, next, font_size_moved, Setting::ReducedMotion);
    assert(a.no_duplicates());
    assert(f.no_duplicates());
    assert forall|k: int| 0 <= k < b.len() implies !a.contains(#[trigger] b[k]) by {
        lemma_change_members(prev, next, font_size_moved, b[k]);
    }
    lemma_concat_contains(a, b, Setting::Contrast);
    assert forall|k: int| 0 <= k < i.len() implies !(a + b).contains(#[trigger] i[k]) by {
        lemma_change_members(prev, next, font_size_moved, i[k]);
        lemma_concat_contains(a, b, i[k]);
    }
    lemma_concat_contains(a + b, i, Setting::Contrast);
    assert forall|k: int| 0 <= k < g.len() implies !(a + b + i).contains(#[trigger] g[k]) by {
        lemma_change_members(prev, next, font_size_moved, g[k]);
        lemma_concat_contains(a, b, g[k]);
        lemma_concat_contains(a + b, i, g[k]);
    }
    lemma_concat_contains(a + b + i, g, Setting::Contrast);
    assert forall|k: int| 0 <= k < f.len() implies !(a + b + i + g).contains(#[trigger] f[k]) by {
        lemma_change_members(prev, next, font_size_moved, f[k]);
        lemma_concat_contains(a, b, f[k]);
        lemma_concat_contains(a + b, i, f[k]);
        lemma_concat_contains(a + b + i, g, f[k]);
    }
    lemma_concat_contains(a + b + i + g, f, Setting::Contrast);
    assert(changes_spec(prev, prev, false) =~= Seq::<Setting>::empty());
}

/// The interface version.
pub fn version() -> (out: u32)
    ensures
        out == 2,
{
    2
}

} // verus!
