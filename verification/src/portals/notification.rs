//! The Notification portal, forwarded to `org.freedesktop.Notifications`:
//! the hints and actions sent, the icons, the table of live notifications
//! and where an invoked action goes.
use crate::assoc::{assoc, keys_unique, lemma_assoc_domain, lemma_assoc_index, lemma_assoc_push, lemma_assoc_remove};
use crate::text::{concat, has_prefix, starts_with, str_eq, strip_prefix, trim, trim_str, chars_of};
use vstd::prelude::*;

verus! {

// ---------------------------------------------------------------------------
// What is sent
// ---------------------------------------------------------------------------
/// The FDO urgency of a portal priority: `low` 0, `high` and `urgent` 2,
/// anything else (the default being `normal`) 1.
pub fn urgency(priority: Option<&str>) -> (out: u8)
    ensures
        out == match priority {
            Some(p) => if p@ == "low"@ {
                0u8
            } else if p@ == "high"@ || p@ == "urgent"@ {
                2u8
            } else {
                1u8
            },
            None => 1u8,
        },
{
    match priority {
        Some(p) => if str_eq(p, "low") {
            0
        } else if str_eq(p, "high") || str_eq(p, "urgent") {
            2
        } else {
            1
        },
        None => 1,
    }
}

/// The summary: the title, or the application id.
pub fn notification_title(title: Option<String>, app_id: &str) -> (out: String)
    ensures
        out@ == match title {
            Some(t) => t@,
            None => app_id@,
        },
{
    match title {
        Some(t) => t,
        None => app_id.to_owned(),
    }
}

/// The body: the plain body, else the markup body, else nothing.
pub fn notification_body(body: Option<String>, markup_body: Option<String>) -> (out: String)
    ensures
        out@ == match body {
            Some(b) => b@,
            None => match markup_body {
                Some(m) => m@,
                None => Seq::empty(),
            },
        },
{
    match body {
        Some(b) => b,
        None => match markup_body {
            Some(m) => m,
            None => String::new(),
        },
    }
}

/// Whether the display hints ask for a persistent notification.
pub fn is_persistent(hints: &Vec<String>) -> (out: bool)
    ensures
        out == exists|i: int| 0 <= i < hints.len() && #[trigger] hints@[i]@ == "persistent"@,
{
    let mut i: usize = 0;
    while i < hints.len()
        invariant
            i <= hints.len(),
            forall|k: int| 0 <= k < i ==> hints@[k]@ != "persistent"@,
        decreases hints.len() - i,
    {
        if str_eq(hints[i].as_str(), "persistent") {
            return true;
        }
        i += 1;
    }
    false
}

/// The FDO expiry: never for a persistent notification, the server's
/// default otherwise.
pub fn expire_timeout(persistent: bool) -> (out: i32)
    ensures
        out == if persistent {
            0i32
        } else {
            -1i32
        },
{
    if persistent {
        0
    } else {
        -1
    }
}

/// The FDO application name: the id, or `portal` without one.
pub fn fdo_app_name(app_id: &str) -> (out: String)
    ensures
        out@ == if app_id@.len() == 0 {
            "portal"@
        } else {
            app_id@
        },
{
    if app_id.is_empty() {
        "portal".to_owned()
    } else {
        app_id.to_owned()
    }
}

/// The value of an FDO hint.
#[derive(Clone, Debug, PartialEq, Eq)]
pub enum HintValue {
    Byte(u8),
    Text(String),
    Flag(bool),
}

/// The abstract value of a hint.
pub enum HintSpec {
    Byte(u8),
    Text(Seq<char>),
    Flag(bool),
}

pub open spec fn hint_view(h: (String, HintValue)) -> (Seq<char>, HintSpec) {
    (
        h.0@,
        match h.1 {
            HintValue::Byte(b) => HintSpec::Byte(b),
            HintValue::Text(t) => HintSpec::Text(t@),
            HintValue::Flag(f) => HintSpec::Flag(f),
        },
    )
}

/// The hints sent with a notification: its urgency and desktop entry, the
/// two persistence hints for a persistent one, and the image file when
/// there is one.
pub open spec fn hints_spec(app_id: Seq<char>, urgency: u8, persistent: bool, image_path: Option<Seq<char>>) -> Seq<
    (Seq<char>, HintSpec),
> {
    seq![("urgency"@, HintSpec::Byte(urgency)), ("desktop-entry"@, HintSpec::Text(app_id))] + (if persistent {
        seq![("resident"@, HintSpec::Flag(true)), ("persistence"@, HintSpec::Flag(true))]
    } else {
        Seq::empty()
    }) + match image_path {
        Some(p) => seq![("image-path"@, HintSpec::Text(p))],
        None => Seq::empty(),
    }
}

/// The hints of a notification, as [`hints_spec`] lists them.
pub fn notify_hints(app_id: &str, urgency: u8, persistent: bool, image_path: Option<String>) -> (out: Vec<(String, HintValue)>)
    ensures
        out@.map_values(|h: (String, HintValue)| hint_view(h)) == hints_spec(
            app_id@,
            urgency,
            persistent,
            crate::paths::opt_view(image_path),
        ),
{
    let mut out: Vec<(String, HintValue)> = Vec::new();
    out.push(("urgency".to_owned(), HintValue::Byte(urgency)));
    out.push(("desktop-entry".to_owned(), HintValue::Text(app_id.to_owned())));
    if persistent {
        out.push(("resident".to_owned(), HintValue::Flag(true)));
        out.push(("persistence".to_owned(), HintValue::Flag(true)));
    }
    match image_path {
        Some(p) => {
            out.push(("image-path".to_owned(), HintValue::Text(p)));
        },
        None => {},
    }
    proof {
        assert(out@.map_values(|h: (String, HintValue)| hint_view(h)) =~= hints_spec(
            app_id@,
            urgency,
            persistent,
            crate::paths::opt_view(image_path),
        ));
    }
    out
}

/// The arguments of an FDO `Notify` call.
pub struct NotifyCall {
    pub app_name: String,
    pub replaces_id: u32,
    pub app_icon: String,
    pub summary: String,
    pub body: String,
    pub actions: Vec<String>,
    pub hints: Vec<(String, HintValue)>,
    pub expire_timeout: i32,
}

/// The `Notify` call for a notification of `app_id` that replaces the FDO
/// notification `replaces_id` (0 for none): the application name and
/// expiry as [`fdo_app_name`] and [`expire_timeout`] give them, the icon's
/// name (empty without one) with its image file among the hints.
pub fn notify_call(
    app_id: &str,
    replaces_id: u32,
    icon: Option<IconChoice>,
    summary: String,
    body: String,
    actions: Vec<String>,
    urgency: u8,
    persistent: bool,
) -> (out: NotifyCall)
    ensures
        out.app_name@ == (if app_id@.len() == 0 {
            "portal"@
        } else {
            app_id@
        }),
        out.replaces_id == replaces_id,
        out.app_icon@ == match icon {
            Some(c) => c.app_icon@,
            None => Seq::empty(),
        },
        out.summary == summary,
        out.body == body,
        out.actions == actions,
        out.hints@.map_values(|h: (String, HintValue)| hint_view(h)) == hints_spec(
            app_id@,
            urgency,
            persistent,
            match icon {
                Some(c) => crate::paths::opt_view(c.image_path),
                None => None,
            },
        ),
        out.expire_timeout == (if persistent {
            0i32
        } else {
            -1i32
        }),
{
    let (app_icon, image_path) = match icon {
        Some(c) => (c.app_icon, c.image_path),
        None => (String::new(), None),
    };
    NotifyCall {
        app_name: fdo_app_name(app_id),
        replaces_id,
        app_icon,
        summary,
        body,
        actions,
        hints: notify_hints(app_id, urgency, persistent, image_path),
        expire_timeout: expire_timeout(persistent),
    }
}

// ---------------------------------------------------------------------------
// Actions
// ---------------------------------------------------------------------------
/// A button of a portal notification.
#[derive(Clone, Debug)]
pub struct ButtonSpec {
    pub label: String,
    pub action: String,
}

/// Where an action's target parameter comes from.
#[derive(Clone, Copy, Debug, PartialEq, Eq, Structural)]
pub enum ActionSource {
    /// The notification's default action.
    Default,
    /// The button at this index.
    Button(usize),
}

/// A portal action reachable through an FDO action key.
#[derive(Clone, Debug)]
pub struct PortalAction {
    pub key: String,
    pub name: String,
    pub source: ActionSource,
}

pub open spec fn action_view(a: PortalAction) -> (Seq<char>, Seq<char>, ActionSource) {
    (a.key@, a.name@, a.source)
}

/// The FDO key of a button's action: `default` is reserved for a click on
/// the body, so a button action named `default` becomes `portal.default`.
pub open spec fn button_key(action: Seq<char>) -> Seq<char> {
    if action == "default"@ {
        "portal.default"@
    } else {
        action
    }
}

/// The FDO action list and the action table of the buttons from index `n`
/// on: buttons without an action are skipped.
pub open spec fn button_actions(buttons: Seq<(Seq<char>, Seq<char>)>, n: nat) -> (Seq<Seq<char>>, Seq<(Seq<char>, Seq<char>, ActionSource)>)
    decreases n,
{
    if n == 0 {
        (Seq::empty(), Seq::empty())
    } else {
        let (flat, table) = button_actions(buttons, (n - 1) as nat);
        let (label, action) = buttons[n - 1];
        if action.len() == 0 {
            (flat, table)
        } else {
            (
                flat + seq![button_key(action), label],
                table.push((button_key(action), action, ActionSource::Button((n - 1) as usize))),
            )
        }
    }
}

/// The FDO action list (key, label, key, label, ...) and the action table:
/// the default action first under the key `default` (with an empty label),
/// then each button with an action.
pub open spec fn actions_spec(default_action: Option<Seq<char>>, buttons: Seq<(Seq<char>, Seq<char>)>) -> (Seq<Seq<char>>, Seq<(Seq<char>, Seq<char>, ActionSource)>) {
    let (bf, bt) = button_actions(buttons, buttons.len());
    match default_action {
        Some(d) => (seq!["default"@, Seq::empty()] + bf, seq![("default"@, d, ActionSource::Default)] + bt),
        None => (bf, bt),
    }
}

pub open spec fn buttons_view(b: Seq<ButtonSpec>) -> Seq<(Seq<char>, Seq<char>)> {
    b.map_values(|x: ButtonSpec| (x.label@, x.action@))
}

/// The FDO action list and the action table for a notification.
pub fn action_table(default_action: Option<String>, buttons: &Vec<ButtonSpec>) -> (out: (Vec<String>, Vec<PortalAction>))
    ensures
        (out.0@.map_values(|s: String| s@), out.1@.map_values(|a: PortalAction| action_view(a)))
            == actions_spec(crate::paths::opt_view(default_action), buttons_view(buttons@)),
{
    let ghost bv = buttons_view(buttons@);
    let mut flat: Vec<String> = Vec::new();
    let mut table: Vec<PortalAction> = Vec::new();
    match default_action {
        Some(d) => {
            flat.push("default".to_owned());
            flat.push(String::new());
            table.push(PortalAction { key: "default".to_owned(), name: d, source: ActionSource::Default });
        },
        None => {},
    }
    let ghost f0 = flat@.map_values(|s: String| s@);
    let ghost t0 = table@.map_values(|a: PortalAction| action_view(a));
    let mut i: usize = 0;
    while i < buttons.len()
        invariant
            i <= buttons.len(),
            bv == buttons_view(buttons@),
            flat@.map_values(|s: String| s@) == f0 + button_actions(bv, i as nat).0,
            table@.map_values(|a: PortalAction| action_view(a)) == t0 + button_actions(bv, i as nat).1,
        decreases buttons.len() - i,
    {
        proof {
            assert(bv[i as int] == (buttons@[i as int].label@, buttons@[i as int].action@));
        }
        let b = &buttons[i];
        if !b.action.as_str().is_empty() {
            let key = if str_eq(b.action.as_str(), "default") {
                "portal.default".to_owned()
            } else {
                b.action.clone()
            };
            let ghost fb = flat@.map_values(|s: String| s@);
            let ghost tb = table@.map_values(|a: PortalAction| action_view(a));
            flat.push(key.clone());
            flat.push(b.label.clone());
            table.push(PortalAction { key, name: b.action.clone(), source: ActionSource::Button(i) });
            proof {
                assert(flat@.map_values(|s: String| s@) =~= fb + seq![button_key(bv[i as int].1), bv[i as int].0]);
                assert(table@.map_values(|a: PortalAction| action_view(a)) =~= tb.push((button_key(bv[i as int].1), bv[i as int].1, ActionSource::Button(i))));
            }
        }
        i += 1;
    }
    proof {
        assert(bv.len() == buttons.len());
        assert(flat@.map_values(|s: String| s@) =~= actions_spec(crate::paths::opt_view(default_action), bv).0);
        assert(table@.map_values(|a: PortalAction| action_view(a)) =~= actions_spec(crate::paths::opt_view(default_action), bv).1);
    }
    (flat, table)
}

/// The action registered under `key`: the last one, as a map keeps it.
pub open spec fn action_lookup(table: Seq<(Seq<char>, Seq<char>, ActionSource)>, key: Seq<char>) -> Option<(Seq<char>, ActionSource)>
    decreases table.len(),
{
    if table.len() == 0 {
        None
    } else if table.last().0 == key {
        Some((table.last().1, table.last().2))
    } else {
        action_lookup(table.drop_last(), key)
    }
}

/// The portal action invoked through an FDO action key: the one registered,
/// or the key itself without a target.
pub fn resolve_action(table: &Vec<PortalAction>, key: &str) -> (out: (String, Option<ActionSource>))
    ensures
        match action_lookup(table@.map_values(|a: PortalAction| action_view(a)), key@) {
            Some((name, src)) => out.0@ == name && out.1 == Some(src),
            None => out.0@ == key@ && out.1 is None,
        },
{
    let ghost tv = table@.map_values(|a: PortalAction| action_view(a));
    let mut i: usize = table.len();
    proof {
        assert(tv.take(tv.len() as int) =~= tv);
    }
    while i > 0
        invariant
            i <= table.len(),
            tv == table@.map_values(|a: PortalAction| action_view(a)),
            action_lookup(tv, key@) == action_lookup(tv.take(i as int), key@),
        decreases i,
    {
        proof {
            assert(tv.take(i as int).drop_last() =~= tv.take(i - 1));
            assert(tv.take(i as int).last() == action_view(table@[i - 1]));
        }
        if str_eq(table[i - 1].key.as_str(), key) {
            return (table[i - 1].name.clone(), Some(table[i - 1].source));
        }
        i -= 1;
    }
    (key.to_owned(), None)
}

/// Where an invoked action goes.
pub enum ActionRoute {
    /// `app.<id>`: activate the application's action `<id>`.
    AppAction(String),
    /// Activate the application and emit the portal's `ActionInvoked`.
    Portal,
}

/// Every leading `app.` removed (`trim_start_matches("app.")`).
pub open spec fn strip_app(s: Seq<char>) -> Seq<char>
    decreases s.len(),
{
    if s.len() >= 4 && has_prefix(s, "app."@) {
        strip_app(s.subrange(4, s.len() as int))
    } else {
        s
    }
}

/// Where an action goes: names starting with `app.` are application
/// actions.
pub fn route_action(name: &str) -> (out: ActionRoute)
    ensures
        has_prefix(name@, "app."@) ==> (out matches ActionRoute::AppAction(id) && id@ == strip_app(name@)),
        !has_prefix(name@, "app."@) ==> out is Portal,
{
    if !starts_with(name, "app.") {
        return ActionRoute::Portal;
    }
    proof {
        reveal_strlit("app.");
    }
    let mut cur = name.to_owned();
    loop
        invariant
            strip_app(cur@) == strip_app(name@),
            has_prefix(name@, "app."@),
            "app."@.len() == 4,
        decreases cur@.len(),
    {
        match strip_prefix(cur.as_str(), "app.") {
            Some(rest) => {
                cur = rest;
            },
            None => {
                return ActionRoute::AppAction(cur);
            },
        }
    }
}

/// The D-Bus object path of an application (`org.foo-bar` →
/// `/org/foo_bar`).
pub open spec fn object_path_char(c: char) -> char {
    if c == '.' {
        '/'
    } else if c == '-' {
        '_'
    } else {
        c
    }
}

/// The object path of an application id.
pub fn app_object_path(app_id: &str) -> (out: String)
    ensures
        out@ == seq!['/'] + app_id@.map_values(|c: char| object_path_char(c)),
{
    let v = chars_of(app_id);
    let mut out = String::new();
    out.push('/');
    let mut i: usize = 0;
    while i < v.len()
        invariant
            i <= v.len(),
            v@ == app_id@,
            out@ == seq!['/'] + v@.take(i as int).map_values(|c: char| object_path_char(c)),
        decreases v.len() - i,
    {
        let c = v[i];
        out.push(if c == '.' {
            '/'
        } else if c == '-' {
            '_'
        } else {
            c
        });
        proof {
            assert(v@.take(i + 1).map_values(|c: char| object_path_char(c)) =~= v@.take(i as int).map_values(|c: char| object_path_char(c)).push(object_path_char(v@[i as int])));
        }
        i += 1;
    }
    proof {
        assert(v@.take(v@.len() as int) =~= v@);
    }
    out
}

// ---------------------------------------------------------------------------
// Icons
// ---------------------------------------------------------------------------
/// The icon of a notification for the FDO server: a theme icon name, or an
/// image file.
pub struct IconChoice {
    pub app_icon: String,
    pub image_path: Option<String>,
}

/// The icon for a plain string icon: trimmed; a path or `file:` URI is an
/// image (the `file://` prefix taken off), anything else an icon name;
/// nothing when empty.
pub fn icon_from_text(name: &str) -> (out: Option<IconChoice>)
    ensures
        ({
            let t = trim(name@);
            if t.len() == 0 {
                out is None
            } else if has_prefix(t, "/"@) || has_prefix(t, "file:"@) {
                out matches Some(c) && c.app_icon@.len() == 0 && (c.image_path matches Some(p) && p@ == if has_prefix(t, "file://"@) {
                    t.subrange(7, t.len() as int)
                } else {
                    t
                })
            } else {
                out matches Some(c) && c.app_icon@ == t && c.image_path is None
            }
        }),
{
    let t = trim_str(name);
    if t.as_str().is_empty() {
        return None;
    }
    if starts_with(t.as_str(), "/") || starts_with(t.as_str(), "file:") {
        proof {
            reveal_strlit("file://");
        }
        let path = match strip_prefix(t.as_str(), "file://") {
            Some(p) => p,
            None => t.clone(),
        };
        return Some(IconChoice { app_icon: String::new(), image_path: Some(path) });
    }
    Some(IconChoice { app_icon: t, image_path: None })
}

/// The icon for a themed icon: its first name, when there is one and it is
/// not empty.
pub fn icon_from_themed(names: &Vec<String>) -> (out: Option<IconChoice>)
    ensures
        (names.len() > 0 && names@[0]@.len() > 0) ==> (out matches Some(c) && c.app_icon@ == names@[0]@ && c.image_path is None),
        !(names.len() > 0 && names@[0]@.len() > 0) ==> out is None,
{
    if names.len() == 0 || names[0].as_str().is_empty() {
        return None;
    }
    Some(IconChoice { app_icon: names[0].clone(), image_path: None })
}

pub open spec fn starts_with_bytes(b: Seq<u8>, p: Seq<u8>) -> bool {
    p.len() <= b.len() && b.subrange(0, p.len() as int) == p
}

/// The extension of an icon file by its first bytes: PNG, JPEG or SVG
/// (`<svg` or `<?xml`), else `bin`.
pub open spec fn icon_extension_spec(b: Seq<u8>) -> Seq<char> {
    if starts_with_bytes(b, seq![0x89u8, 0x50u8, 0x4eu8, 0x47u8]) {
        "png"@
    } else if starts_with_bytes(b, seq![0xffu8, 0xd8u8, 0xffu8]) {
        "jpg"@
    } else if starts_with_bytes(b, seq![0x3cu8, 0x73u8, 0x76u8, 0x67u8]) || starts_with_bytes(b, seq![0x3cu8, 0x3fu8, 0x78u8, 0x6du8, 0x6cu8]) {
        "svg"@
    } else {
        "bin"@
    }
}

fn bytes_start(b: &[u8], p: &[u8]) -> (out: bool)
    ensures
        out == starts_with_bytes(b@, p@),
{
    if p.len() > b.len() {
        return false;
    }
    let mut i: usize = 0;
    while i < p.len()
        invariant
            i <= p.len() <= b.len(),
            forall|k: int| 0 <= k < i ==> b@[k] == p@[k],
        decreases p.len() - i,
    {
        if b[i] != p[i] {
            proof {
                assert(b@.subrange(0, p@.len() as int)[i as int] != p@[i as int]);
            }
            return false;
        }
        i += 1;
    }
    proof {
        assert(b@.subrange(0, p@.len() as int) =~= p@);
    }
    true
}

/// The extension of a temporary icon file for its bytes.
pub fn icon_extension(b: &[u8]) -> (out: &'static str)
    ensures
        out@ == icon_extension_spec(b@),
{
    let png: [u8; 4] = [0x89, 0x50, 0x4e, 0x47];
    let jpg: [u8; 3] = [0xff, 0xd8, 0xff];
    let svg: [u8; 4] = [0x3c, 0x73, 0x76, 0x67];
    let xml: [u8; 5] = [0x3c, 0x3f, 0x78, 0x6d, 0x6c];
    proof {
        assert(png@ =~= seq![0x89u8, 0x50u8, 0x4eu8, 0x47u8]);
        assert(jpg@ =~= seq![0xffu8, 0xd8u8, 0xffu8]);
        assert(svg@ =~= seq![0x3cu8, 0x73u8, 0x76u8, 0x67u8]);
        assert(xml@ =~= seq![0x3cu8, 0x3fu8, 0x78u8, 0x6du8, 0x6cu8]);
    }
    if bytes_start(b, png.as_slice()) {
        "png"
    } else if bytes_start(b, jpg.as_slice()) {
        "jpg"
    } else if bytes_start(b, svg.as_slice()) || bytes_start(b, xml.as_slice()) {
        "svg"
    } else {
        "bin"
    }
}

// ---------------------------------------------------------------------------
// Live notifications
// ---------------------------------------------------------------------------
/// A notification shown through the FDO server.
pub struct LiveNotif {
    pub fdo_id: u32,
    pub actions: Vec<PortalAction>,
    pub temp_files: Vec<String>,
}

/// A portal notification's key: `(app id, notification id)`.
pub type NotifKey = (Seq<char>, Seq<char>);

pub open spec fn portal_pairs(v: Seq<(String, String, LiveNotif)>) -> Seq<(NotifKey, LiveNotif)> {
    v.map_values(|e: (String, String, LiveNotif)| ((e.0@, e.1@), e.2))
}

pub open spec fn fdo_pairs(v: Seq<(u32, String, String)>) -> Seq<(u32, NotifKey)> {
    v.map_values(|e: (u32, String, String)| (e.0, (e.1@, e.2@)))
}

/// The live notifications, by portal key and by FDO id.
pub struct NotifRegistry {
    by_portal: Vec<(String, String, LiveNotif)>,
    by_fdo: Vec<(u32, String, String)>,
}

/// What recording a notification does to the two maps.
pub open spec fn record_spec(
    p: Map<NotifKey, LiveNotif>,
    f: Map<u32, NotifKey>,
    k: NotifKey,
    l: LiveNotif,
) -> (Map<NotifKey, LiveNotif>, Map<u32, NotifKey>) {
    (p.insert(k, l), f.insert(l.fdo_id, k))
}

/// What withdrawing a notification does to the two maps.
pub open spec fn withdraw_spec(p: Map<NotifKey, LiveNotif>, f: Map<u32, NotifKey>, k: NotifKey) -> (
    Map<NotifKey, LiveNotif>,
    Map<u32, NotifKey>,
) {
    if p.contains_key(k) {
        (p.remove(k), f.remove(p[k].fdo_id))
    } else {
        (p, f)
    }
}

/// What the FDO server closing a notification does to the two maps.
pub open spec fn closed_spec(p: Map<NotifKey, LiveNotif>, f: Map<u32, NotifKey>, id: u32) -> (
    Map<NotifKey, LiveNotif>,
    Map<u32, NotifKey>,
) {
    if f.contains_key(id) {
        (p.remove(f[id]), f.remove(id))
    } else {
        (p, f)
    }
}

/// The notification an FDO action is for, and the portal action: the one
/// registered under the key, or the key itself without a target.
pub open spec fn action_spec(p: Map<NotifKey, LiveNotif>, f: Map<u32, NotifKey>, id: u32, key: Seq<char>) -> Option<
    (NotifKey, Seq<char>, Option<ActionSource>),
> {
    if f.contains_key(id) && p.contains_key(f[id]) {
        let k = f[id];
        match action_lookup(p[k].actions@.map_values(|a: PortalAction| action_view(a)), key) {
            Some((name, src)) => Some((k, name, Some(src))),
            None => Some((k, key, None)),
        }
    } else {
        None
    }
}

impl NotifRegistry {
    pub closed spec fn by_key(&self) -> Map<NotifKey, LiveNotif> {
        assoc(portal_pairs(self.by_portal@))
    }

    pub closed spec fn by_fdo_id(&self) -> Map<u32, NotifKey> {
        assoc(fdo_pairs(self.by_fdo@))
    }

    #[verifier::type_invariant]
    closed spec fn keys_distinct(&self) -> bool {
        keys_unique(portal_pairs(self.by_portal@)) && keys_unique(fdo_pairs(self.by_fdo@))
    }

    /// No live notifications.
    pub fn new() -> (out: NotifRegistry)
        ensures
            out.by_key() == Map::<NotifKey, LiveNotif>::empty(),
            out.by_fdo_id() == Map::<u32, NotifKey>::empty(),
    {
        let out = NotifRegistry { by_portal: Vec::new(), by_fdo: Vec::new() };
        proof {
            assert(portal_pairs(out.by_portal@) =~= Seq::<(NotifKey, LiveNotif)>::empty());
            assert(fdo_pairs(out.by_fdo@) =~= Seq::<(u32, NotifKey)>::empty());
        }
        out
    }

    fn portal_pos(v: &Vec<(String, String, LiveNotif)>, app_id: &str, id: &str) -> (out: Option<usize>)
        ensures
            match out {
                Some(i) => i < v.len() && portal_pairs(v@)[i as int].0 == (app_id@, id@),
                None => forall|k: int| 0 <= k < v.len() ==> #[trigger] portal_pairs(v@)[k].0 != (app_id@, id@),
            },
    {
        let mut i: usize = 0;
        while i < v.len()
            invariant
                i <= v.len(),
                forall|k: int| 0 <= k < i ==> #[trigger] portal_pairs(v@)[k].0 != (app_id@, id@),
            decreases v.len() - i,
        {
            if str_eq(v[i].0.as_str(), app_id) && str_eq(v[i].1.as_str(), id) {
                return Some(i);
            }
            i += 1;
        }
        None
    }

    fn fdo_pos(v: &Vec<(u32, String, String)>, fdo_id: u32) -> (out: Option<usize>)
        ensures
            match out {
                Some(i) => i < v.len() && fdo_pairs(v@)[i as int].0 == fdo_id,
                None => forall|k: int| 0 <= k < v.len() ==> #[trigger] fdo_pairs(v@)[k].0 != fdo_id,
            },
    {
        let mut i: usize = 0;
        while i < v.len()
            invariant
                i <= v.len(),
                forall|k: int| 0 <= k < i ==> #[trigger] fdo_pairs(v@)[k].0 != fdo_id,
            decreases v.len() - i,
        {
            if v[i].0 == fdo_id {
                return Some(i);
            }
            i += 1;
        }
        None
    }

    /// Removes the FDO id from an FDO list with distinct ids.
    fn drop_fdo(v: &mut Vec<(u32, String, String)>, fdo_id: u32) -> (out: Option<(String, String)>)
        requires
            keys_unique(fdo_pairs(old(v)@)),
        ensures
            keys_unique(fdo_pairs(final(v)@)),
            assoc(fdo_pairs(final(v)@)) == assoc(fdo_pairs(old(v)@)).remove(fdo_id),
            match out {
                Some((a, b)) => assoc(fdo_pairs(old(v)@)).contains_key(fdo_id) && assoc(fdo_pairs(old(v)@))[fdo_id] == (a@, b@),
                None => !assoc(fdo_pairs(old(v)@)).contains_key(fdo_id),
            },
    {
        let ghost fv = fdo_pairs(v@);
        proof {
            lemma_assoc_domain(fv, fdo_id);
        }
        match Self::fdo_pos(v, fdo_id) {
            Some(i) => {
                proof {
                    lemma_assoc_index(fv, i as int);
                    lemma_assoc_remove(fv, i as int);
                }
                let (_, a, b) = v.remove(i);
                proof {
                    assert(fdo_pairs(v@) =~= fv.remove(i as int));
                }
                Some((a, b))
            },
            None => {
                proof {
                    assert(assoc(fv).remove(fdo_id) =~= assoc(fv));
                }
                None
            },
        }
    }

    /// Removes a key from a portal list with distinct keys.
    fn drop_portal(v: &mut Vec<(String, String, LiveNotif)>, app_id: &str, id: &str) -> (out: Option<LiveNotif>)
        requires
            keys_unique(portal_pairs(old(v)@)),
        ensures
            keys_unique(portal_pairs(final(v)@)),
            assoc(portal_pairs(final(v)@)) == assoc(portal_pairs(old(v)@)).remove((app_id@, id@)),
            match out {
                Some(l) => assoc(portal_pairs(old(v)@)).contains_key((app_id@, id@)) && assoc(portal_pairs(old(v)@))[(app_id@, id@)] == l,
                None => !assoc(portal_pairs(old(v)@)).contains_key((app_id@, id@)),
            },
    {
        let ghost pv = portal_pairs(v@);
        proof {
            lemma_assoc_domain(pv, (app_id@, id@));
        }
        match Self::portal_pos(v, app_id, id) {
            Some(i) => {
                proof {
                    lemma_assoc_index(pv, i as int);
                    lemma_assoc_remove(pv, i as int);
                }
                let (_, _, l) = v.remove(i);
                proof {
                    assert(portal_pairs(v@) =~= pv.remove(i as int));
                }
                Some(l)
            },
            None => {
                proof {
                    assert(assoc(pv).remove((app_id@, id@)) =~= assoc(pv));
                }
                None
            },
        }
    }

    /// Takes out the notification `(app_id, id)`, if live, and forgets its
    /// FDO id.
    pub fn withdraw(&mut self, app_id: &str, id: &str) -> (out: Option<LiveNotif>)
        ensures
            (final(self).by_key(), final(self).by_fdo_id()) == withdraw_spec(old(self).by_key(), old(self).by_fdo_id(), (app_id@, id@)),
            match out {
                Some(l) => old(self).by_key().contains_key((app_id@, id@)) && l == old(self).by_key()[(app_id@, id@)],
                None => !old(self).by_key().contains_key((app_id@, id@)),
            },
    {
        proof {
            use_type_invariant(&*self);
        }
        let mut p: Vec<(String, String, LiveNotif)> = Vec::new();
        let mut f: Vec<(u32, String, String)> = Vec::new();
        std::mem::swap(&mut p, &mut self.by_portal);
        std::mem::swap(&mut f, &mut self.by_fdo);
        let ghost p0 = assoc(portal_pairs(p@));
        let ghost f0 = assoc(fdo_pairs(f@));
        let out = Self::drop_portal(&mut p, app_id, id);
        match &out {
            Some(l) => {
                let _ = Self::drop_fdo(&mut f, l.fdo_id);
            },
            None => {},
        }
        self.by_portal = p;
        self.by_fdo = f;
        out
    }

    /// Records a notification shown as `live` for `(app_id, id)`.
    pub fn record(&mut self, app_id: &str, id: &str, live: LiveNotif)
        ensures
            (final(self).by_key(), final(self).by_fdo_id()) == record_spec(old(self).by_key(), old(self).by_fdo_id(), (app_id@, id@), live),
    {
        proof {
            use_type_invariant(&*self);
        }
        let mut p: Vec<(String, String, LiveNotif)> = Vec::new();
        let mut f: Vec<(u32, String, String)> = Vec::new();
        std::mem::swap(&mut p, &mut self.by_portal);
        std::mem::swap(&mut f, &mut self.by_fdo);
        let ghost p0 = assoc(portal_pairs(p@));
        let ghost f0 = assoc(fdo_pairs(f@));
        let fdo_id = live.fdo_id;
        let _ = Self::drop_fdo(&mut f, fdo_id);
        let ghost fv = fdo_pairs(f@);
        f.push((fdo_id, app_id.to_owned(), id.to_owned()));
        proof {
            assert(fdo_pairs(f@) =~= fv.push((fdo_id, (app_id@, id@))));
            lemma_assoc_push(fv, fdo_id, (app_id@, id@));
            assert(assoc(fdo_pairs(f@)) =~= f0.insert(fdo_id, (app_id@, id@)));
        }
        let _ = Self::drop_portal(&mut p, app_id, id);
        let ghost pv = portal_pairs(p@);
        p.push((app_id.to_owned(), id.to_owned(), live));
        proof {
            assert(portal_pairs(p@) =~= pv.push(((app_id@, id@), live)));
            lemma_assoc_push(pv, (app_id@, id@), live);
            assert(assoc(portal_pairs(p@)) =~= p0.insert((app_id@, id@), live));
        }
        self.by_portal = p;
        self.by_fdo = f;
    }

    /// The FDO server closed the notification `fdo_id`: it is forgotten and
    /// handed back (its temporary files are then removed by the caller).
    pub fn closed(&mut self, fdo_id: u32) -> (out: Option<LiveNotif>)
        ensures
            (final(self).by_key(), final(self).by_fdo_id()) == closed_spec(old(self).by_key(), old(self).by_fdo_id(), fdo_id),
            match out {
                Some(l) => old(self).by_fdo_id().contains_key(fdo_id) && old(self).by_key().contains_key(old(self).by_fdo_id()[fdo_id])
                    && l == old(self).by_key()[old(self).by_fdo_id()[fdo_id]],
                None => !(old(self).by_fdo_id().contains_key(fdo_id) && old(self).by_key().contains_key(old(self).by_fdo_id()[fdo_id])),
            },
    {
        proof {
            use_type_invariant(&*self);
        }
        let mut p: Vec<(String, String, LiveNotif)> = Vec::new();
        let mut f: Vec<(u32, String, String)> = Vec::new();
        std::mem::swap(&mut p, &mut self.by_portal);
        std::mem::swap(&mut f, &mut self.by_fdo);
        let out = match Self::drop_fdo(&mut f, fdo_id) {
            Some((a, b)) => Self::drop_portal(&mut p, a.as_str(), b.as_str()),
            None => None,
        };
        self.by_portal = p;
        self.by_fdo = f;
        out
    }

    /// The notification and portal action an FDO action is for; `None` when
    /// the FDO id is not a live notification.
    pub fn action(&self, fdo_id: u32, key: &str) -> (out: Option<(String, String, String, Option<ActionSource>)>)
        ensures
            match action_spec(self.by_key(), self.by_fdo_id(), fdo_id, key@) {
                Some((k, name, src)) => out matches Some((a, b, n, s)) && (a@, b@) == k && n@ == name && s == src,
                None => out is None,
            },
    {
        proof {
            use_type_invariant(self);
            lemma_assoc_domain(fdo_pairs(self.by_fdo@), fdo_id);
        }
        let i = match Self::fdo_pos(&self.by_fdo, fdo_id) {
            Some(i) => i,
            None => return None,
        };
        proof {
            lemma_assoc_index(fdo_pairs(self.by_fdo@), i as int);
        }
        let a = self.by_fdo[i].1.as_str();
        let b = self.by_fdo[i].2.as_str();
        proof {
            lemma_assoc_domain(portal_pairs(self.by_portal@), (a@, b@));
        }
        let j = match Self::portal_pos(&self.by_portal, a, b) {
            Some(j) => j,
            None => return None,
        };
        proof {
            lemma_assoc_index(portal_pairs(self.by_portal@), j as int);
        }
        let (name, src) = resolve_action(&self.by_portal[j].2.actions, key);
        Some((a.to_owned(), b.to_owned(), name, src))
    }
}

/// Once recorded, a notification's FDO id leads back to it, and an action
/// invoked on it is looked up in its own action table.
pub proof fn law_recorded_is_found(
    p: Map<NotifKey, LiveNotif>,
    f: Map<u32, NotifKey>,
    k: NotifKey,
    l: LiveNotif,
    key: Seq<char>,
)
    ensures
        ({
            let (p2, f2) = record_spec(p, f, k, l);
            action_spec(p2, f2, l.fdo_id, key) matches Some((k2, _, _)) && k2 == k
        }),
{
}

/// A notification withdrawn after being recorded is gone: its key is not
/// live and its FDO id leads nowhere.
pub proof fn law_withdrawn_is_gone(
    p: Map<NotifKey, LiveNotif>,
    f: Map<u32, NotifKey>,
    k: NotifKey,
    l: LiveNotif,
    key: Seq<char>,
)
    ensures
        ({
            let (p2, f2) = record_spec(p, f, k, l);
            let (p3, f3) = withdraw_spec(p2, f2, k);
            !p3.contains_key(k) && action_spec(p3, f3, l.fdo_id, key) is None
        }),
{
}

/// A notification closed by the FDO server after being recorded is gone.
pub proof fn law_closed_is_gone(
    p: Map<NotifKey, LiveNotif>,
    f: Map<u32, NotifKey>,
    k: NotifKey,
    l: LiveNotif,
    key: Seq<char>,
)
    ensures
        ({
            let (p2, f2) = record_spec(p, f, k, l);
            let (p3, f3) = closed_spec(p2, f2, l.fdo_id);
            !p3.contains_key(k) && action_spec(p3, f3, l.fdo_id, key) is None
        }),
{
}

} // verus!
